//! Parsing of bracket tags on file names (`[.base64]`, snippet and edit
//! references), of comment-embedded command links, and of the whole
//! name-and-tags region of a marker line.

use vstd::prelude::*;
use crate::model::{Command, EditRef, File, SnippetParseError, SnippetRef, SnippetRefV};
use crate::strutil::{
    all_digits, digits_val, find_char_from, find_first, first_occ, lemma_first_occ,
    lemma_first_occ_unique, parse_usize, spec_trim, str_eq, str_ends_with, str_starts_with,
    trim_str,
};

verus! {

/// Outcome of snippet-reference parsing, over character sequences.
pub enum SnippetParseV {
    Accepted { href: Option<Seq<char>>, line: nat },
    BadFormat,
    NoClosingBracket,
    NoColon,
    BadLineNumber { input: Seq<char> },
}

/// A line-number field: its trimmed text read as unsigned decimal, when
/// that is a number that fits in `usize`.
pub open spec fn parse_line_number(s: Seq<char>) -> Option<nat> {
    let lt = spec_trim(s);
    if lt.len() > 0 && all_digits(lt) && digits_val(lt) <= usize::MAX {
        Some(digits_val(lt))
    } else {
        None
    }
}

/// The part of snippet parsing after one of the three opening forms: the
/// closing bracket is stripped, then either `href:line` or a bare line
/// number is read.
pub open spec fn snippet_tail(rest: Seq<char>, has_href: bool) -> SnippetParseV {
    if !(rest.len() >= 1 && rest.last() == ']') {
        SnippetParseV::NoClosingBracket
    } else {
        let inner = rest.drop_last();
        if has_href {
            if first_occ(inner, ':') >= inner.len() {
                SnippetParseV::NoColon
            } else {
                let ci = first_occ(inner, ':') as int;
                let line_str = inner.skip(ci + 1);
                match parse_line_number(line_str) {
                    Some(v) => SnippetParseV::Accepted { href: Some(inner.take(ci)), line: v },
                    None => SnippetParseV::BadLineNumber { input: line_str },
                }
            }
        } else {
            match parse_line_number(inner) {
                Some(v) => SnippetParseV::Accepted { href: None, line: v },
                None => SnippetParseV::BadLineNumber { input: inner },
            }
        }
    }
}

/// What snippet-reference parsing yields on this input: one of the forms
/// `[.#HREF:LINE]`, `[.snippet#HREF:LINE]`, `[.snippet:N]`, after trimming.
pub open spec fn spec_parse_snippet(input: Seq<char>) -> SnippetParseV {
    let t = spec_trim(input);
    if t.len() >= 3 && t.take(3) == "[.#"@ {
        snippet_tail(t.skip(3), true)
    } else if t.len() >= 10 && t.take(10) == "[.snippet#"@ {
        snippet_tail(t.skip(10), true)
    } else if t.len() >= 10 && t.take(10) == "[.snippet:"@ {
        snippet_tail(t.skip(10), false)
    } else {
        SnippetParseV::BadFormat
    }
}

/// How an exec parse result corresponds to [`spec_parse_snippet`].
pub open spec fn snippet_parse_matches(
    s: Seq<char>,
    r: Result<SnippetRef, SnippetParseError>,
) -> bool {
    match spec_parse_snippet(s) {
        SnippetParseV::Accepted { href, line } => r matches Ok(sr) && sr@.command_href == href
            && sr@.line == line,
        SnippetParseV::BadFormat => r == Err::<SnippetRef, SnippetParseError>(
            SnippetParseError::InvalidFormat,
        ),
        SnippetParseV::NoClosingBracket => r == Err::<SnippetRef, SnippetParseError>(
            SnippetParseError::MissingClosingBracket,
        ),
        SnippetParseV::NoColon => r == Err::<SnippetRef, SnippetParseError>(
            SnippetParseError::MissingColon,
        ),
        SnippetParseV::BadLineNumber { input } => r matches Err(e) && e matches
            SnippetParseError::InvalidLineNumber { input: inp } && inp@ == input,
    }
}

impl SnippetRef {
    /// Parses a snippet reference: `[.snippet:N]`, `[.snippet#href:line]`,
    /// or the shorthand `[.#href:line]`.
    pub fn parse(input: &str) -> (r: Result<SnippetRef, SnippetParseError>)
        ensures
            snippet_parse_matches(input@, r),
    {
        proof {
            reveal_strlit("[.#");
            reveal_strlit("[.snippet#");
            reveal_strlit("[.snippet:");
        }
        let t = trim_str(input);
        let n = t.unicode_len();
        let (rest_start, has_href): (usize, bool) = if str_starts_with(t, "[.#") {
            (3, true)
        } else if str_starts_with(t, "[.snippet#") {
            (10, true)
        } else if str_starts_with(t, "[.snippet:") {
            (10, false)
        } else {
            return Err(SnippetParseError::InvalidFormat);
        };
        let ghost rest = t@.skip(rest_start as int);
        if !(n > rest_start && t.get_char(n - 1) == ']') {
            assert(rest.len() >= 1 ==> rest.last() == t@[n - 1]);
            return Err(SnippetParseError::MissingClosingBracket);
        }
        let inner = t.substring_char(rest_start, n - 1);
        proof {
            assert(rest.last() == t@[n - 1]);
            assert(inner@ =~= rest.drop_last());
        }
        let inner_len = n - 1 - rest_start;
        if has_href {
            let ci = find_first(inner, ':');
            if ci >= inner_len {
                return Err(SnippetParseError::MissingColon);
            }
            let href = inner.substring_char(0, ci);
            let line_str = inner.substring_char(ci + 1, inner_len);
            proof {
                assert(href@ =~= inner@.take(ci as int));
                assert(line_str@ =~= inner@.skip(ci + 1));
            }
            let lt = trim_str(line_str);
            match parse_usize(lt) {
                Some(v) => Ok(SnippetRef { command_href: Some(href.to_owned()), line: v }),
                None => Err(SnippetParseError::InvalidLineNumber { input: line_str.to_owned() }),
            }
        } else {
            let lt = trim_str(inner);
            match parse_usize(lt) {
                Some(v) => Ok(SnippetRef { command_href: None, line: v }),
                None => Err(SnippetParseError::InvalidLineNumber { input: inner.to_owned() }),
            }
        }
    }

    /// Parses a snippet reference, discarding the error detail.
    pub fn parse_legacy(input: &str) -> (r: Option<SnippetRef>)
        ensures
            match spec_parse_snippet(input@) {
                SnippetParseV::Accepted { href, line } => r matches Some(sr) && sr@.command_href
                    == href && sr@.line == line,
                _ => r is None,
            },
    {
        match SnippetRef::parse(input) {
            Ok(sr) => Some(sr),
            Err(_) => None,
        }
    }
}

/// The marker-line name of a file: its name, with the base64 tag appended
/// on binary files.
pub open spec fn spec_archive_name(name: Seq<char>, is_binary: bool) -> Seq<char> {
    if is_binary {
        name + "[.base64]"@
    } else {
        name
    }
}

/// The inverse of [`spec_archive_name`]: the plain name and whether the
/// base64 tag was present.
pub open spec fn spec_parse_archive_name(s: Seq<char>) -> (Seq<char>, bool) {
    if s.len() >= 9 && s.skip(s.len() - 9) == "[.base64]"@ {
        (s.take(s.len() - 9), true)
    } else {
        (s, false)
    }
}

impl File {
    /// The name this file carries on its marker line: the base64 tag is
    /// appended when the file is binary.
    pub fn archive_name(&self) -> (r: String)
        ensures
            r@ == spec_archive_name(self.name@, self.is_binary),
    {
        if self.is_binary {
            self.name.clone().concat("[.base64]")
        } else {
            self.name.clone()
        }
    }

    /// Splits a marker-line name into the plain name and the binary flag.
    pub fn parse_archive_name(archive_name: &str) -> (r: (String, bool))
        ensures
            r.0@ == spec_parse_archive_name(archive_name@).0,
            r.1 == spec_parse_archive_name(archive_name@).1,
    {
        proof {
            reveal_strlit("[.base64]");
        }
        let n = archive_name.unicode_len();
        if str_ends_with(archive_name, "[.base64]") {
            let name = archive_name.substring_char(0, n - 9);
            proof {
                assert(name@ =~= archive_name@.take(n - 9));
            }
            (name.to_owned(), true)
        } else {
            (archive_name.to_owned(), false)
        }
    }
}

/// Outcome of command-link parsing, over character sequences.
pub enum CommandParseV {
    Accepted { name: Seq<char>, href: Seq<char> },
    Rejected,
}

/// What command-link parsing yields: the form `[command: NAME](#HREF)`,
/// after trimming; the name is trimmed, the href runs to the first `)`.
pub open spec fn spec_parse_command(s: Seq<char>) -> CommandParseV {
    let t = spec_trim(s);
    if !(t.len() >= 9 && t.take(9) == "[command:"@) {
        CommandParseV::Rejected
    } else if first_occ(t, ']') >= t.len() {
        CommandParseV::Rejected
    } else {
        let b = first_occ(t, ']') as int;
        let name = spec_trim(t.subrange(9, b));
        let rem = spec_trim(t.skip(b + 1));
        if !(rem.len() >= 2 && rem.take(2) == "(#"@) {
            CommandParseV::Rejected
        } else if first_occ(rem, ')') >= rem.len() {
            CommandParseV::Rejected
        } else {
            let p = first_occ(rem, ')') as int;
            CommandParseV::Accepted { name, href: rem.subrange(2, p) }
        }
    }
}

/// How an exec command parse result corresponds to [`spec_parse_command`].
pub open spec fn command_parse_matches(s: Seq<char>, r: Option<Command>) -> bool {
    match spec_parse_command(s) {
        CommandParseV::Accepted { name, href } => r matches Some(c) && c.name@ == name && c.href@
            == href,
        CommandParseV::Rejected => r is None,
    }
}

impl Command {
    /// Parses a command link of the form `[command: NAME](#HREF)`.
    pub fn parse(input: &str) -> (r: Option<Command>)
        ensures
            command_parse_matches(input@, r),
    {
        proof {
            reveal_strlit("[command:");
            reveal_strlit("(#");
        }
        let t = trim_str(input);
        let n = t.unicode_len();
        if !str_starts_with(t, "[command:") {
            return None;
        }
        let b = find_first(t, ']');
        if b >= n {
            return None;
        }
        proof {
            lemma_first_occ(t@, ']');
            if b < 9 {
                assert(t@[b as int] == t@.take(9)[b as int]);
                assert(t@.take(9)[b as int] == "[command:"@[b as int]);
                assert(false);
            }
        }
        let name = trim_str(t.substring_char(9, b));
        let rem = trim_str(t.substring_char(b + 1, n));
        proof {
            assert(t@.subrange(b + 1, n as int) =~= t@.skip(b + 1));
        }
        let rn = rem.unicode_len();
        if !str_starts_with(rem, "(#") {
            return None;
        }
        let p = find_first(rem, ')');
        if p >= rn {
            return None;
        }
        proof {
            lemma_first_occ(rem@, ')');
            if p < 2 {
                assert(rem@[p as int] == rem@.take(2)[p as int]);
                assert(rem@.take(2)[p as int] == "(#"@[p as int]);
                assert(false);
            }
        }
        let href = rem.substring_char(2, p);
        Some(Command { name: name.to_owned(), href: href.to_owned() })
    }
}

/// Outcome of edit-tag parsing, over character sequences.
pub enum EditTagV {
    Accepted { href: Option<Seq<char>>, line: Option<nat> },
    Rejected,
}

/// What edit-tag parsing yields: the literal `[.edit]`, or
/// `[.edit#HREF:LINE]` with an undecorated decimal line number.
pub open spec fn spec_parse_edit_tag(tag: Seq<char>) -> EditTagV {
    if tag.len() >= 7 && tag.take(7) == "[.edit#"@ {
        let content = tag.skip(7);
        if first_occ(content, ']') >= content.len() {
            EditTagV::Rejected
        } else {
            let eb = first_occ(content, ']') as int;
            let inner = content.take(eb);
            if first_occ(inner, ':') >= inner.len() {
                EditTagV::Rejected
            } else {
                let ci = first_occ(inner, ':') as int;
                let line_str = inner.skip(ci + 1);
                if line_str.len() > 0 && all_digits(line_str) && digits_val(line_str)
                    <= usize::MAX {
                    EditTagV::Accepted {
                        href: Some(inner.take(ci)),
                        line: Some(digits_val(line_str)),
                    }
                } else {
                    EditTagV::Rejected
                }
            }
        }
    } else if tag == "[.edit]"@ {
        EditTagV::Accepted { href: None, line: None }
    } else {
        EditTagV::Rejected
    }
}

/// How an exec edit-tag parse result corresponds to
/// [`spec_parse_edit_tag`].
pub open spec fn edit_tag_matches(s: Seq<char>, r: Option<(Option<String>, Option<usize>)>) -> bool {
    match spec_parse_edit_tag(s) {
        EditTagV::Accepted { href, line } => r matches Some(hl) && (match hl.0 {
            Some(h) => href == Some(h@),
            None => href is None,
        }) && (match hl.1 {
            Some(l) => line == Some(l as nat),
            None => line is None,
        }),
        EditTagV::Rejected => r is None,
    }
}

/// Parses an edit tag: `[.edit]` or `[.edit#href:line]`, giving the href
/// and the informational start line.
pub(crate) fn parse_edit_tag(tag: &str) -> (r: Option<(Option<String>, Option<usize>)>)
    ensures
        edit_tag_matches(tag@, r),
{
    proof {
        reveal_strlit("[.edit#");
        reveal_strlit("[.edit]");
    }
    let n = tag.unicode_len();
    if str_starts_with(tag, "[.edit#") {
        let ghost content = tag@.skip(7);
        let eb = match find_char_from(tag, ']', 7) {
            Some(e) => e,
            None => {
                proof {
                    lemma_first_occ(content, ']');
                    if first_occ(content, ']') < content.len() {
                        assert(content[first_occ(content, ']') as int] == tag@[7 + first_occ(
                            content,
                            ']',
                        ) as int]);
                        assert(false);
                    }
                }
                return None;
            },
        };
        proof {
            assert forall|k: int| 0 <= k < eb - 7 implies content[k] != ']' by {
                assert(content[k] == tag@[7 + k]);
            }
            assert(content[eb - 7] == tag@[eb as int]);
            lemma_first_occ_unique(content, ']', eb - 7);
        }
        let inner = tag.substring_char(7, eb);
        proof {
            assert(inner@ =~= content.take(eb - 7));
        }
        let inner_len = eb - 7;
        let ci = find_first(inner, ':');
        if ci >= inner_len {
            return None;
        }
        let href = inner.substring_char(0, ci);
        let line_str = inner.substring_char(ci + 1, inner_len);
        proof {
            assert(href@ =~= inner@.take(ci as int));
            assert(line_str@ =~= inner@.skip(ci + 1));
        }
        match parse_usize(line_str) {
            Some(v) => Some((Some(href.to_owned()), Some(v))),
            None => None,
        }
    } else if str_eq(tag, "[.edit]") {
        Some((None, None))
    } else {
        None
    }
}

/// Tag state gathered while scanning the bracket tags of a name region.
#[verifier::ext_equal]
pub struct TagsV {
    pub is_binary: bool,
    pub snippet: Option<SnippetRefV>,
    pub edit: Option<(Option<Seq<char>>, Option<nat>)>,
}

pub open spec fn empty_tags() -> TagsV {
    TagsV { is_binary: false, snippet: None, edit: None }
}

/// One recognized tag updates the gathered state; anything unrecognized is
/// skipped.
pub open spec fn apply_tag(acc: TagsV, tag: Seq<char>) -> TagsV {
    if tag == "[.base64]"@ {
        TagsV { is_binary: true, ..acc }
    } else {
        match spec_parse_snippet(tag) {
            SnippetParseV::Accepted { href, line } => TagsV {
                snippet: Some(SnippetRefV { command_href: href, line }),
                ..acc
            },
            _ => match spec_parse_edit_tag(tag) {
                EditTagV::Accepted { href, line } => TagsV { edit: Some((href, line)), ..acc },
                EditTagV::Rejected => acc,
            },
        }
    }
}

/// Scans bracket tags left to right: each region up to and including the
/// next `]` is one candidate tag.
pub open spec fn scan_tags(rest: Seq<char>, acc: TagsV) -> TagsV
    decreases rest.len(),
{
    if first_occ(rest, ']') >= rest.len() {
        acc
    } else {
        let be = first_occ(rest, ']') as int;
        scan_tags(rest.skip(be + 1), apply_tag(acc, rest.take(be + 1)))
    }
}

/// The parsed name-and-tags region: the base name before the first `[`,
/// trimmed, and the gathered tag state.
#[verifier::ext_equal]
pub struct NameTagsV {
    pub base: Seq<char>,
    pub tags: TagsV,
}

pub open spec fn spec_name_and_tags(name_part: Seq<char>) -> NameTagsV {
    if first_occ(name_part, '[') >= name_part.len() {
        NameTagsV { base: spec_trim(name_part), tags: empty_tags() }
    } else {
        let bi = first_occ(name_part, '[') as int;
        NameTagsV {
            base: spec_trim(name_part.take(bi)),
            tags: scan_tags(name_part.skip(bi), empty_tags()),
        }
    }
}

/// The gathered tag state the exec values stand for.
pub open spec fn tags_of(
    is_binary: bool,
    snippet: Option<SnippetRef>,
    edit: Option<EditRef>,
) -> TagsV {
    TagsV {
        is_binary,
        snippet: match snippet {
            Some(sr) => Some(sr@),
            None => None,
        },
        edit: match edit {
            Some(er) => Some((er@.command_href, er@.start_line)),
            None => None,
        },
    }
}

/// How an exec name-and-tags result corresponds to
/// [`spec_name_and_tags`].
pub open spec fn name_tags_matches(
    s: Seq<char>,
    r: (String, bool, Option<SnippetRef>, Option<EditRef>),
) -> bool {
    let m = spec_name_and_tags(s);
    &&& r.0@ == m.base
    &&& tags_of(r.1, r.2, r.3) == m.tags
    &&& match r.3 {
        Some(er) => er.edits@.len() == 0,
        None => true,
    }
}

/// Parses the name-and-tags region of a marker line: the base file name
/// before the first `[`, then each bracket tag in scan order.
pub(crate) fn parse_name_and_tags(name_part: &str) -> (r: (
    String,
    bool,
    Option<SnippetRef>,
    Option<EditRef>,
))
    ensures
        name_tags_matches(name_part@, r),
{
    let n = name_part.unicode_len();
    let bi = find_first(name_part, '[');
    if bi >= n {
        return (trim_str(name_part).to_owned(), false, None, None);
    }
    let base = trim_str(name_part.substring_char(0, bi)).to_owned();
    let mut pos: usize = bi;
    let mut is_binary: bool = false;
    let mut snippet: Option<SnippetRef> = None;
    let mut edit: Option<EditRef> = None;
    proof {
        assert(name_part@.skip(bi as int) == name_part@.skip(pos as int));
    }
    loop
        invariant
            bi <= pos <= n,
            n == name_part@.len(),
            bi == first_occ(name_part@, '['),
            bi < n,
            base@ == spec_trim(name_part@.take(bi as int)),
            scan_tags(name_part@.skip(bi as int), empty_tags()) == scan_tags(
                name_part@.skip(pos as int),
                tags_of(is_binary, snippet, edit),
            ),
            match edit {
                Some(ref er) => er.edits@.len() == 0,
                None => true,
            },
        decreases n - pos,
    {
        let ghost t = name_part@.skip(pos as int);
        let be = match find_char_from(name_part, ']', pos) {
            Some(e) => e,
            None => {
                proof {
                    lemma_first_occ(t, ']');
                    if first_occ(t, ']') < t.len() {
                        assert(t[first_occ(t, ']') as int] == name_part@[pos + first_occ(
                            t,
                            ']',
                        ) as int]);
                        assert(false);
                    }
                }
                return (base, is_binary, snippet, edit);
            },
        };
        proof {
            assert forall|k: int| 0 <= k < be - pos implies t[k] != ']' by {
                assert(t[k] == name_part@[pos + k]);
            }
            assert(t[be - pos] == name_part@[be as int]);
            lemma_first_occ_unique(t, ']', be - pos);
        }
        let tag = name_part.substring_char(pos, be + 1);
        proof {
            assert(tag@ =~= t.take(be - pos + 1));
            assert(t.skip(be - pos + 1) =~= name_part@.skip(be + 1));
        }
        if str_eq(tag, "[.base64]") {
            is_binary = true;
        } else {
            match SnippetRef::parse(tag) {
                Ok(sr) => {
                    snippet = Some(sr);
                },
                Err(_) => {
                    match parse_edit_tag(tag) {
                        Some((h, l)) => {
                            edit = Some(EditRef { command_href: h, start_line: l, edits: Vec::new() });
                        },
                        None => {},
                    }
                },
            }
        }
        pos = be + 1;
    }
}

} // verus!
