//! The archive aggregate: building it file by file, extracting command
//! links from the comment, command lookup, and snippet-reference
//! validation.

use vstd::prelude::*;
use crate::model::{
    Archive, ArchiveV, Command, CommandV, DecodeError, File, FileV, SnippetRefError,
    SnippetRefErrorV,
};
use crate::tags::{spec_parse_command, CommandParseV};
use crate::strutil::{
    find_char_from, first_occ, lemma_first_occ, lemma_first_occ_unique, str_eq,
};

verus! {

/// Whether adding normal file `f` to `files` collides with a normal file
/// of the same name already there.
pub open spec fn duplicates_normal_name(files: Seq<FileV>, f: FileV) -> bool {
    f.is_normal() && exists|k: int|
        0 <= k < files.len() && (#[trigger] files[k]).is_normal() && files[k].name == f.name
}

/// The command links scanned out of comment text, left to right: at each
/// `[`, the span running to the first `)` on the same line is tried as a
/// command link, and scanning resumes after the span.
pub open spec fn spec_scan_commands(s: Seq<char>) -> Seq<CommandV>
    decreases s.len(),
{
    if s.len() == 0 {
        Seq::empty()
    } else if s[0] != '[' {
        spec_scan_commands(s.drop_first())
    } else {
        let t = s.drop_first();
        let inl = first_occ(t, '\n');
        let ipr = first_occ(t, ')');
        let consumed: nat = if ipr < t.len() && ipr < inl {
            (ipr + 1) as nat
        } else if inl < t.len() {
            inl
        } else {
            t.len()
        };
        let span = seq!['['] + t.take(consumed as int);
        let rest = s.skip(1 + consumed as int);
        match spec_parse_command(span) {
            CommandParseV::Accepted { name, href } => seq![CommandV { name, href }]
                + spec_scan_commands(rest),
            CommandParseV::Rejected => spec_scan_commands(rest),
        }
    }
}

/// Index of the last command with this href, the one lookup returns.
pub open spec fn spec_lookup_command(cmds: Seq<CommandV>, href: Seq<char>) -> Option<int>
    decreases cmds.len(),
{
    if cmds.len() == 0 {
        None
    } else if cmds.last().href == href {
        Some(cmds.len() - 1)
    } else {
        spec_lookup_command(cmds.drop_last(), href)
    }
}

pub proof fn lemma_lookup_command(cmds: Seq<CommandV>, href: Seq<char>)
    ensures
        spec_lookup_command(cmds, href) matches Some(i) ==> 0 <= i < cmds.len() && cmds[i].href
            == href,
        spec_lookup_command(cmds, href) is None ==> forall|k: int|
            0 <= k < cmds.len() ==> (#[trigger] cmds[k]).href != href,
    decreases cmds.len(),
{
    if cmds.len() > 0 && cmds.last().href != href {
        lemma_lookup_command(cmds.drop_last(), href);
        if spec_lookup_command(cmds, href) is None {
            assert forall|k: int| 0 <= k < cmds.len() implies (#[trigger] cmds[k]).href
                != href by {
                if k < cmds.len() - 1 {
                    assert(cmds.drop_last()[k] == cmds[k]);
                }
            }
        } else {
            let i = spec_lookup_command(cmds.drop_last(), href)->Some_0;
            assert(cmds.drop_last()[i] == cmds[i]);
        }
    }
}

/// The unresolved snippet references of these files against these
/// commands, in file order.
pub open spec fn spec_snippet_errors(cmds: Seq<CommandV>, files: Seq<FileV>) -> Seq<
    SnippetRefErrorV,
>
    decreases files.len(),
{
    if files.len() == 0 {
        Seq::empty()
    } else {
        let rest = spec_snippet_errors(cmds, files.drop_last());
        let f = files.last();
        if f.snippet_ref matches Some(sr) && sr.command_href matches Some(h)
            && spec_lookup_command(cmds, h) is None {
            rest.push(
                SnippetRefErrorV {
                    file: f.name,
                    missing_command: f.snippet_ref->Some_0.command_href->Some_0,
                },
            )
        } else {
            rest
        }
    }
}

/// Last index in `cmds` whose href equals `href`, as
/// [`spec_lookup_command`] gives it.
fn lookup_last(cmds: &Vec<Command>, href: &str) -> (r: Option<usize>)
    ensures
        match r {
            Some(i) => spec_lookup_command(cmds@.map_values(|c: Command| c@), href@) == Some(
                i as int,
            ),
            None => spec_lookup_command(cmds@.map_values(|c: Command| c@), href@) is None,
        },
{
    let ghost cv = cmds@.map_values(|c: Command| c@);
    let n = cmds.len();
    let mut i: usize = n;
    proof {
        assert(cv.take(n as int) =~= cv);
    }
    while i > 0
        invariant
            0 <= i <= n,
            n == cmds@.len(),
            cv == cmds@.map_values(|c: Command| c@),
            spec_lookup_command(cv, href@) == spec_lookup_command(cv.take(i as int), href@),
        decreases i,
    {
        i = i - 1;
        if str_eq(cmds[i].href.as_str(), href) {
            proof {
                assert(cv.take(i + 1).last() == cv[i as int]);
            }
            return Some(i);
        }
        proof {
            assert(cv.take(i + 1).last() == cv[i as int]);
            assert(cv.take(i + 1).drop_last() =~= cv.take(i as int));
        }
    }
    proof {
        assert(cv.take(0) =~= Seq::<CommandV>::empty());
    }
    None
}

impl Default for Archive {
    /// An archive with no comment, no commands and no files.
    fn default() -> (a: Archive)
        ensures
            a@.comment.len() == 0,
            a@.commands.len() == 0,
            a@.files.len() == 0,
    {
        let a = Archive { comment: String::new(), commands: Vec::new(), files: Vec::new() };
        proof {
            assert(a@.commands =~= Seq::<CommandV>::empty());
            assert(a@.files =~= Seq::<FileV>::empty());
        }
        a
    }
}

impl Archive {
    /// Builds an empty archive.
    pub fn new() -> (a: Archive)
        ensures
            a@.comment.len() == 0,
            a@.commands.len() == 0,
            a@.files.len() == 0,
    {
        Archive::default()
    }

    /// Builds an archive holding only a comment.
    pub fn with_comment(comment: &str) -> (a: Archive)
        ensures
            a@.comment == comment@,
            a@.commands.len() == 0,
            a@.files.len() == 0,
    {
        let a = Archive { comment: comment.to_owned(), commands: Vec::new(), files: Vec::new() };
        proof {
            assert(a@.commands =~= Seq::<CommandV>::empty());
            assert(a@.files =~= Seq::<FileV>::empty());
        }
        a
    }

    /// Appends a file; a normal file whose name a normal file already
    /// carries is refused as a duplicate.
    pub fn add_file(&mut self, file: File) -> (r: Result<(), DecodeError>)
        ensures
            duplicates_normal_name(old(self)@.files, file@) ==> (r matches Err(
                DecodeError::DuplicateFile { name },
            ) && name@ == file@.name && final(self)@ == old(self)@),
            !duplicates_normal_name(old(self)@.files, file@) ==> r is Ok && final(self)@.files
                == old(self)@.files.push(file@) && final(self)@.comment == old(self)@.comment
                && final(self)@.commands == old(self)@.commands,
    {
        let ghost fv = self@.files;
        if file.snippet_ref.is_none() && file.edit_ref.is_none() {
            let n = self.files.len();
            let mut i: usize = 0;
            while i < n
                invariant
                    0 <= i <= n,
                    n == self.files@.len(),
                    fv == self@.files,
                    file@.is_normal(),
                    forall|k: int|
                        0 <= k < i ==> !((#[trigger] fv[k]).is_normal() && fv[k].name
                            == file@.name),
                decreases n - i,
            {
                let f = &self.files[i];
                if f.snippet_ref.is_none() && f.edit_ref.is_none() && str_eq(
                    f.name.as_str(),
                    file.name.as_str(),
                ) {
                    proof {
                        assert(fv[i as int].is_normal() && fv[i as int].name == file@.name);
                        assert(duplicates_normal_name(fv, file@));
                    }
                    return Err(DecodeError::DuplicateFile { name: file.name });
                }
                i = i + 1;
            }
        }
        proof {
            assert(!duplicates_normal_name(self@.files, file@));
        }
        let ghost old_files = self@.files;
        self.files.push(file);
        proof {
            assert(self@.files =~= old_files.push(self.files@.last()@));
        }
        Ok(())
    }

    /// Re-extracts the command list from the comment text.
    pub fn parse_commands(&mut self)
        ensures
            final(self)@.commands == spec_scan_commands(old(self)@.comment),
            final(self)@.comment == old(self)@.comment,
            final(self)@.files == old(self)@.files,
    {
        let cmds = scan_commands(self.comment.as_str());
        self.commands = cmds;
    }

    /// Looks a command up by its href; among commands sharing an href the
    /// last one wins.
    pub fn get_command(&self, href: &str) -> (r: Option<&Command>)
        ensures
            match r {
                Some(c) => spec_lookup_command(self@.commands, href@) matches Some(i) && c@
                    == self@.commands[i],
                None => spec_lookup_command(self@.commands, href@) is None,
            },
    {
        proof {
            lemma_lookup_command(self@.commands, href@);
        }
        match lookup_last(&self.commands, href) {
            Some(i) => Some(&self.commands[i]),
            None => None,
        }
    }

    /// Checks every snippet reference against the command list: `Ok` with
    /// no entries when all resolve, otherwise `Err` listing, in file
    /// order, each file whose referenced command is missing.
    pub fn validate_snippet_refs(&self) -> (r: Result<Vec<SnippetRefError>, Vec<SnippetRefError>>)
        ensures
            ({
                let errs = spec_snippet_errors(self@.commands, self@.files);
                match r {
                    Ok(v) => errs.len() == 0 && v@.len() == 0,
                    Err(v) => errs.len() > 0 && v@.map_values(|e: SnippetRefError| e@) == errs,
                }
            }),
    {
        let ghost cmdv = self@.commands;
        let ghost filev = self@.files;
        let n = self.files.len();
        let mut errors: Vec<SnippetRefError> = Vec::new();
        let mut i: usize = 0;
        proof {
            assert(errors@.map_values(|e: SnippetRefError| e@) =~= Seq::<
                SnippetRefErrorV,
            >::empty());
            assert(spec_snippet_errors(cmdv, filev.take(0)) =~= Seq::<SnippetRefErrorV>::empty());
        }
        while i < n
            invariant
                0 <= i <= n,
                n == self.files@.len(),
                cmdv == self@.commands,
                filev == self@.files,
                errors@.map_values(|e: SnippetRefError| e@) == spec_snippet_errors(
                    cmdv,
                    filev.take(i as int),
                ),
            decreases n - i,
        {
            let ghost pre = errors@.map_values(|e: SnippetRefError| e@);
            let f = &self.files[i];
            match &f.snippet_ref {
                Some(sr) => {
                    match &sr.command_href {
                        Some(h) => {
                            if lookup_last(&self.commands, h.as_str()).is_none() {
                                errors.push(
                                    SnippetRefError {
                                        file: f.name.clone(),
                                        missing_command: h.clone(),
                                    },
                                );
                                proof {
                                    assert(errors@.map_values(|e: SnippetRefError| e@)
                                        =~= pre.push(errors@.last()@));
                                }
                            }
                        },
                        None => {},
                    }
                },
                None => {},
            }
            proof {
                assert(filev.take(i + 1).last() == filev[i as int]);
                assert(filev.take(i + 1).drop_last() =~= filev.take(i as int));
            }
            i = i + 1;
        }
        proof {
            assert(filev.take(n as int) =~= filev);
        }
        if errors.len() == 0 {
            Ok(errors)
        } else {
            Err(errors)
        }
    }
}

/// Scans comment text for command links.
#[verifier::rlimit(60)]
fn scan_commands(text: &str) -> (r: Vec<Command>)
    ensures
        r@.map_values(|c: Command| c@) == spec_scan_commands(text@),
{
    let n = text.unicode_len();
    let mut r: Vec<Command> = Vec::new();
    let mut i: usize = 0;
    proof {
        assert(r@.map_values(|c: Command| c@) =~= Seq::<CommandV>::empty());
        assert(text@.skip(0) =~= text@);
    }
    while i < n
        invariant
            0 <= i <= n,
            n == text@.len(),
            spec_scan_commands(text@) == r@.map_values(|c: Command| c@) + spec_scan_commands(
                text@.skip(i as int),
            ),
        decreases n - i,
    {
        let ghost s = text@.skip(i as int);
        let ghost pre = r@.map_values(|c: Command| c@);
        if text.get_char(i) != '[' {
            proof {
                assert(s[0] == text@[i as int]);
                assert(s.drop_first() =~= text@.skip(i + 1));
            }
            i = i + 1;
        } else {
            let ghost t = s.drop_first();
            let inl_abs = match find_char_from(text, '\n', i + 1) {
                Some(x) => x,
                None => n,
            };
            let ipr_abs = match find_char_from(text, ')', i + 1) {
                Some(x) => x,
                None => n,
            };
            proof {
                assert forall|k: int| 0 <= k < inl_abs - i - 1 implies t[k] != '\n' by {
                    assert(t[k] == text@[i + 1 + k]);
                }
                if inl_abs < n {
                    assert(t[inl_abs - i - 1] == text@[inl_abs as int]);
                }
                lemma_first_occ_unique(t, '\n', inl_abs - i - 1);
                assert forall|k: int| 0 <= k < ipr_abs - i - 1 implies t[k] != ')' by {
                    assert(t[k] == text@[i + 1 + k]);
                }
                if ipr_abs < n {
                    assert(t[ipr_abs - i - 1] == text@[ipr_abs as int]);
                }
                lemma_first_occ_unique(t, ')', ipr_abs - i - 1);
            }
            let end = if ipr_abs < n && ipr_abs < inl_abs {
                ipr_abs + 1
            } else if inl_abs < n {
                inl_abs
            } else {
                n
            };
            let span = text.substring_char(i, end);
            proof {
                assert(s[0] == text@[i as int]);
                assert(span@ =~= seq!['['] + t.take(end - i - 1));
                assert(text@.skip(end as int) =~= s.skip(1 + (end - i - 1)));
            }
            match Command::parse(span) {
                Some(cmd) => {
                    r.push(cmd);
                    proof {
                        match spec_parse_command(span@) {
                            CommandParseV::Accepted { name, href } => {
                                assert(r@.last()@ =~= CommandV { name, href });
                                assert(spec_scan_commands(s) == seq![CommandV { name, href }]
                                    + spec_scan_commands(text@.skip(end as int)));
                                assert(r@.map_values(|c: Command| c@) =~= pre.push(r@.last()@));
                                assert(pre.push(r@.last()@) =~= pre + seq![r@.last()@]);
                                assert((pre + seq![r@.last()@]) + spec_scan_commands(
                                    text@.skip(end as int),
                                ) =~= pre + (seq![r@.last()@] + spec_scan_commands(
                                    text@.skip(end as int),
                                )));
                            },
                            CommandParseV::Rejected => {
                                assert(false);
                            },
                        }
                    }
                },
                None => {
                    proof {
                        assert(spec_scan_commands(s) == spec_scan_commands(
                            text@.skip(end as int),
                        ));
                    }
                },
            }
            i = end;
        }
    }
    proof {
        assert(spec_scan_commands(text@.skip(n as int)) == Seq::<CommandV>::empty());
        assert(r@.map_values(|c: Command| c@) + Seq::<CommandV>::empty() =~= r@.map_values(
            |c: Command| c@,
        ));
    }
    r
}

} // verus!
