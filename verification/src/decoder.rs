//! The archive decoder: tokenizes an input stream into a comment and file
//! entries, parses per-file bracket tags, decodes binary bodies, extracts
//! command links from the comment, and parses and validates edit programs.

use vstd::prelude::*;
use vstd::utf8::{valid_utf8, decode_utf8, encode_utf8};
use crate::model::{
    Archive, ArchiveV, BinaryReason, DecodeError, EditRef, EditRefV, File, FileV, SnippetRef,
    SnippetRefV,
};
use crate::archive::{duplicates_normal_name, spec_scan_commands};
use crate::editparse::{ep_err_matches, spec_parse_edit_content, EpErrV};
use crate::strutil::{
    is_marker_line, marker_inner, marker_name_part, spec_lines, spec_trim, split_lines, str_eq,
    trim_str,
};
use crate::tags::{parse_name_and_tags, spec_name_and_tags, NameTagsV};
use crate::trusted::{b64_decode, base64_decoded, bytes_to_str};

verus! {

/// The file being accumulated while its body lines come in.
#[verifier::ext_equal]
pub struct CurV {
    pub name: Seq<char>,
    pub is_binary: bool,
    pub snippet: Option<SnippetRefV>,
    pub edit: Option<(Option<Seq<char>>, Option<nat>)>,
    pub data: Seq<u8>,
}

/// Tokenizer state: the comment so far, the finished files, and the file
/// being accumulated.
#[verifier::ext_equal]
pub struct DecV {
    pub comment: Seq<char>,
    pub files: Seq<FileV>,
    pub cur: Option<CurV>,
}

/// Ghost error of decoding.
pub enum DecErrV {
    Duplicate { name: Seq<char> },
    BadBase64 { name: Seq<char> },
    EditNotUtf8 { name: Seq<char> },
    EditParse { name: Seq<char>, err: EpErrV },
    TargetNotFound { name: Seq<char> },
}

pub open spec fn dec_init() -> DecV {
    DecV { comment: Seq::empty(), files: Seq::empty(), cur: None }
}

/// The fresh accumulator a marker line opens.
pub open spec fn cur_of_tags(m: NameTagsV) -> CurV {
    CurV {
        name: m.base,
        is_binary: m.tags.is_binary,
        snippet: m.tags.snippet,
        edit: m.tags.edit,
        data: Seq::empty(),
    }
}

/// The bytes of a binary body handed to base64: line breaks and carriage
/// returns dropped.
pub open spec fn filter_b64(data: Seq<u8>) -> Seq<u8> {
    data.filter(|b: u8| b != 10 && b != 13)
}

pub open spec fn edit_to_ref(e: Option<(Option<Seq<char>>, Option<nat>)>) -> Option<EditRefV> {
    match e {
        Some(hl) => Some(EditRefV { command_href: hl.0, start_line: hl.1, edits: Seq::empty() }),
        None => None,
    }
}

/// A finished file from an accumulated one: a binary body is base64
/// decoded; a text body loses one trailing line break.
pub open spec fn finalize_cur(cur: CurV) -> Result<FileV, DecErrV> {
    if cur.is_binary {
        match base64_decoded(filter_b64(cur.data)) {
            Some(bytes) => Ok(
                FileV {
                    name: cur.name,
                    data: bytes,
                    is_binary: true,
                    binary_reason: Some(BinaryReason::Explicit),
                    snippet_ref: cur.snippet,
                    edit_ref: edit_to_ref(cur.edit),
                },
            ),
            None => Err(DecErrV::BadBase64 { name: cur.name }),
        }
    } else {
        let d = if cur.data.len() > 0 && cur.data.last() == 10 {
            cur.data.drop_last()
        } else {
            cur.data
        };
        Ok(
            FileV {
                name: cur.name,
                data: d,
                is_binary: false,
                binary_reason: None,
                snippet_ref: cur.snippet,
                edit_ref: edit_to_ref(cur.edit),
            },
        )
    }
}

/// Closes the accumulated file, if any: finalize it and append it, the
/// name-uniqueness rule for normal files enforced here.
pub open spec fn dec_close(st: DecV) -> Result<DecV, DecErrV> {
    match st.cur {
        None => Ok(st),
        Some(cur) => match finalize_cur(cur) {
            Err(e) => Err(e),
            Ok(f) => if duplicates_normal_name(st.files, f) {
                Err(DecErrV::Duplicate { name: f.name })
            } else {
                Ok(DecV { comment: st.comment, files: st.files.push(f), cur: None })
            },
        },
    }
}

/// One input line moves the tokenizer: a marker line closes the
/// accumulated file and opens a new one; any other line is body content
/// or, before the first marker, comment text.
pub open spec fn dec_step(st: DecV, line: Seq<char>) -> Result<DecV, DecErrV> {
    if is_marker_line(line) {
        let m = spec_name_and_tags(marker_inner(line));
        match dec_close(st) {
            Err(e) => Err(e),
            Ok(st2) => Ok(DecV { cur: Some(cur_of_tags(m)), ..st2 }),
        }
    } else {
        match st.cur {
            Some(cur) => {
                if cur.is_binary && spec_trim(line).len() == 0 {
                    Ok(st)
                } else {
                    Ok(
                        DecV {
                            cur: Some(
                                CurV { data: cur.data + encode_utf8(line) + seq![10u8], ..cur },
                            ),
                            ..st
                        },
                    )
                }
            },
            None => {
                if spec_trim(line).len() == 0 && st.comment.len() == 0 {
                    Ok(st)
                } else if st.comment.len() == 0 {
                    Ok(DecV { comment: line, ..st })
                } else {
                    Ok(DecV { comment: st.comment + seq!['\n'] + line, ..st })
                }
            },
        }
    }
}

/// Runs the tokenizer over the lines from index `idx` on.
pub open spec fn dec_run(lines: Seq<Seq<char>>, idx: nat, st: DecV) -> Result<DecV, DecErrV>
    decreases lines.len() - idx,
{
    if idx >= lines.len() {
        Ok(st)
    } else {
        match dec_step(st, lines[idx as int]) {
            Ok(st2) => dec_run(lines, (idx + 1) as nat, st2),
            Err(e) => Err(e),
        }
    }
}

/// Whether some non-edit file of the archive carries this name.
pub open spec fn name_in_files(files: Seq<FileV>, name: Seq<char>) -> bool {
    exists|k: int|
        0 <= k < files.len() && (#[trigger] files[k]).name == name && files[k].edit_ref is None
}

/// Whether the name is on the caller-supplied filesystem list.
pub open spec fn name_in_fs(fs: Seq<Seq<char>>, name: Seq<char>) -> bool {
    exists|k: int| 0 <= k < fs.len() && #[trigger] fs[k] == name
}

/// Whether an edit file's target name exists: as a non-edit file in the
/// archive, or on the caller-supplied filesystem list.
pub open spec fn target_exists(files: Seq<FileV>, fs: Seq<Seq<char>>, name: Seq<char>) -> bool {
    name_in_files(files, name) || name_in_fs(fs, name)
}

/// First edit file whose target is missing, from `idx` on.
pub open spec fn first_missing_target(
    files: Seq<FileV>,
    fs: Seq<Seq<char>>,
    idx: nat,
) -> Option<nat>
    decreases files.len() - idx,
{
    if idx >= files.len() {
        None
    } else if files[idx as int].edit_ref is Some && !target_exists(
        files,
        fs,
        files[idx as int].name,
    ) {
        Some(idx)
    } else {
        first_missing_target(files, fs, (idx + 1) as nat)
    }
}

pub proof fn lemma_first_missing_target(files: Seq<FileV>, fs: Seq<Seq<char>>, idx: nat)
    ensures
        first_missing_target(files, fs, idx) matches Some(i) ==> idx <= i < files.len()
            && files[i as int].edit_ref is Some && !target_exists(files, fs, files[i as int].name)
            && (forall|k: int|
            idx <= k < i ==> !((#[trigger] files[k]).edit_ref is Some && !target_exists(
                files,
                fs,
                files[k].name,
            ))),
        first_missing_target(files, fs, idx) is None ==> forall|k: int|
            idx <= k < files.len() ==> !((#[trigger] files[k]).edit_ref is Some && !target_exists(
                files,
                fs,
                files[k].name,
            )),
    decreases files.len() - idx,
{
    if idx < files.len() && !(files[idx as int].edit_ref is Some && !target_exists(
        files,
        fs,
        files[idx as int].name,
    )) {
        lemma_first_missing_target(files, fs, (idx + 1) as nat);
    }
}

/// An edit file's body parsed into its blocks.
pub open spec fn parse_file_edits(f: FileV) -> Result<FileV, DecErrV> {
    match f.edit_ref {
        None => Ok(f),
        Some(er) => {
            if !valid_utf8(f.data) {
                Err(DecErrV::EditNotUtf8 { name: f.name })
            } else {
                match spec_parse_edit_content(decode_utf8(f.data)) {
                    Ok(bs) => Ok(
                        FileV {
                            edit_ref: Some(
                                EditRefV {
                                    command_href: er.command_href,
                                    start_line: er.start_line,
                                    edits: bs,
                                },
                            ),
                            ..f
                        },
                    ),
                    Err(e) => Err(DecErrV::EditParse { name: f.name, err: e }),
                }
            }
        },
    }
}

/// Parses the edit bodies of all files from `idx` on, replacing each.
pub open spec fn parse_all_edits(files: Seq<FileV>, idx: nat) -> Result<Seq<FileV>, DecErrV>
    decreases files.len() - idx,
{
    if idx >= files.len() {
        Ok(files)
    } else {
        match parse_file_edits(files[idx as int]) {
            Ok(f2) => parse_all_edits(files.update(idx as int, f2), (idx + 1) as nat),
            Err(e) => Err(e),
        }
    }
}

/// What decoding does after tokenizing: demand every edit target exists,
/// parse each edit body, and assemble the archive with the commands
/// scanned from the comment.
pub open spec fn spec_decode_tail(
    files: Seq<FileV>,
    fs: Seq<Seq<char>>,
    comment: Seq<char>,
) -> Result<ArchiveV, DecErrV> {
    match first_missing_target(files, fs, 0) {
        Some(i) => Err(DecErrV::TargetNotFound { name: files[i as int].name }),
        None => match parse_all_edits(files, 0) {
            Err(e) => Err(e),
            Ok(files2) => Ok(
                ArchiveV { comment, commands: spec_scan_commands(comment), files: files2 },
            ),
        },
    }
}

/// What decoding yields: tokenize the lines, close the dangling file,
/// extract commands from the comment, demand every edit target exists,
/// then parse each edit body.
pub open spec fn spec_decode(input: Seq<char>, fs: Seq<Seq<char>>) -> Result<ArchiveV, DecErrV> {
    match dec_run(spec_lines(input), 0, dec_init()) {
        Err(e) => Err(e),
        Ok(st) => match dec_close(st) {
            Err(e) => Err(e),
            Ok(st2) => spec_decode_tail(st2.files, fs, st2.comment),
        },
    }
}

/// How an exec decode error corresponds to a ghost one.
pub open spec fn dec_err_matches(ex: DecodeError, e: DecErrV) -> bool {
    match e {
        DecErrV::Duplicate { name } => ex matches DecodeError::DuplicateFile { name: n } && n@
            == name,
        DecErrV::BadBase64 { name } => ex matches DecodeError::InvalidBase64 { name: n } && n@
            == name,
        DecErrV::EditNotUtf8 { name } => ex matches DecodeError::EditNotUtf8 { name: n } && n@
            == name,
        DecErrV::EditParse { name, err } => ex matches DecodeError::EditParse {
            name: n,
            error: er,
        } && n@ == name && ep_err_matches(er, err),
        DecErrV::TargetNotFound { name } => ex matches DecodeError::EditTargetNotFound {
            name: n,
        } && n@ == name,
    }
}

/// How an exec decode result corresponds to [`spec_decode`].
pub open spec fn decode_matches(
    s: Seq<char>,
    fs: Seq<Seq<char>>,
    r: Result<Archive, DecodeError>,
) -> bool {
    match spec_decode(s, fs) {
        Ok(av) => r matches Ok(a) && a@ == av,
        Err(e) => r matches Err(ex) && dec_err_matches(ex, e),
    }
}

/// Appends the bytes of `src` to `dst`.
fn extend_bytes(dst: &mut Vec<u8>, src: &[u8])
    ensures
        final(dst)@ == old(dst)@ + src@,
{
    let n = src.len();
    let mut i: usize = 0;
    proof {
        assert(dst@ =~= old(dst)@ + src@.take(0));
    }
    while i < n
        invariant
            0 <= i <= n,
            n == src@.len(),
            dst@ == old(dst)@ + src@.take(i as int),
        decreases n - i,
    {
        dst.push(src[i]);
        proof {
            assert(dst@ =~= old(dst)@ + src@.take(i + 1));
        }
        i = i + 1;
    }
    proof {
        assert(src@.take(n as int) =~= src@);
    }
}

/// The bytes of a binary body with line breaks and carriage returns
/// dropped, as [`filter_b64`] gives them.
fn filter_base64_data(data: &Vec<u8>) -> (r: Vec<u8>)
    ensures
        r@ == filter_b64(data@),
{
    let n = data.len();
    let mut r: Vec<u8> = Vec::new();
    let mut i: usize = 0;
    proof {
        reveal(Seq::filter);
        assert(data@.take(0) =~= Seq::<u8>::empty());
        assert(r@ =~= filter_b64(data@.take(0)));
    }
    while i < n
        invariant
            0 <= i <= n,
            n == data@.len(),
            r@ == filter_b64(data@.take(i as int)),
        decreases n - i,
    {
        let b = data[i];
        proof {
            reveal(Seq::filter);
            assert(data@.take(i + 1).drop_last() =~= data@.take(i as int));
            assert(data@.take(i + 1).last() == data@[i as int]);
        }
        if b != 10 && b != 13 {
            r.push(b);
        }
        proof {
            reveal(Seq::filter);
            assert(r@ == filter_b64(data@.take(i + 1)));
        }
        i = i + 1;
    }
    proof {
        assert(data@.take(n as int) =~= data@);
    }
    r
}

/// The accumulator the exec locals stand for.
pub open spec fn cur_abs(
    name: String,
    is_binary: bool,
    sref: Option<SnippetRef>,
    eref: Option<EditRef>,
    data: Vec<u8>,
) -> CurV {
    CurV {
        name: name@,
        is_binary,
        snippet: match sref {
            Some(s) => Some(s@),
            None => None,
        },
        edit: match eref {
            Some(er) => Some((er@.command_href, er@.start_line)),
            None => None,
        },
        data: data@,
    }
}

/// A finished [`File`] from the accumulated pieces, as [`finalize_cur`]
/// gives it.
fn finish_file(
    name: String,
    is_binary: bool,
    sref: Option<SnippetRef>,
    eref: Option<EditRef>,
    data: Vec<u8>,
) -> (r: Result<File, DecodeError>)
    requires
        (eref matches Some(er) ==> er.edits@.len() == 0),
    ensures
        match finalize_cur(cur_abs(name, is_binary, sref, eref, data)) {
            Ok(fv) => r matches Ok(f) && f@ == fv,
            Err(e) => r matches Err(ex) && dec_err_matches(ex, e),
        },
{
    let ghost cv = cur_abs(name, is_binary, sref, eref, data);
    if is_binary {
        let filtered = filter_base64_data(&data);
        match b64_decode(filtered.as_slice()) {
            Some(decoded) => {
                let f = File {
                    name,
                    data: decoded,
                    is_binary: true,
                    binary_reason: Some(BinaryReason::Explicit),
                    snippet_ref: sref,
                    edit_ref: eref,
                };
                proof {
                    assert(f@ =~= finalize_cur(cv)->Ok_0);
                }
                Ok(f)
            },
            None => Err(DecodeError::InvalidBase64 { name }),
        }
    } else {
        let mut data = data;
        let dn = data.len();
        if dn > 0 && data[dn - 1] == 10 {
            data.pop();
        }
        let f = File {
            name,
            data,
            is_binary: false,
            binary_reason: None,
            snippet_ref: sref,
            edit_ref: eref,
        };
        proof {
            assert(f@ =~= finalize_cur(cv)->Ok_0);
        }
        Ok(f)
    }
}

/// Whether some non-edit file in the vector carries this name.
fn target_in_archive(files: &Vec<File>, name: &str) -> (b: bool)
    ensures
        b == name_in_files(files@.map_values(|f: File| f@), name@),
{
    let ghost fv = files@.map_values(|f: File| f@);
    let n = files.len();
    let mut i: usize = 0;
    while i < n
        invariant
            0 <= i <= n,
            n == files@.len(),
            fv == files@.map_values(|f: File| f@),
            forall|k: int| 0 <= k < i ==> !((#[trigger] fv[k]).name == name@ && fv[k].edit_ref is None),
        decreases n - i,
    {
        let f = &files[i];
        if f.edit_ref.is_none() && str_eq(f.name.as_str(), name) {
            proof {
                assert(fv[i as int].name == name@ && fv[i as int].edit_ref is None);
            }
            return true;
        }
        i = i + 1;
    }
    false
}

/// Whether the name is on the list.
fn name_in_list(names: &Vec<String>, name: &str) -> (b: bool)
    ensures
        b == name_in_fs(names.deep_view(), name@),
{
    let ghost nv = names.deep_view();
    let n = names.len();
    let mut i: usize = 0;
    while i < n
        invariant
            0 <= i <= n,
            n == names@.len(),
            nv == names.deep_view(),
            forall|k: int| 0 <= k < i ==> #[trigger] nv[k] != name@,
        decreases n - i,
    {
        if str_eq(names[i].as_str(), name) {
            proof {
                assert(nv[i as int] == name@);
            }
            return true;
        }
        proof {
            assert(nv[i as int] == names@[i as int]@);
        }
        i = i + 1;
    }
    false
}

/// Ghost view of a [`Decoder`]: its verbosity and the filesystem names it
/// was handed.
pub struct DecoderV {
    pub verbose: u8,
    pub fs: Seq<Seq<char>>,
}

/// Decodes an archive stream.
pub struct Decoder {
    /// Verbosity level for diagnostics; kept for API compatibility, the
    /// library itself prints nothing.
    verbose: u8,
    /// Names the caller vouches exist on its filesystem; consulted when an
    /// edit target is not in the archive.
    fs_names: Vec<String>,
}

impl View for Decoder {
    type V = DecoderV;

    closed spec fn view(&self) -> DecoderV {
        DecoderV { verbose: self.verbose, fs: self.fs_names.deep_view() }
    }
}

impl Decoder {
    /// Builds a decoder that knows no filesystem names.
    pub fn new() -> (d: Decoder)
        ensures
            d@.fs.len() == 0,
            d@.verbose == 0,
    {
        let d = Decoder { verbose: 0, fs_names: Vec::new() };
        proof {
            assert(d@.fs =~= Seq::<Seq<char>>::empty());
        }
        d
    }

    /// Sets the verbosity level.
    pub fn with_verbose(self, level: u8) -> (d: Decoder)
        ensures
            d@.fs == self@.fs,
            d@.verbose == level,
    {
        Decoder { verbose: level, ..self }
    }

    /// Hands the decoder the file names that exist on the caller's
    /// filesystem, for edit-target validation.
    pub fn with_fs_names(self, names: Vec<String>) -> (d: Decoder)
        ensures
            d@.fs == names.deep_view(),
            d@.verbose == self@.verbose,
    {
        Decoder { fs_names: names, ..self }
    }

    /// Decodes an archive from its wire text.
    #[verifier::rlimit(100)]
    pub fn decode(&self, input: &str) -> (r: Result<Archive, DecodeError>)
        ensures
            decode_matches(input@, self@.fs, r),
    {
        let ghost fsv = self.fs_names.deep_view();
        let ghost lv = spec_lines(input@);
        let lines = split_lines(input);
        let n = lines.len();

        let mut archive = Archive::new();
        let mut comment = String::new();
        let mut has_cur: bool = false;
        let mut cur_name: String = String::new();
        let mut cur_bin: bool = false;
        let mut cur_sref: Option<SnippetRef> = None;
        let mut cur_eref: Option<EditRef> = None;
        let mut cur_data: Vec<u8> = Vec::new();

        proof {
            assert(archive@.files =~= Seq::<FileV>::empty());
            assert(dec_abs(comment, archive.files, has_cur, cur_name, cur_bin, cur_sref, cur_eref, cur_data) =~= dec_init());
        }
        let mut i: usize = 0;
        while i < n
            invariant
                0 <= i <= n,
                n == lines@.len(),
                lv == spec_lines(input@),
                lines.deep_view() == lv,
                fsv == self.fs_names.deep_view(),
                has_cur ==> (cur_eref matches Some(er) ==> er.edits@.len() == 0),
                dec_run(lv, 0, dec_init()) == dec_run(
                    lv,
                    i as nat,
                    dec_abs(comment, archive.files, has_cur, cur_name, cur_bin, cur_sref, cur_eref, cur_data),
                ),
            decreases n - i,
        {
            let ghost st = dec_abs(comment, archive.files, has_cur, cur_name, cur_bin, cur_sref, cur_eref, cur_data);
            let line = lines[i].as_str();
            proof {
                assert(lines.deep_view()[i as int] == lines@[i as int]@);
            }
            match marker_name_part(line) {
                Some(name_part) => {
                    let (name, is_binary, sref, eref) = parse_name_and_tags(name_part);
                    if has_cur {
                        let finished = match finish_file(cur_name, cur_bin, cur_sref, cur_eref, cur_data) {
                            Ok(f) => f,
                            Err(ex) => {
                                proof {
                                    assert(dec_step(st, lv[i as int]) is Err);
                                }
                                return Err(ex);
                            },
                        };
                        match archive.add_file(finished) {
                            Ok(()) => {},
                            Err(ex) => {
                                proof {
                                    assert(dec_step(st, lv[i as int]) is Err);
                                }
                                return Err(ex);
                            },
                        }
                    }
                    cur_name = name;
                    cur_bin = is_binary;
                    cur_sref = sref;
                    cur_eref = eref;
                    cur_data = Vec::new();
                    has_cur = true;
                    proof {
                        assert(cur_data@ =~= Seq::<u8>::empty());
                        assert(dec_abs(comment, archive.files, has_cur, cur_name, cur_bin, cur_sref, cur_eref, cur_data)
                            =~= dec_step(st, lv[i as int])->Ok_0);
                    }
                },
                None => {
                    if has_cur {
                        if cur_bin && trim_str(line).is_empty() {
                        } else {
                            let ghost pre = cur_data@;
                            extend_bytes(&mut cur_data, line.as_bytes());
                            cur_data.push(10);
                            proof {
                                assert(cur_data@ =~= pre + encode_utf8(lv[i as int]) + seq![10u8]);
                                assert(dec_abs(comment, archive.files, has_cur, cur_name, cur_bin, cur_sref, cur_eref, cur_data)
                                    =~= dec_step(st, lv[i as int])->Ok_0);
                            }
                        }
                    } else {
                        let ghost prec = comment@;
                        let cn = comment.as_str().unicode_len();
                        if trim_str(line).is_empty() && cn == 0 {
                        } else if cn == 0 {
                            comment = line.to_owned();
                        } else {
                            comment.append("\n");
                            comment.append(line);
                            proof {
                                reveal_strlit("\n");
                                assert(comment@ =~= prec + seq!['\n'] + lv[i as int]);
                            }
                        }
                        proof {
                            assert(dec_abs(comment, archive.files, has_cur, cur_name, cur_bin, cur_sref, cur_eref, cur_data)
                                =~= dec_step(st, lv[i as int])->Ok_0);
                        }
                    }
                },
            }
            i = i + 1;
        }
        // close the dangling last file
        let ghost st_end = dec_abs(comment, archive.files, has_cur, cur_name, cur_bin, cur_sref, cur_eref, cur_data);
        if has_cur {
            let finished = match finish_file(cur_name, cur_bin, cur_sref, cur_eref, cur_data) {
                Ok(f) => f,
                Err(ex) => {
                    return Err(ex);
                },
            };
            match archive.add_file(finished) {
                Ok(()) => {},
                Err(ex) => {
                    return Err(ex);
                },
            }
        }
        proof {
            assert(archive@.files =~= dec_close(st_end)->Ok_0.files);
        }
        archive.comment = comment;
        archive.parse_commands();
        let ghost stf = dec_close(st_end)->Ok_0;
        let ghost cmv = archive@.comment;
        let ghost filesv = archive@.files;
        proof {
            assert(spec_decode(input@, fsv) == spec_decode_tail(filesv, fsv, cmv));
        }

        // every edit file's target must exist in the archive or on the
        // caller's filesystem
        let nf = archive.files.len();
        let mut j: usize = 0;
        while j < nf
            invariant
                0 <= j <= nf,
                nf == archive.files@.len(),
                filesv == archive@.files,
                cmv == archive@.comment,
                fsv == self.fs_names.deep_view(),
                spec_decode(input@, fsv) == spec_decode_tail(filesv, fsv, cmv),
                forall|k: int|
                    0 <= k < j ==> !((#[trigger] filesv[k]).edit_ref is Some && !target_exists(
                        filesv,
                        fsv,
                        filesv[k].name,
                    )),
            decreases nf - j,
        {
            let f_has_edit = archive.files[j].edit_ref.is_some();
            if f_has_edit {
                let in_archive = target_in_archive(&archive.files, archive.files[j].name.as_str());
                let on_fs = name_in_list(&self.fs_names, archive.files[j].name.as_str());
                if !in_archive && !on_fs {
                    proof {
                        assert(filesv[j as int].edit_ref is Some && !target_exists(
                            filesv,
                            fsv,
                            filesv[j as int].name,
                        ));
                        lemma_first_missing_target(filesv, fsv, 0);
                        match first_missing_target(filesv, fsv, 0) {
                            Some(m) => {
                                if m < j {
                                    assert(!(filesv[m as int].edit_ref is Some && !target_exists(
                                        filesv,
                                        fsv,
                                        filesv[m as int].name,
                                    )));
                                }
                                if j < m {
                                    assert(!(filesv[j as int].edit_ref is Some && !target_exists(
                                        filesv,
                                        fsv,
                                        filesv[j as int].name,
                                    )));
                                }
                            },
                            None => {
                                assert(!(filesv[j as int].edit_ref is Some && !target_exists(
                                    filesv,
                                    fsv,
                                    filesv[j as int].name,
                                )));
                            },
                        }
                    }
                    return Err(
                        DecodeError::EditTargetNotFound { name: archive.files[j].name.clone() },
                    );
                }
            }
            j = j + 1;
        }
        proof {
            lemma_first_missing_target(filesv, fsv, 0);
            match first_missing_target(filesv, fsv, 0) {
                Some(m) => {
                    assert(!(filesv[m as int].edit_ref is Some && !target_exists(
                        filesv,
                        fsv,
                        filesv[m as int].name,
                    )));
                },
                None => {},
            }
        }

        // parse the edit program of each edit file
        let ghost origv = archive@.files;
        let ghost cmds = archive@.commands;
        let mut files_vec: Vec<File> = Vec::new();
        core::mem::swap(&mut files_vec, &mut archive.files);
        let mut rev: Vec<File> = Vec::new();
        while files_vec.len() > 0
            invariant
                rev@.len() + files_vec@.len() == origv.len(),
                files_vec@.map_values(|f: File| f@) == origv.take(files_vec@.len() as int),
                cmv == archive@.comment,
                cmds == archive@.commands,
                forall|k: int|
                    0 <= k < rev@.len() ==> (#[trigger] rev@[k])@ == origv[origv.len() - 1 - k],
            decreases files_vec.len(),
        {
            let ghost fvv = files_vec@.map_values(|f: File| f@);
            let ghost m = files_vec@.len() as int;
            match files_vec.pop() {
                Some(f) => {
                    proof {
                        assert(f@ == fvv[m - 1]);
                        assert(fvv[m - 1] == origv[m - 1]);
                        assert(files_vec@.map_values(|f: File| f@) =~= origv.take(m - 1));
                    }
                    rev.push(f);
                },
                None => {
                    proof {
                        assert(false);
                    }
                },
            }
        }
        let mut out: Vec<File> = Vec::new();
        proof {
            assert(out@.map_values(|f: File| f@) + origv.skip(0) =~= origv);
            assert(spec_decode(input@, fsv) == (match parse_all_edits(
                out@.map_values(|f: File| f@) + origv.skip(out@.len() as int),
                out@.len() as nat,
            ) {
                Ok(fs2) => Ok(
                    ArchiveV { comment: cmv, commands: spec_scan_commands(cmv), files: fs2 },
                ),
                Err(e) => Err::<ArchiveV, DecErrV>(e),
            }));
        }
        while rev.len() > 0
            invariant
                out@.len() + rev@.len() == origv.len(),
                fsv == self.fs_names.deep_view(),
                cmv == archive@.comment,
                cmds == archive@.commands,
                cmds == spec_scan_commands(cmv),
                forall|k: int|
                    0 <= k < rev@.len() ==> (#[trigger] rev@[k])@ == origv[origv.len() - 1 - k],
                spec_decode(input@, fsv) == (match parse_all_edits(
                    out@.map_values(|f: File| f@) + origv.skip(out@.len() as int),
                    out@.len() as nat,
                ) {
                    Ok(fs2) => Ok(
                        ArchiveV { comment: cmv, commands: spec_scan_commands(cmv), files: fs2 },
                    ),
                    Err(e) => Err::<ArchiveV, DecErrV>(e),
                }),
            decreases rev.len(),
        {
            let ghost outv = out@.map_values(|f: File| f@);
            let ghost cur_fs = outv + origv.skip(out@.len() as int);
            let ghost idx = out@.len() as int;
            let f = match rev.pop() {
                Some(f) => f,
                None => {
                    proof {
                        assert(false);
                    }
                    vstd::pervasive::unreached()
                },
            };
            proof {
                assert(f@ == origv[idx]);
                assert(cur_fs[idx] == origv[idx]);
            }
            let File { name, data, is_binary, binary_reason, snippet_ref, edit_ref } = f;
            match edit_ref {
                None => {
                    let f2 = File {
                        name,
                        data,
                        is_binary,
                        binary_reason,
                        snippet_ref,
                        edit_ref: None,
                    };
                    proof {
                        assert(f2@ =~= parse_file_edits(cur_fs[idx])->Ok_0);
                    }
                    out.push(f2);
                    proof {
                        lemma_parse_step(cur_fs, idx, f2@, outv);
                        assert(out@.map_values(|f: File| f@) =~= outv.push(f2@));
                        assert(out@.map_values(|f: File| f@) + origv.skip(out@.len() as int)
                            =~= cur_fs.update(idx, f2@));
                    }
                },
                Some(er) => {
                    let text = match bytes_to_str(data.as_slice()) {
                        Some(t) => t,
                        None => {
                            proof {
                                assert(parse_all_edits(cur_fs, idx as nat) == Err::<
                                    Seq<FileV>,
                                    DecErrV,
                                >(DecErrV::EditNotUtf8 { name: name@ }));
                            }
                            return Err(DecodeError::EditNotUtf8 { name });
                        },
                    };
                    match EditRef::parse_content(text) {
                        Err(pe) => {
                            proof {
                                assert(parse_all_edits(cur_fs, idx as nat) is Err);
                            }
                            return Err(DecodeError::EditParse { name, error: pe });
                        },
                        Ok(blocks) => {
                            let f2 = File {
                                name,
                                data,
                                is_binary,
                                binary_reason,
                                snippet_ref,
                                edit_ref: Some(
                                    EditRef {
                                        command_href: er.command_href,
                                        start_line: er.start_line,
                                        edits: blocks,
                                    },
                                ),
                            };
                            proof {
                                assert(f2@ =~= parse_file_edits(cur_fs[idx])->Ok_0);
                            }
                            out.push(f2);
                            proof {
                                lemma_parse_step(cur_fs, idx, f2@, outv);
                                assert(out@.map_values(|f: File| f@) =~= outv.push(f2@));
                                assert(out@.map_values(|f: File| f@) + origv.skip(
                                    out@.len() as int,
                                ) =~= cur_fs.update(idx, f2@));
                            }
                        },
                    }
                },
            }
        }
        archive.files = out;
        proof {
            assert(out@.map_values(|f: File| f@) + origv.skip(out@.len() as int)
                =~= out@.map_values(|f: File| f@));
            assert(archive@ =~= (match spec_decode(input@, fsv) {
                Ok(av) => av,
                Err(_) => archive@,
            }));
        }
        Ok(archive)
    }
}

/// One step of the edit-parsing fold: replacing file `idx` keeps the
/// prefix and suffix, so the fold advances.
proof fn lemma_parse_step(cur_fs: Seq<FileV>, idx: int, f2: FileV, outv: Seq<FileV>)
    requires
        0 <= idx < cur_fs.len(),
        parse_file_edits(cur_fs[idx]) == Ok::<FileV, DecErrV>(f2),
    ensures
        parse_all_edits(cur_fs, idx as nat) == parse_all_edits(
            cur_fs.update(idx, f2),
            (idx + 1) as nat,
        ),
{
}

/// The tokenizer state the exec locals stand for.
pub open spec fn dec_abs(
    comment: String,
    files: Vec<File>,
    has_cur: bool,
    cur_name: String,
    cur_bin: bool,
    cur_sref: Option<SnippetRef>,
    cur_eref: Option<EditRef>,
    cur_data: Vec<u8>,
) -> DecV {
    DecV {
        comment: comment@,
        files: files@.map_values(|f: File| f@),
        cur: if has_cur {
            Some(cur_abs(cur_name, cur_bin, cur_sref, cur_eref, cur_data))
        } else {
            None
        },
    }
}

/// A default decoder, same as a new one.
impl Default for Decoder {
    fn default() -> (d: Decoder)
        ensures
            d@.fs.len() == 0,
            d@.verbose == 0,
    {
        Decoder::new()
    }
}

} // verus!
