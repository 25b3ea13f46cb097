//! The archive encoder: serializes the in-memory model to the wire format,
//! one marker line and one body per file.

use vstd::prelude::*;
use vstd::utf8::{valid_utf8, decode_utf8};
use crate::model::{Archive, ArchiveV, EncodeError, File, FileV};
use crate::tags::spec_archive_name;
use crate::trusted::{b64_encode, base64_of, bytes_to_str};

verus! {

/// A file the encoder must refuse: not marked binary, yet its bytes are
/// not valid UTF-8.
pub open spec fn unencodable(f: FileV) -> bool {
    !f.is_binary && !valid_utf8(f.data)
}

/// Index of the first file the encoder refuses, from `idx` on.
pub open spec fn first_unencodable_from(files: Seq<FileV>, idx: nat) -> Option<nat>
    decreases files.len() - idx,
{
    if idx >= files.len() {
        None
    } else if unencodable(files[idx as int]) {
        Some(idx)
    } else {
        first_unencodable_from(files, (idx + 1) as nat)
    }
}

/// The wire text of one file: its marker line, then its body — base64 for
/// binary files, the text itself otherwise — with one line break added
/// when the body does not end in one.
pub open spec fn file_chunk(f: FileV) -> Seq<char> {
    file_header(f) + file_body(f)
}

/// The marker line of a file, line break included.
pub open spec fn file_header(f: FileV) -> Seq<char> {
    "-- "@ + spec_archive_name(f.name, f.is_binary) + " --\n"@
}

/// The body of a file on the wire.
pub open spec fn file_body(f: FileV) -> Seq<char> {
    let content = if f.is_binary {
        base64_of(f.data)
    } else {
        decode_utf8(f.data)
    };
    if content.len() > 0 && content.last() == '\n' {
        content
    } else {
        content + seq!['\n']
    }
}

/// The comment as the encoder emits it: verbatim, with one line break
/// added when it is nonempty and does not end in one.
pub open spec fn spec_comment_part(c: Seq<char>) -> Seq<char> {
    if c.len() == 0 {
        c
    } else if c.last() == '\n' {
        c
    } else {
        c + seq!['\n']
    }
}

/// The wire text of the files taken so far.
pub open spec fn file_chunks(files: Seq<FileV>) -> Seq<char>
    decreases files.len(),
{
    if files.len() == 0 {
        Seq::empty()
    } else {
        file_chunks(files.drop_last()) + file_chunk(files.last())
    }
}

/// What encoding an archive yields: the comment part followed by each
/// file's chunk, or the name of the first file whose bytes are not valid
/// UTF-8 though it is not marked binary.
pub open spec fn spec_encode(a: ArchiveV) -> Result<Seq<char>, Seq<char>> {
    match first_unencodable_from(a.files, 0) {
        Some(i) => Err(a.files[i as int].name),
        None => Ok(spec_comment_part(a.comment) + file_chunks(a.files)),
    }
}

pub proof fn lemma_first_unencodable_from(files: Seq<FileV>, idx: nat)
    ensures
        first_unencodable_from(files, idx) matches Some(i) ==> idx <= i < files.len()
            && unencodable(files[i as int]) && (forall|k: int|
            idx <= k < i ==> !unencodable(files[k])),
        first_unencodable_from(files, idx) is None ==> forall|k: int|
            idx <= k < files.len() ==> !unencodable(#[trigger] files[k]),
    decreases files.len() - idx,
{
    if idx < files.len() && !unencodable(files[idx as int]) {
        lemma_first_unencodable_from(files, (idx + 1) as nat);
    }
}

/// Encodes an archive into the wire format.
pub struct Encoder {}

impl Encoder {
    /// Builds an encoder.
    pub fn new() -> (e: Encoder) {
        Encoder {  }
    }

    /// Serializes the archive: the comment, then each file in order.
    pub fn encode(&self, archive: &Archive) -> (r: Result<String, EncodeError>)
        ensures
            match spec_encode(archive@) {
                Ok(out) => r matches Ok(s) && s@ == out,
                Err(name) => r matches Err(EncodeError::NotUtf8 { name: n }) && n@ == name,
            },
    {
        let ghost av = archive@;
        let mut output = String::new();
        let cn = archive.comment.as_str().unicode_len();
        if cn > 0 {
            output.append(archive.comment.as_str());
            if !(archive.comment.as_str().get_char(cn - 1) == '\n') {
                output.append("\n");
                proof {
                    reveal_strlit("\n");
                    assert(output@ =~= spec_comment_part(av.comment));
                }
            }
        }
        proof {
            assert(output@ =~= spec_comment_part(av.comment));
            assert(file_chunks(av.files.take(0)) =~= Seq::<char>::empty());
            assert(output@ =~= spec_comment_part(av.comment) + file_chunks(av.files.take(0)));
        }
        let n = archive.files.len();
        let mut i: usize = 0;
        while i < n
            invariant
                0 <= i <= n,
                n == archive.files@.len(),
                av == archive@,
                forall|k: int| 0 <= k < i ==> !unencodable(#[trigger] av.files[k]),
                output@ == spec_comment_part(av.comment) + file_chunks(av.files.take(i as int)),
            decreases n - i,
        {
            let ghost pre = output@;
            match self.encode_file(&mut output, &archive.files[i]) {
                Ok(()) => {},
                Err(e) => {
                    proof {
                        assert(unencodable(av.files[i as int]));
                        lemma_first_unencodable_from(av.files, 0);
                        match first_unencodable_from(av.files, 0) {
                            Some(j) => {
                                if j < i {
                                    assert(!unencodable(av.files[j as int]));
                                }
                                if i < j {
                                    assert(!unencodable(av.files[i as int]));
                                }
                            },
                            None => {
                                assert(!unencodable(av.files[i as int]));
                            },
                        }
                    }
                    return Err(e);
                },
            }
            proof {
                assert(av.files.take(i + 1).drop_last() =~= av.files.take(i as int));
                assert(av.files.take(i + 1).last() == av.files[i as int]);
                assert(output@ =~= spec_comment_part(av.comment) + file_chunks(
                    av.files.take(i + 1),
                ));
            }
            i = i + 1;
        }
        proof {
            assert(av.files.take(n as int) =~= av.files);
            lemma_first_unencodable_from(av.files, 0);
            match first_unencodable_from(av.files, 0) {
                Some(j) => {
                    assert(!unencodable(av.files[j as int]));
                },
                None => {},
            }
        }
        Ok(output)
    }

    /// Serializes one file onto the output: marker line, then the body.
    /// On a file not marked binary whose bytes are not valid UTF-8 the
    /// marker line alone is emitted and the error returned.
    fn encode_file(&self, output: &mut String, file: &File) -> (r: Result<(), EncodeError>)
        ensures
            unencodable(file@) ==> (r matches Err(EncodeError::NotUtf8 { name }) && name@
                == file@.name && final(output)@ == old(output)@ + file_header(file@)),
            !unencodable(file@) ==> r is Ok && final(output)@ == old(output)@ + file_chunk(
                file@,
            ),
    {
        let ghost pre = output@;
        output.append("-- ");
        let an = file.archive_name();
        output.append(an.as_str());
        output.append(" --\n");
        proof {
            assert(output@ =~= pre + file_header(file@));
        }
        let content: String = if file.is_binary {
            b64_encode(file.data.as_slice())
        } else {
            match bytes_to_str(file.data.as_slice()) {
                Some(t) => t.to_owned(),
                None => {
                    return Err(EncodeError::NotUtf8 { name: file.name.clone() });
                },
            }
        };
        let ghost pre2 = output@;
        output.append(content.as_str());
        let m = content.as_str().unicode_len();
        if !(m > 0 && content.as_str().get_char(m - 1) == '\n') {
            output.append("\n");
            proof {
                reveal_strlit("\n");
                assert(output@ =~= pre2 + file_body(file@));
            }
        }
        proof {
            assert(output@ =~= pre + file_chunk(file@));
        }
        Ok(())
    }
}

/// A default encoder, same as a new one.
impl Default for Encoder {
    fn default() -> (e: Encoder) {
        Encoder::new()
    }
}

} // verus!
