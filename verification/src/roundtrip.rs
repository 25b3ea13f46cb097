//! The round-trip law: decoding an encoded archive of plain text and
//! explicit-binary files reproduces its file set — names, binary flags,
//! binary bytes exactly, text bytes up to one trailing line break.

use vstd::prelude::*;
use vstd::utf8::{valid_utf8, decode_utf8, encode_utf8};
use crate::model::{ArchiveV, BinaryReason, FileV};
use crate::decoder::{
    cur_of_tags, dec_close, dec_init, dec_run, dec_step, filter_b64, finalize_cur, spec_decode,
    spec_decode_tail, CurV, DecErrV, DecV,
};
use crate::archive::duplicates_normal_name;
use crate::encoder::{file_body, file_chunk, file_chunks, file_header};
use crate::encoder::spec_comment_part;
use crate::trusted::{base64_decoded, base64_of, is_base64_char};
use crate::strutil::{spec_trim_end, spec_trim_start};
use crate::tags::{apply_tag, empty_tags, scan_tags, spec_archive_name, spec_name_and_tags, NameTagsV, TagsV};
use vstd::utf8::{encode_scalar, has_width_1_encoding, last_continuation_byte, leading_byte_width_1};
use crate::strutil::{
    first_nl, first_occ, is_marker_line, is_ws_char, lemma_first_occ, lemma_first_occ_unique,
    marker_inner, spec_lines, spec_trim, strip_cr, ws_prefix_len, ws_suffix_len,
    lemma_ws_prefix_len_unique, lemma_ws_suffix_len_unique,
};

verus! {

/// Splitting into lines distributes over concatenation when the first
/// part is empty or ends in a line break.
pub proof fn lemma_lines_append(s1: Seq<char>, s2: Seq<char>)
    requires
        s1.len() == 0 || s1.last() == '\n',
    ensures
        spec_lines(s1 + s2) == spec_lines(s1) + spec_lines(s2),
    decreases s1.len(),
{
    if s1.len() == 0 {
        assert(s1 + s2 =~= s2);
        assert(spec_lines(s1) + spec_lines(s2) =~= spec_lines(s2));
    } else {
        let s = s1 + s2;
        lemma_first_occ(s1, '\n');
        let i = first_nl(s1) as int;
        assert(i < s1.len()) by {
            if i >= s1.len() {
                assert(s1[s1.len() - 1] != '\n');
            }
        }
        assert forall|k: int| 0 <= k < i implies s[k] != '\n' by {
            assert(s[k] == s1[k]);
        }
        assert(s[i] == s1[i]);
        lemma_first_occ_unique(s, '\n', i);
        assert(s.take(i) =~= s1.take(i));
        assert(s.skip(i + 1) =~= s1.skip(i + 1) + s2);
        if i + 1 < s1.len() {
            assert(s1.skip(i + 1).last() == s1.last());
        }
        lemma_lines_append(s1.skip(i + 1), s2);
        if s1.skip(i + 1).len() == 0 {
            assert(spec_lines(s1) =~= seq![strip_cr(s1.take(i))] + spec_lines(s1.skip(i + 1)));
        }
        assert(spec_lines(s) =~= spec_lines(s1) + spec_lines(s2));
    }
}

/// Running the tokenizer over concatenated line sequences runs it over
/// the first, then over the second from where the first left off.
pub proof fn lemma_dec_run_append(l1: Seq<Seq<char>>, l2: Seq<Seq<char>>, st: DecV)
    ensures
        dec_run(l1 + l2, 0, st) == (match dec_run(l1, 0, st) {
            Ok(st2) => dec_run(l2, 0, st2),
            Err(e) => Err(e),
        }),
    decreases l1.len(),
{
    lemma_dec_run_append_from(l1, l2, 0, st);
}

proof fn lemma_dec_run_append_from(l1: Seq<Seq<char>>, l2: Seq<Seq<char>>, idx: nat, st: DecV)
    requires
        idx <= l1.len(),
    ensures
        dec_run(l1 + l2, idx, st) == (match dec_run(l1, idx, st) {
            Ok(st2) => dec_run(l2, 0, st2),
            Err(e) => Err(e),
        }),
    decreases l1.len() + l2.len() - idx,
{
    let l = l1 + l2;
    if idx >= l1.len() {
        assert(dec_run(l1, idx, st) == Ok::<DecV, DecErrV>(st));
        lemma_dec_run_shift(l1, l2, idx, st);
    } else {
        assert(l[idx as int] == l1[idx as int]);
        match dec_step(st, l1[idx as int]) {
            Ok(st2) => {
                lemma_dec_run_append_from(l1, l2, (idx + 1) as nat, st2);
            },
            Err(_) => {},
        }
    }
}

/// Running from index `l1.len() + k` of the concatenation is running from
/// index `k` of the second part.
proof fn lemma_dec_run_shift(l1: Seq<Seq<char>>, l2: Seq<Seq<char>>, idx: nat, st: DecV)
    requires
        l1.len() <= idx <= l1.len() + l2.len(),
    ensures
        dec_run(l1 + l2, idx, st) == dec_run(l2, (idx - l1.len()) as nat, st),
    decreases l1.len() + l2.len() - idx,
{
    let l = l1 + l2;
    if idx < l.len() {
        assert(l[idx as int] == l2[idx - l1.len()]);
        match dec_step(st, l[idx as int]) {
            Ok(st2) => {
                lemma_dec_run_shift(l1, l2, (idx + 1) as nat, st2);
            },
            Err(_) => {},
        }
    }
}

/// UTF-8 encoding distributes over concatenation.
pub proof fn lemma_encode_utf8_concat(a: Seq<char>, b: Seq<char>)
    ensures
        encode_utf8(a + b) == encode_utf8(a) + encode_utf8(b),
    decreases a.len(),
{
    if a.len() == 0 {
        assert(a + b =~= b);
        assert(encode_utf8(a) + encode_utf8(b) =~= encode_utf8(b));
    } else {
        assert((a + b)[0] == a[0]);
        assert((a + b).drop_first() =~= a.drop_first() + b);
        lemma_encode_utf8_concat(a.drop_first(), b);
        assert(encode_utf8(a + b) =~= encode_utf8(a) + encode_utf8(b));
    }
}

/// A name fit for a round trip: nonempty, holding no bracket and no line
/// break, with no whitespace at either end.
pub open spec fn rt_name_ok(name: Seq<char>) -> bool {
    &&& name.len() > 0
    &&& !is_ws_char(name[0])
    &&& !is_ws_char(name.last())
    &&& forall|k: int| 0 <= k < name.len() ==> name[k] != '\n' && name[k] != '['
}

/// Text content fit for a round trip: no line of it reads as a file
/// marker, and no carriage return stands right before a line break or at
/// the end, where line splitting would drop it.
pub open spec fn rt_text_ok(c: Seq<char>) -> bool {
    &&& forall|k: int|
        0 <= k < spec_lines(c).len() ==> !is_marker_line(#[trigger] spec_lines(c)[k])
    &&& forall|i: int| 0 < i < c.len() ==> !(#[trigger] c[i] == '\n' && c[i - 1] == '\r')
    &&& c.len() > 0 ==> c.last() != '\r'
}

/// A file fit for a round trip: a plain file (no snippet or edit tag),
/// either explicit binary or well-formed text.
pub open spec fn rt_file_ok(f: FileV) -> bool {
    &&& f.snippet_ref is None
    &&& f.edit_ref is None
    &&& rt_name_ok(f.name)
    &&& f.is_binary ==> f.binary_reason == Some(BinaryReason::Explicit)
    &&& !f.is_binary ==> f.binary_reason is None && valid_utf8(f.data) && rt_text_ok(
        decode_utf8(f.data),
    )
}

/// What the base64 binding ensures of every encoding it hands back:
/// decoding inverts it, it emits only the standard alphabet, and it is
/// empty exactly for no bytes. These facts hold at every call of the
/// binding; the round-trip law takes them as hypotheses on the encodings
/// it speaks about.
pub open spec fn base64_facts(d: Seq<u8>) -> bool {
    &&& base64_decoded(encode_utf8(base64_of(d))) == Some(d)
    &&& forall|k: int| 0 <= k < base64_of(d).len() ==> is_base64_char(#[trigger] base64_of(d)[k])
    &&& (base64_of(d).len() == 0 <==> d.len() == 0)
}

/// An archive fit for a round trip: every file fit, names pairwise
/// distinct, and no line of the emitted comment reads as a file marker.
pub open spec fn rt_archive_ok(a: ArchiveV) -> bool {
    &&& forall|i: int| 0 <= i < a.files.len() ==> rt_file_ok(#[trigger] a.files[i])
    &&& forall|i: int, j: int|
        0 <= i < j < a.files.len() ==> a.files[i].name != a.files[j].name
    &&& forall|k: int|
        0 <= k < spec_lines(spec_comment_part(a.comment)).len() ==> !is_marker_line(
            #[trigger] spec_lines(spec_comment_part(a.comment))[k],
        )
}

/// Text data after one round trip: one trailing line break removed.
pub open spec fn norm_text(d: Seq<u8>) -> Seq<u8> {
    if d.len() > 0 && d.last() == 10 {
        d.drop_last()
    } else {
        d
    }
}

/// The file the decoder reproduces for an encoded file: the same name and
/// binary flag, binary bytes exact, text bytes normalized, the explicit
/// reason on binary files.
pub open spec fn rt_decoded(f: FileV) -> FileV {
    FileV {
        name: f.name,
        data: if f.is_binary {
            f.data
        } else {
            norm_text(f.data)
        },
        is_binary: f.is_binary,
        binary_reason: if f.is_binary {
            Some(BinaryReason::Explicit)
        } else {
            None
        },
        snippet_ref: None,
        edit_ref: None,
    }
}

/// A character of the base64 alphabet is not whitespace, not a dash, and
/// not a bracket.
pub proof fn lemma_base64_char(c: char)
    requires
        is_base64_char(c),
    ensures
        !is_ws_char(c),
        c != '-',
        c != '\n',
        c != '\r',
        (c as u32) < 128,
{
}

/// A sequence with no line break or carriage return bytes passes the
/// base64 body filter unchanged.
pub proof fn lemma_filter_all_pass(s: Seq<u8>)
    requires
        forall|k: int| 0 <= k < s.len() ==> s[k] != 10 && s[k] != 13,
    ensures
        filter_b64(s) == s,
    decreases s.len(),
{
    reveal(Seq::filter);
    if s.len() > 0 {
        lemma_filter_all_pass(s.drop_last());
        assert(filter_b64(s) =~= s);
    } else {
        assert(filter_b64(s) =~= s);
    }
}

/// A trailing line break byte is dropped by the base64 body filter.
pub proof fn lemma_filter_drop_nl(s: Seq<u8>)
    ensures
        filter_b64(s.push(10)) == filter_b64(s),
{
    reveal(Seq::filter);
    assert(s.push(10).drop_last() =~= s);
}

/// A sequence whose characters are neither whitespace at the ends nor
/// all-whitespace trims to itself.
pub proof fn lemma_trim_id(s: Seq<char>)
    requires
        s.len() > 0,
        !is_ws_char(s[0]),
        !is_ws_char(s.last()),
    ensures
        spec_trim(s) == s,
        spec_trim_end(s) == s,
{
    lemma_ws_prefix_len_unique(s, 0);
    lemma_ws_suffix_len_unique(s, 0);
    assert(spec_trim_start(s) =~= s);
    assert(spec_trim_end(s) =~= s);
    lemma_ws_suffix_len_unique(spec_trim_start(s), 0);
    assert(spec_trim(s) =~= s);
}

/// A single line closed by one line break splits into that line alone.
pub proof fn lemma_lines_single(l: Seq<char>)
    requires
        forall|k: int| 0 <= k < l.len() ==> l[k] != '\n',
        l.len() > 0 ==> l.last() != '\r',
    ensures
        spec_lines(l + seq!['\n']) == seq![l],
{
    let s = l + seq!['\n'];
    assert forall|k: int| 0 <= k < l.len() implies s[k] != '\n' by {
        assert(s[k] == l[k]);
    }
    assert(s[l.len() as int] == '\n');
    lemma_first_occ_unique(s, '\n', l.len() as int);
    assert(s.take(l.len() as int) =~= l);
    assert(s.skip(l.len() as int + 1) =~= Seq::<char>::empty());
    assert(spec_lines(Seq::<char>::empty()) =~= Seq::<Seq<char>>::empty());
    assert(strip_cr(l) == l);
    assert(spec_lines(s) =~= seq![strip_cr(s.take(l.len() as int))] + spec_lines(
        s.skip(l.len() as int + 1),
    ));
    assert(spec_lines(s) =~= seq![l]);
}

/// Appending a final line break to text that ends in neither a line break
/// nor a carriage return does not change its lines.
pub proof fn lemma_lines_close(c: Seq<char>)
    requires
        c.len() > 0,
        c.last() != '\n',
        c.last() != '\r',
        forall|i: int| 0 < i < c.len() ==> !(#[trigger] c[i] == '\n' && c[i - 1] == '\r'),
    ensures
        spec_lines(c + seq!['\n']) == spec_lines(c),
    decreases c.len(),
{
    let s = c + seq!['\n'];
    lemma_first_occ(c, '\n');
    let i = first_nl(c) as int;
    if i >= c.len() {
        lemma_lines_single(c);
        assert(spec_lines(c) =~= seq![c]);
    } else {
        assert(i < c.len() - 1) by {
            assert(c[i] == '\n');
        }
        assert forall|k: int| 0 <= k < i implies s[k] != '\n' by {
            assert(s[k] == c[k]);
        }
        assert(s[i] == c[i]);
        lemma_first_occ_unique(s, '\n', i);
        assert(s.take(i) =~= c.take(i));
        assert(s.skip(i + 1) =~= c.skip(i + 1) + seq!['\n']);
        let rest = c.skip(i + 1);
        assert(rest.last() == c.last());
        assert forall|j: int| 0 < j < rest.len() implies !(#[trigger] rest[j] == '\n' && rest[j
            - 1] == '\r') by {
            assert(rest[j] == c[i + 1 + j]);
            assert(rest[j - 1] == c[i + j]);
        }
        lemma_lines_close(rest);
        assert(spec_lines(s) =~= spec_lines(c));
    }
}

/// The marker line the encoder emits for a well-formed name reads back as
/// a marker, and its name-and-tags region parses back to the name and the
/// binary flag alone.
pub proof fn lemma_header_marker(name: Seq<char>, is_binary: bool)
    requires
        rt_name_ok(name),
    ensures
        ({
            let line = "-- "@ + spec_archive_name(name, is_binary) + " --"@;
            &&& is_marker_line(line)
            &&& marker_inner(line) == spec_archive_name(name, is_binary)
            &&& spec_name_and_tags(marker_inner(line)) == (NameTagsV {
                base: name,
                tags: TagsV { is_binary, snippet: None, edit: None },
            })
            &&& forall|k: int| 0 <= k < line.len() ==> line[k] != '\n'
            &&& line.len() > 0 && line.last() != '\r'
        }),
{
    reveal_strlit("-- ");
    reveal_strlit(" --");
    reveal_strlit("[.base64]");
    let eff = spec_archive_name(name, is_binary);
    let line = "-- "@ + eff + " --"@;
    assert(eff.len() > 0);
    assert(eff[0] == name[0]);
    assert(!is_ws_char(eff[0]));
    assert(!is_ws_char(eff.last())) by {
        if is_binary {
            assert(eff.last() == "[.base64]"@[8]);
        } else {
            assert(eff.last() == name.last());
        }
    }
    assert forall|k: int| 0 <= k < eff.len() implies #[trigger] eff[k] != '\n' by {
        if k < name.len() {
            assert(eff[k] == name[k]);
        } else {
            assert(eff[k] == "[.base64]"@[k - name.len()]);
        }
    }
    assert forall|k: int| 0 <= k < line.len() implies #[trigger] line[k] != '\n' by {
        if k < 3 {
            assert(line[k] == "-- "@[k]);
        } else if k < 3 + eff.len() {
            assert(line[k] == eff[k - 3]);
        } else {
            assert(line[k] == " --"@[k - 3 - eff.len()]);
        }
    }
    assert(line.last() == " --"@[2]);
    assert(line[0] == "-- "@[0]);
    lemma_trim_id(line);
    let t = spec_trim(line);
    assert(t == line);
    assert(t.len() >= 6);
    assert(t[0] == '-' && t[1] == '-' && t[2] == ' ') by {
        assert(t[0] == "-- "@[0]);
        assert(t[1] == "-- "@[1]);
        assert(t[2] == "-- "@[2]);
    }
    assert(t[t.len() - 3] == ' ' && t[t.len() - 2] == '-' && t[t.len() - 1] == '-') by {
        assert(t[t.len() - 3] == " --"@[0]);
        assert(t[t.len() - 2] == " --"@[1]);
        assert(t[t.len() - 1] == " --"@[2]);
    }
    assert(t.subrange(3, t.len() - 3) =~= eff);
    lemma_trim_id(eff);
    assert(is_marker_line(line));
    assert(marker_inner(line) == eff);
    // the name-and-tags region parses back
    if !is_binary {
        assert(eff =~= name);
        lemma_first_occ(eff, '[');
        assert(first_occ(eff, '[') >= eff.len()) by {
            if first_occ(eff, '[') < eff.len() {
                assert(eff[first_occ(eff, '[') as int] == '[');
            }
        }
        assert(spec_name_and_tags(eff) =~= (NameTagsV {
            base: name,
            tags: TagsV { is_binary: false, snippet: None, edit: None },
        }));
    } else {
        assert forall|k: int| 0 <= k < name.len() implies eff[k] != '[' by {
            assert(eff[k] == name[k]);
        }
        assert(eff[name.len() as int] == "[.base64]"@[0]);
        lemma_first_occ_unique(eff, '[', name.len() as int);
        assert(eff.take(name.len() as int) =~= name);
        let rest = eff.skip(name.len() as int);
        assert(rest =~= "[.base64]"@);
        // the single tag is the base64 tag
        assert forall|k: int| 0 <= k < 8 implies "[.base64]"@[k] != ']' by {}
        assert("[.base64]"@[8] == ']');
        lemma_first_occ_unique("[.base64]"@, ']', 8);
        let tag = "[.base64]"@.take(9);
        assert(tag =~= "[.base64]"@);
        let after = "[.base64]"@.skip(9);
        assert(after =~= Seq::<char>::empty());
        lemma_first_occ(after, ']');
        assert(scan_tags(after, apply_tag(empty_tags(), tag)) == apply_tag(empty_tags(), tag));
        assert(apply_tag(empty_tags(), tag) =~= (TagsV {
            is_binary: true,
            snippet: None,
            edit: None,
        }));
        assert(scan_tags(rest, empty_tags()) =~= (TagsV {
            is_binary: true,
            snippet: None,
            edit: None,
        }));
        assert(spec_name_and_tags(eff) =~= (NameTagsV {
            base: name,
            tags: TagsV { is_binary: true, snippet: None, edit: None },
        }));
    }
}

/// The UTF-8 encoding of text not ending in a line break does not end in
/// a line break byte; of text ending in one, it does.
pub proof fn lemma_enc_last_byte(c: Seq<char>)
    requires
        c.len() > 0,
    ensures
        encode_utf8(c).len() > 0,
        c.last() == '\n' ==> encode_utf8(c).last() == 10,
        c.last() != '\n' ==> encode_utf8(c).last() != 10,
{
    let u = c.last() as u32;
    vstd::utf8::char_is_scalar(c.last());
    assert(c =~= c.drop_last() + seq![c.last()]);
    lemma_encode_utf8_concat(c.drop_last(), seq![c.last()]);
    assert(encode_utf8(seq![c.last()]) =~= encode_scalar(u)) by {
        assert(seq![c.last()].drop_first() =~= Seq::<char>::empty());
        assert(encode_utf8(Seq::<char>::empty()) =~= Seq::<u8>::empty());
        assert(encode_scalar(u) + Seq::<u8>::empty() =~= encode_scalar(u));
    }
    assert(encode_scalar(u).len() > 0);
    assert(encode_utf8(c).last() == encode_scalar(u).last());
    if c.last() == '\n' {
        assert(u == 10) by {
            assert(('\n' as u32) == 10);
        }
        assert(encode_scalar(u) =~= seq![leading_byte_width_1(10)]);
        assert(leading_byte_width_1(10) == 10) by (bit_vector);
    } else {
        vstd::utf8::char_u32_cast(c.last(), u);
        assert(u != 10) by {
            if u == 10 {
                assert((10u32 as char) == c.last());
                assert(('\n' as u32) == 10);
                vstd::utf8::char_u32_cast('\n', 10);
            }
        }
        if has_width_1_encoding(u) {
            assert(encode_scalar(u).last() == leading_byte_width_1(u));
            assert(u <= 0x7f && u != 10 ==> leading_byte_width_1(u) != 10) by (bit_vector);
        } else {
            assert(encode_scalar(u).last() == last_continuation_byte(u));
            assert(last_continuation_byte(u) != 10) by (bit_vector);
        }
    }
}

/// Feeding text lines to the tokenizer while a text file is open appends
/// their UTF-8 bytes, one line break byte after each line.
proof fn lemma_text_accumulate(d: Seq<char>, st: DecV)
    requires
        st.cur is Some,
        !st.cur->Some_0.is_binary,
        d.len() == 0 || d.last() == '\n',
        forall|k: int|
            0 <= k < spec_lines(d).len() ==> !is_marker_line(#[trigger] spec_lines(d)[k]),
        forall|i: int| 0 < i < d.len() ==> !(#[trigger] d[i] == '\n' && d[i - 1] == '\r'),
    ensures
        ({
            let cur = st.cur->Some_0;
            dec_run(spec_lines(d), 0, st) == Ok::<DecV, DecErrV>(
                DecV {
                    cur: Some(CurV { data: cur.data + encode_utf8(d), ..cur }),
                    ..st
                },
            )
        }),
    decreases d.len(),
{
    let cur = st.cur->Some_0;
    if d.len() == 0 {
        assert(spec_lines(d) =~= Seq::<Seq<char>>::empty());
        assert(encode_utf8(d) =~= Seq::<u8>::empty());
        assert(cur.data + encode_utf8(d) =~= cur.data);
        assert(DecV { cur: Some(CurV { data: cur.data + encode_utf8(d), ..cur }), ..st } =~= st);
    } else {
        lemma_first_occ(d, '\n');
        let i = first_nl(d) as int;
        assert(i < d.len()) by {
            if i >= d.len() {
                assert(d[d.len() - 1] != '\n');
            }
        }
        let line = d.take(i);
        assert(strip_cr(line) == line) by {
            if i > 0 {
                assert(line.last() == d[i - 1]);
                assert(d[i] == '\n');
            }
        }
        let rest = d.skip(i + 1);
        assert(spec_lines(d) == seq![line] + spec_lines(rest));
        // the first line is appended
        assert(!is_marker_line(line)) by {
            assert(spec_lines(d)[0] == line);
        }
        assert forall|k: int| 0 <= k < line.len() implies #[trigger] line[k] != '\n' by {
            assert(line[k] == d[k]);
        }
        let st2 = DecV {
            cur: Some(CurV { data: cur.data + encode_utf8(line) + seq![10u8], ..cur }),
            ..st
        };
        assert(dec_step(st, line) == Ok::<DecV, DecErrV>(st2));
        // the remaining lines recurse
        if rest.len() > 0 {
            assert(rest.last() == d.last());
        }
        assert forall|k: int|
            0 <= k < spec_lines(rest).len() implies !is_marker_line(
            #[trigger] spec_lines(rest)[k]) by {
            assert(spec_lines(d)[k + 1] == spec_lines(rest)[k]);
        }
        assert forall|j: int| 0 < j < rest.len() implies !(#[trigger] rest[j] == '\n' && rest[j
            - 1] == '\r') by {
            assert(rest[j] == d[i + 1 + j]);
            assert(rest[j - 1] == d[i + j]);
        }
        lemma_text_accumulate(rest, st2);
        // compose the runs
        assert(spec_lines(d) =~= seq![line] + spec_lines(rest));
        lemma_dec_run_append(seq![line], spec_lines(rest), st);
        assert(dec_run(seq![line], 0, st) == Ok::<DecV, DecErrV>(st2)) by {
            assert(seq![line][0] == line);
            assert(dec_run(seq![line], 1, st2) == Ok::<DecV, DecErrV>(st2));
        }
        // the accumulated bytes are the encoding of the whole text
        assert(d =~= line + seq!['\n'] + rest);
        lemma_encode_utf8_concat(line + seq!['\n'], rest);
        lemma_encode_utf8_concat(line, seq!['\n']);
        assert(encode_utf8(seq!['\n']) =~= seq![10u8]) by {
            assert(seq!['\n'].drop_first() =~= Seq::<char>::empty());
            assert(encode_utf8(Seq::<char>::empty()) =~= Seq::<u8>::empty());
            vstd::utf8::char_is_scalar('\n');
            assert(('\n' as u32) == 10);
            assert(encode_scalar(10) =~= seq![leading_byte_width_1(10)]);
            assert(leading_byte_width_1(10) == 10) by (bit_vector);
            assert(encode_scalar(10) + Seq::<u8>::empty() =~= encode_scalar(10));
        }
        assert((cur.data + encode_utf8(line) + seq![10u8]) + encode_utf8(rest) =~= cur.data
            + encode_utf8(d));
        let cur2 = st2.cur->Some_0;
        assert(DecV { cur: Some(CurV { data: cur2.data + encode_utf8(rest), ..cur2 }), ..st2 }
            =~= DecV { cur: Some(CurV { data: cur.data + encode_utf8(d), ..cur }), ..st });
    }
}

/// A base64-alphabet string has the byte encoding of its character codes,
/// none of them a line break or carriage return.
proof fn lemma_b64_bytes(content: Seq<char>)
    requires
        forall|k: int| 0 <= k < content.len() ==> is_base64_char(#[trigger] content[k]),
    ensures
        encode_utf8(content).len() == content.len(),
        forall|k: int|
            0 <= k < content.len() ==> #[trigger] encode_utf8(content)[k] != 10 && encode_utf8(
                content,
            )[k] != 13,
{
    assert(vstd::utf8::is_ascii_chars(content)) by {
        assert forall|k: int| 0 <= k < content.len() implies '\0' <= #[trigger] content[k]
            <= '\u{7f}' by {
            lemma_base64_char(content[k]);
        }
    }
    vstd::utf8::is_ascii_chars_encode_utf8(content);
    assert forall|k: int|
        0 <= k < content.len() implies #[trigger] encode_utf8(content)[k] != 10 && encode_utf8(
        content,
    )[k] != 13 by {
        lemma_base64_char(content[k]);
        assert(encode_utf8(content)[k] == content[k] as u8);
        if content[k] as u8 == 10 {
            assert((content[k] as u32) == 10);
            vstd::utf8::char_u32_cast(content[k], content[k] as u32);
            vstd::utf8::char_u32_cast('\n', 10);
        }
        if content[k] as u8 == 13 {
            assert((content[k] as u32) == 13);
            vstd::utf8::char_u32_cast(content[k], content[k] as u32);
            vstd::utf8::char_u32_cast('\r', 13);
        }
    }
}

} // verus!
