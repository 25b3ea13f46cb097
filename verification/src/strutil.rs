//! Character and line utilities shared by the detector, the tokenizer and
//! the edit engine: whitespace trimming, line splitting and joining, and
//! decimal parsing, each verified against a spec-level definition.

use vstd::prelude::*;

verus! {

/// The Unicode `White_Space` code points, the set `str::trim` strips.
pub open spec fn is_ws_char(c: char) -> bool {
    ||| c == ' '
    ||| c == '\t'
    ||| c == '\n'
    ||| c == '\r'
    ||| c as u32 == 0x0b
    ||| c as u32 == 0x0c
    ||| c as u32 == 0x85
    ||| c as u32 == 0xa0
    ||| c as u32 == 0x1680
    ||| (0x2000 <= c as u32 && c as u32 <= 0x200a)
    ||| c as u32 == 0x2028
    ||| c as u32 == 0x2029
    ||| c as u32 == 0x202f
    ||| c as u32 == 0x205f
    ||| c as u32 == 0x3000
}

/// Number of leading whitespace characters.
pub open spec fn ws_prefix_len(s: Seq<char>) -> int
    decreases s.len(),
{
    if s.len() > 0 && is_ws_char(s[0]) {
        1 + ws_prefix_len(s.drop_first())
    } else {
        0
    }
}

/// Number of trailing whitespace characters.
pub open spec fn ws_suffix_len(s: Seq<char>) -> int
    decreases s.len(),
{
    if s.len() > 0 && is_ws_char(s.last()) {
        1 + ws_suffix_len(s.drop_last())
    } else {
        0
    }
}

pub open spec fn spec_trim_start(s: Seq<char>) -> Seq<char> {
    s.skip(ws_prefix_len(s))
}

pub open spec fn spec_trim_end(s: Seq<char>) -> Seq<char> {
    s.take(s.len() - ws_suffix_len(s))
}

/// What `str::trim` leaves: the sequence with leading and trailing
/// whitespace removed.
pub open spec fn spec_trim(s: Seq<char>) -> Seq<char> {
    spec_trim_end(spec_trim_start(s))
}

pub proof fn lemma_ws_prefix_len(s: Seq<char>)
    ensures
        0 <= ws_prefix_len(s) <= s.len(),
        forall|k: int| 0 <= k < ws_prefix_len(s) ==> is_ws_char(s[k]),
        ws_prefix_len(s) < s.len() ==> !is_ws_char(s[ws_prefix_len(s)]),
    decreases s.len(),
{
    if s.len() > 0 && is_ws_char(s[0]) {
        lemma_ws_prefix_len(s.drop_first());
        assert forall|k: int| 0 <= k < ws_prefix_len(s) implies is_ws_char(s[k]) by {
            if k > 0 {
                assert(s.drop_first()[k - 1] == s[k]);
            }
        }
        if ws_prefix_len(s) < s.len() {
            assert(s.drop_first()[ws_prefix_len(s) - 1] == s[ws_prefix_len(s)]);
        }
    }
}

pub proof fn lemma_ws_suffix_len(s: Seq<char>)
    ensures
        0 <= ws_suffix_len(s) <= s.len(),
        forall|k: int| s.len() - ws_suffix_len(s) <= k < s.len() ==> is_ws_char(s[k]),
        ws_suffix_len(s) < s.len() ==> !is_ws_char(s[s.len() - ws_suffix_len(s) - 1]),
    decreases s.len(),
{
    if s.len() > 0 && is_ws_char(s.last()) {
        lemma_ws_suffix_len(s.drop_last());
        assert forall|k: int| s.len() - ws_suffix_len(s) <= k < s.len() implies is_ws_char(
            s[k],
        ) by {
            if k < s.len() - 1 {
                assert(s.drop_last()[k] == s[k]);
            }
        }
        if ws_suffix_len(s) < s.len() {
            assert(s.drop_last()[s.len() - ws_suffix_len(s) - 1] == s[s.len() - ws_suffix_len(s)
                - 1]);
        }
    }
}

/// Whether character `c` is Unicode whitespace, as `str::trim` counts it.
pub fn is_ws(c: char) -> (b: bool)
    ensures
        b == is_ws_char(c),
{
    let u = c as u32;
    u == 0x20 || u == 0x09 || u == 0x0a || u == 0x0d || u == 0x0b || u == 0x0c || u == 0x85 || u
        == 0xa0 || u == 0x1680 || (0x2000 <= u && u <= 0x200a) || u == 0x2028 || u == 0x2029 || u
        == 0x202f || u == 0x205f || u == 0x3000
}

pub proof fn lemma_ws_prefix_len_unique(s: Seq<char>, a: int)
    requires
        0 <= a <= s.len(),
        forall|k: int| 0 <= k < a ==> is_ws_char(s[k]),
        a < s.len() ==> !is_ws_char(s[a]),
    ensures
        a == ws_prefix_len(s),
{
    lemma_ws_prefix_len(s);
    if a < ws_prefix_len(s) {
        assert(is_ws_char(s[a]));
    } else if ws_prefix_len(s) < a {
        assert(!is_ws_char(s[ws_prefix_len(s)]));
    }
}

pub proof fn lemma_ws_suffix_len_unique(s: Seq<char>, b: int)
    requires
        0 <= b <= s.len(),
        forall|k: int| s.len() - b <= k < s.len() ==> is_ws_char(s[k]),
        b < s.len() ==> !is_ws_char(s[s.len() - b - 1]),
    ensures
        b == ws_suffix_len(s),
{
    lemma_ws_suffix_len(s);
    if b < ws_suffix_len(s) {
        assert(is_ws_char(s[s.len() - b - 1]));
    } else if ws_suffix_len(s) < b {
        assert(!is_ws_char(s[s.len() - ws_suffix_len(s) - 1]));
    }
}

/// What `str::trim` returns: `s` without leading and trailing whitespace.
pub fn trim_str(s: &str) -> (r: &str)
    ensures
        r@ == spec_trim(s@),
{
    let n = s.unicode_len();
    let mut a: usize = 0;
    while a < n && is_ws(s.get_char(a))
        invariant
            0 <= a <= n,
            n == s@.len(),
            forall|k: int| 0 <= k < a ==> is_ws_char(s@[k]),
        decreases n - a,
    {
        a = a + 1;
    }
    let mut j: usize = n;
    while j > a && is_ws(s.get_char(j - 1))
        invariant
            a <= j <= n,
            n == s@.len(),
            forall|k: int| j <= k < n ==> is_ws_char(s@[k]),
        decreases j,
    {
        j = j - 1;
    }
    let r = s.substring_char(a, j);
    proof {
        lemma_ws_prefix_len_unique(s@, a as int);
        let u = s@.skip(a as int);
        assert forall|k: int| u.len() - (n - j) <= k < u.len() implies is_ws_char(u[k]) by {
            assert(u[k] == s@[a + k]);
        }
        if (n - j) < u.len() {
            assert(u[u.len() - (n - j) - 1] == s@[j - 1]);
        }
        lemma_ws_suffix_len_unique(u, n - j);
        assert(r@ =~= spec_trim(s@));
    }
    r
}

/// What `str::trim_end` returns: `s` without trailing whitespace.
pub fn trim_end_str(s: &str) -> (r: &str)
    ensures
        r@ == spec_trim_end(s@),
{
    let n = s.unicode_len();
    let mut j: usize = n;
    while j > 0 && is_ws(s.get_char(j - 1))
        invariant
            0 <= j <= n,
            n == s@.len(),
            forall|k: int| j <= k < n ==> is_ws_char(s@[k]),
        decreases j,
    {
        j = j - 1;
    }
    let r = s.substring_char(0, j);
    proof {
        lemma_ws_suffix_len_unique(s@, n - j);
        assert(r@ =~= spec_trim_end(s@));
    }
    r
}

/// Position of the first occurrence of `c`, or the length when there is
/// none.
pub open spec fn first_occ(s: Seq<char>, c: char) -> nat
    decreases s.len(),
{
    if s.len() == 0 {
        0
    } else if s[0] == c {
        0
    } else {
        (1 + first_occ(s.drop_first(), c)) as nat
    }
}

pub proof fn lemma_first_occ(s: Seq<char>, c: char)
    ensures
        first_occ(s, c) <= s.len(),
        forall|k: int| 0 <= k < first_occ(s, c) ==> s[k] != c,
        first_occ(s, c) < s.len() ==> s[first_occ(s, c) as int] == c,
    decreases s.len(),
{
    if s.len() > 0 && s[0] != c {
        lemma_first_occ(s.drop_first(), c);
        assert forall|k: int| 0 <= k < first_occ(s, c) implies s[k] != c by {
            if k > 0 {
                assert(s.drop_first()[k - 1] == s[k]);
            }
        }
        if first_occ(s, c) < s.len() {
            assert(s.drop_first()[first_occ(s, c) - 1] == s[first_occ(s, c) as int]);
        }
    }
}

pub proof fn lemma_first_occ_unique(s: Seq<char>, c: char, i: int)
    requires
        0 <= i <= s.len(),
        forall|k: int| 0 <= k < i ==> s[k] != c,
        i < s.len() ==> s[i] == c,
    ensures
        i == first_occ(s, c),
{
    lemma_first_occ(s, c);
    if i < first_occ(s, c) {
        assert(s[i] != c);
    } else if first_occ(s, c) < i {
        assert(s[first_occ(s, c) as int] != c);
    }
}

/// Position of the first `'\n'`, or the length when there is none.
pub open spec fn first_nl(s: Seq<char>) -> nat {
    first_occ(s, '\n')
}

pub proof fn lemma_first_nl_unique(s: Seq<char>, i: int)
    requires
        0 <= i <= s.len(),
        forall|k: int| 0 <= k < i ==> s[k] != '\n',
        i < s.len() ==> s[i] == '\n',
    ensures
        i == first_nl(s),
{
    lemma_first_occ_unique(s, '\n', i);
}

/// One trailing `'\r'` removed, as `str::lines` does on a line that a
/// `'\n'` terminated.
pub open spec fn strip_cr(line: Seq<char>) -> Seq<char> {
    if line.len() > 0 && line.last() == '\r' {
        line.drop_last()
    } else {
        line
    }
}

/// The line sequence `str::lines` yields: pieces split at `'\n'`, a `'\r'`
/// just before the `'\n'` stripped, and no final empty piece when the text
/// ends with `'\n'`.
pub open spec fn spec_lines(s: Seq<char>) -> Seq<Seq<char>>
    decreases s.len(),
{
    if s.len() == 0 {
        Seq::empty()
    } else {
        let i = first_nl(s) as int;
        if i >= s.len() {
            seq![s]
        } else {
            seq![strip_cr(s.take(i))] + spec_lines(s.skip(i + 1))
        }
    }
}

/// The lines joined with single `'\n'` separators, no trailing one.
pub open spec fn spec_join(ls: Seq<Seq<char>>) -> Seq<char>
    decreases ls.len(),
{
    if ls.len() == 0 {
        Seq::empty()
    } else if ls.len() == 1 {
        ls[0]
    } else {
        ls[0] + seq!['\n'] + spec_join(ls.drop_first())
    }
}

/// Splits text into its lines, as `str::lines` does.
pub fn split_lines(s: &str) -> (r: Vec<String>)
    ensures
        r.deep_view() == spec_lines(s@),
{
    let n = s.unicode_len();
    let mut r: Vec<String> = Vec::new();
    let mut pos: usize = 0;
    proof {
        assert(s@.skip(0) =~= s@);
        assert(r.deep_view() =~= Seq::<Seq<char>>::empty());
    }
    while pos < n
        invariant
            0 <= pos <= n,
            n == s@.len(),
            spec_lines(s@) =~= r.deep_view() + spec_lines(s@.skip(pos as int)),
        decreases n - pos,
    {
        let ghost t = s@.skip(pos as int);
        let mut j: usize = pos;
        while j < n && s.get_char(j) != '\n'
            invariant
                pos <= j <= n,
                n == s@.len(),
                forall|k: int| pos <= k < j ==> s@[k] != '\n',
            decreases n - j,
        {
            j = j + 1;
        }
        proof {
            assert forall|k: int| 0 <= k < j - pos implies t[k] != '\n' by {
                assert(t[k] == s@[pos + k]);
            }
            if j < n {
                assert(t[j - pos] == s@[j as int]);
            }
            lemma_first_nl_unique(t, j - pos);
        }
        if j < n {
            let line_end = if j > pos && s.get_char(j - 1) == '\r' {
                j - 1
            } else {
                j
            };
            let line = s.substring_char(pos, line_end).to_owned();
            proof {
                assert(t.take(j - pos) =~= s@.subrange(pos as int, j as int));
                if j > pos && s@[j - 1] == '\r' {
                    assert(t.take(j - pos).last() == s@[j - 1]);
                    assert(strip_cr(t.take(j - pos)) =~= s@.subrange(
                        pos as int,
                        line_end as int,
                    ));
                } else {
                    if t.take(j - pos).len() > 0 {
                        assert(t.take(j - pos).last() == s@[j - 1]);
                    }
                    assert(strip_cr(t.take(j - pos)) =~= s@.subrange(
                        pos as int,
                        line_end as int,
                    ));
                }
                assert(t.skip(j - pos + 1) =~= s@.skip(j + 1));
            }
            r.push(line);
            proof {
                assert(r.deep_view() =~= r.deep_view().drop_last().push(line@));
                assert(spec_lines(s@) =~= r.deep_view() + spec_lines(s@.skip(j + 1)));
            }
            pos = j + 1;
        } else {
            let line = s.substring_char(pos, n).to_owned();
            proof {
                assert(t =~= s@.subrange(pos as int, n as int));
                assert(spec_lines(t) == seq![t]);
            }
            r.push(line);
            proof {
                assert(r.deep_view() =~= r.deep_view().drop_last().push(line@));
                assert(spec_lines(s@.skip(n as int)) =~= Seq::<Seq<char>>::empty());
                assert(spec_lines(s@) =~= r.deep_view() + spec_lines(s@.skip(n as int)));
            }
            pos = n;
        }
    }
    proof {
        assert(spec_lines(s@.skip(n as int)) =~= Seq::<Seq<char>>::empty());
        assert(r.deep_view() =~= r.deep_view() + spec_lines(s@.skip(n as int)));
    }
    r
}

pub proof fn lemma_join_snoc(ls: Seq<Seq<char>>)
    requires
        ls.len() >= 2,
    ensures
        spec_join(ls) == spec_join(ls.drop_last()) + seq!['\n'] + ls.last(),
    decreases ls.len(),
{
    if ls.len() == 2 {
        assert(ls.drop_last() =~= seq![ls[0]]);
        assert(ls.drop_first() =~= seq![ls[1]]);
        assert(spec_join(ls.drop_first()) == ls[1]);
        assert(spec_join(ls.drop_last()) == ls[0]);
        assert(spec_join(ls) == ls[0] + seq!['\n'] + ls[1]);
    } else {
        let df = ls.drop_first();
        lemma_join_snoc(df);
        assert(df.drop_last() =~= ls.drop_last().drop_first());
        assert(df.last() == ls.last());
        assert(spec_join(ls.drop_last()) == ls[0] + seq!['\n'] + spec_join(
            ls.drop_last().drop_first(),
        ));
        assert(spec_join(ls) =~= spec_join(ls.drop_last()) + seq!['\n'] + ls.last());
    }
}

/// Joins lines with single `'\n'` separators, adding no trailing one.
pub fn join_lines(lines: &Vec<String>) -> (r: String)
    ensures
        r@ == spec_join(lines.deep_view()),
{
    let m = lines.len();
    let mut out = String::new();
    let mut i: usize = 0;
    while i < m
        invariant
            0 <= i <= m,
            m == lines@.len(),
            out@ == spec_join(lines.deep_view().take(i as int)),
        decreases m - i,
    {
        let ghost ls = lines.deep_view();
        if i > 0 {
            out.append("\n");
            proof {
                reveal_strlit("\n");
                assert("\n"@ =~= seq!['\n']);
            }
        }
        out.append(lines[i].as_str());
        proof {
            if i == 0 {
                assert(ls.take(1) =~= seq![ls[0]]);
                assert(out@ =~= ls[0]);
            } else {
                lemma_join_snoc(ls.take(i + 1));
                assert(ls.take(i + 1).drop_last() =~= ls.take(i as int));
                assert(ls.take(i + 1).last() == ls[i as int]);
            }
        }
        i = i + 1;
    }
    proof {
        assert(lines.deep_view().take(m as int) =~= lines.deep_view());
    }
    out
}

/// An ASCII decimal digit.
pub open spec fn is_digit_char(c: char) -> bool {
    48 <= c as u32 <= 57
}

pub open spec fn all_digits(s: Seq<char>) -> bool {
    forall|k: int| 0 <= k < s.len() ==> is_digit_char(#[trigger] s[k])
}

pub open spec fn digit_val(c: char) -> nat {
    (c as int - 48) as nat
}

/// Value of a digit string read as unsigned decimal.
pub open spec fn digits_val(s: Seq<char>) -> nat
    decreases s.len(),
{
    if s.len() == 0 {
        0
    } else {
        digits_val(s.drop_last()) * 10 + digit_val(s.last())
    }
}

pub proof fn lemma_digits_val_take(s: Seq<char>, i: int)
    requires
        0 <= i < s.len(),
    ensures
        digits_val(s.take(i + 1)) == digits_val(s.take(i)) * 10 + digit_val(s[i]),
{
    assert(s.take(i + 1).drop_last() =~= s.take(i));
    assert(s.take(i + 1).last() == s[i]);
}

pub proof fn lemma_digits_val_mono(s: Seq<char>, i: int)
    requires
        0 <= i <= s.len(),
    ensures
        digits_val(s.take(i)) <= digits_val(s),
    decreases s.len() - i,
{
    if i == s.len() {
        assert(s.take(i) =~= s);
    } else {
        lemma_digits_val_take(s, i);
        lemma_digits_val_mono(s, i + 1);
    }
}

/// Parses an unsigned decimal number: defined exactly on nonempty
/// all-digit strings whose value fits in `usize`.
pub fn parse_usize(s: &str) -> (r: Option<usize>)
    ensures
        r is Some <==> (s@.len() > 0 && all_digits(s@) && digits_val(s@) <= usize::MAX),
        r matches Some(v) ==> v == digits_val(s@),
{
    let n = s.unicode_len();
    if n == 0 {
        return None;
    }
    let mut v: usize = 0;
    let mut i: usize = 0;
    while i < n
        invariant
            0 <= i <= n,
            n == s@.len(),
            n > 0,
            all_digits(s@.take(i as int)),
            v == digits_val(s@.take(i as int)),
        decreases n - i,
    {
        let c = s.get_char(i);
        let u = c as u32;
        if !(48 <= u && u <= 57) {
            assert(!is_digit_char(s@[i as int]));
            return None;
        }
        let d = (u - 48) as usize;
        proof {
            lemma_digits_val_take(s@, i as int);
        }
        if v > usize::MAX / 10 || d > usize::MAX - (v * 10) {
            proof {
                assert(digits_val(s@.take(i + 1)) > usize::MAX);
                lemma_digits_val_mono(s@, i + 1);
            }
            return None;
        }
        v = v * 10 + d;
        proof {
            assert(s@.take(i + 1) =~= s@.take(i as int).push(s@[i as int]));
            assert(all_digits(s@.take(i + 1)));
        }
        i = i + 1;
    }
    proof {
        assert(s@.take(n as int) =~= s@);
    }
    Some(v)
}

/// Whether `p` is a prefix of `s`.
pub fn str_starts_with(s: &str, p: &str) -> (b: bool)
    ensures
        b == (p@.len() <= s@.len() && s@.take(p@.len() as int) == p@),
{
    let n = s.unicode_len();
    let m = p.unicode_len();
    if m > n {
        assert(!(p@.len() <= s@.len()));
        return false;
    }
    let mut i: usize = 0;
    while i < m
        invariant
            0 <= i <= m <= n,
            n == s@.len(),
            m == p@.len(),
            forall|k: int| 0 <= k < i ==> s@[k] == p@[k],
        decreases m - i,
    {
        if s.get_char(i) != p.get_char(i) {
            assert(s@.take(m as int)[i as int] != p@[i as int]);
            return false;
        }
        i = i + 1;
    }
    proof {
        assert(s@.take(m as int) =~= p@);
    }
    true
}

/// Whether `p` is a suffix of `s`.
pub fn str_ends_with(s: &str, p: &str) -> (b: bool)
    ensures
        b == (p@.len() <= s@.len() && s@.skip(s@.len() - p@.len()) == p@),
{
    let n = s.unicode_len();
    let m = p.unicode_len();
    if m > n {
        assert(!(p@.len() <= s@.len()));
        return false;
    }
    let mut i: usize = 0;
    while i < m
        invariant
            0 <= i <= m <= n,
            n == s@.len(),
            m == p@.len(),
            forall|k: int| 0 <= k < i ==> s@[n - m + k] == p@[k],
        decreases m - i,
    {
        if s.get_char(n - m + i) != p.get_char(i) {
            assert(s@.skip(s@.len() - p@.len())[i as int] != p@[i as int]);
            return false;
        }
        i = i + 1;
    }
    proof {
        assert(s@.skip(s@.len() - p@.len()) =~= p@);
    }
    true
}

/// Character-for-character equality of two string slices.
pub fn str_eq(a: &str, b: &str) -> (r: bool)
    ensures
        r == (a@ == b@),
{
    let n = a.unicode_len();
    let m = b.unicode_len();
    if n != m {
        return false;
    }
    let mut i: usize = 0;
    while i < n
        invariant
            0 <= i <= n,
            n == a@.len(),
            n == b@.len(),
            forall|k: int| 0 <= k < i ==> a@[k] == b@[k],
        decreases n - i,
    {
        if a.get_char(i) != b.get_char(i) {
            return false;
        }
        i = i + 1;
    }
    proof {
        assert(a@ =~= b@);
    }
    true
}

/// A line that reads as a file marker: trimmed, it starts with `"-- "`,
/// ends with `" --"`, and holds a nonblank name region between them.
pub open spec fn is_marker_line(line: Seq<char>) -> bool {
    let t = spec_trim(line);
    &&& t.len() >= 6
    &&& t[0] == '-' && t[1] == '-' && t[2] == ' '
    &&& t[t.len() - 3] == ' ' && t[t.len() - 2] == '-' && t[t.len() - 1] == '-'
    &&& spec_trim(t.subrange(3, t.len() - 3)).len() > 0
}

/// The name-and-tags region between the dashes of a marker line.
pub open spec fn marker_inner(line: Seq<char>) -> Seq<char> {
    let t = spec_trim(line);
    t.subrange(3, t.len() - 3)
}

/// Tests a line for the marker shape; `Some` carries the name-and-tags
/// region between the dashes.
pub fn marker_name_part(line: &str) -> (r: Option<&str>)
    ensures
        r is Some <==> is_marker_line(line@),
        r matches Some(p) ==> p@ == marker_inner(line@),
{
    let t = trim_str(line);
    let n = t.unicode_len();
    if n < 6 {
        return None;
    }
    if !(t.get_char(0) == '-' && t.get_char(1) == '-' && t.get_char(2) == ' ' && t.get_char(n - 3)
        == ' ' && t.get_char(n - 2) == '-' && t.get_char(n - 1) == '-') {
        return None;
    }
    let inner = t.substring_char(3, n - 3);
    let inner_trimmed = trim_str(inner);
    if inner_trimmed.unicode_len() == 0 {
        return None;
    }
    Some(inner)
}

/// Whether this line reads as a file marker.
pub fn line_is_marker(line: &str) -> (b: bool)
    ensures
        b == is_marker_line(line@),
{
    marker_name_part(line).is_some()
}

/// Index of the first occurrence of `c` in `s`, the length when there is
/// none; agrees with [`first_occ`].
pub fn find_first(s: &str, c: char) -> (i: usize)
    ensures
        i == first_occ(s@, c),
{
    let n = s.unicode_len();
    let mut i: usize = 0;
    while i < n && s.get_char(i) != c
        invariant
            0 <= i <= n,
            n == s@.len(),
            forall|k: int| 0 <= k < i ==> s@[k] != c,
        decreases n - i,
    {
        i = i + 1;
    }
    proof {
        lemma_first_occ_unique(s@, c, i as int);
    }
    i
}

/// A copy of a vector of lines, element by element.
pub fn clone_string_vec(v: &Vec<String>) -> (r: Vec<String>)
    ensures
        r@ == v@,
{
    let n = v.len();
    let mut r: Vec<String> = Vec::new();
    let mut i: usize = 0;
    while i < n
        invariant
            0 <= i <= n,
            n == v@.len(),
            r@ == v@.take(i as int),
        decreases n - i,
    {
        r.push(v[i].clone());
        proof {
            assert(r@ =~= v@.take(i + 1));
        }
        i = i + 1;
    }
    proof {
        assert(v@.take(n as int) =~= v@);
    }
    r
}

/// First occurrence of character `c` in `s` at or after `from`.
pub fn find_char_from(s: &str, c: char, from: usize) -> (r: Option<usize>)
    requires
        from <= s@.len(),
    ensures
        r matches Some(i) ==> from <= i < s@.len() && s@[i as int] == c && (forall|k: int|
            from <= k < i ==> s@[k] != c),
        r is None ==> forall|k: int| from <= k < s@.len() ==> s@[k] != c,
{
    let n = s.unicode_len();
    let mut i: usize = from;
    while i < n
        invariant
            from <= i <= n,
            n == s@.len(),
            forall|k: int| from <= k < i ==> s@[k] != c,
        decreases n - i,
    {
        if s.get_char(i) == c {
            return Some(i);
        }
        i = i + 1;
    }
    None
}

} // verus!
