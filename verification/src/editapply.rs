//! The edit application engine: applies an ordered list of edit blocks to
//! line-oriented text, each one an exact contiguous line-sequence search
//! and replace, first match wins.

use vstd::prelude::*;
use crate::model::{EditApplyError, EditBlock, EditBlockV, EditOperation, EditRef};
use crate::strutil::{
    clone_string_vec, join_lines, spec_join, spec_lines, split_lines, str_eq,
};

verus! {

/// Whether `search` matches `lines` starting at `at`, line for line.
pub open spec fn block_matches_at(lines: Seq<Seq<char>>, search: Seq<Seq<char>>, at: int) -> bool {
    forall|j: int| 0 <= j < search.len() ==> lines[at + j] == search[j]
}

/// First index at or after `at` where `search` matches, `None` when it
/// matches nowhere.
pub open spec fn find_block_from(lines: Seq<Seq<char>>, search: Seq<Seq<char>>, at: nat) -> Option<
    nat,
>
    decreases lines.len() + 1 - at,
{
    if at + search.len() > lines.len() {
        None
    } else if block_matches_at(lines, search, at as int) {
        Some(at)
    } else {
        find_block_from(lines, search, (at + 1) as nat)
    }
}

pub proof fn lemma_find_block_from(lines: Seq<Seq<char>>, search: Seq<Seq<char>>, at: nat)
    ensures
        find_block_from(lines, search, at) matches Some(i) ==> at <= i && i + search.len()
            <= lines.len() && block_matches_at(lines, search, i as int) && (forall|k: int|
            at <= k < i ==> !block_matches_at(lines, search, k)),
        find_block_from(lines, search, at) is None ==> forall|k: int|
            at <= k && k + search.len() <= lines.len() ==> !block_matches_at(lines, search, k),
    decreases lines.len() + 1 - at,
{
    if at + search.len() > lines.len() {
    } else if block_matches_at(lines, search, at as int) {
    } else {
        lemma_find_block_from(lines, search, (at + 1) as nat);
    }
}

pub proof fn lemma_find_block_unique(lines: Seq<Seq<char>>, search: Seq<Seq<char>>, i: int)
    requires
        0 <= i,
        i + search.len() <= lines.len(),
        block_matches_at(lines, search, i),
        forall|k: int| 0 <= k < i ==> !block_matches_at(lines, search, k),
    ensures
        find_block_from(lines, search, 0) == Some(i as nat),
{
    lemma_find_block_from(lines, search, 0);
    match find_block_from(lines, search, 0) {
        Some(j) => {
            if j < i {
                assert(!block_matches_at(lines, search, j as int));
            } else if i < j {
                assert(!block_matches_at(lines, search, i));
            }
        },
        None => {
            assert(!block_matches_at(lines, search, i));
        },
    }
}

/// Ghost error of edit application.
pub enum ApplyErrV {
    NotFound { search: Seq<char> },
    EmptyContent,
}

/// What one edit block does to a line sequence: replace or delete the
/// first match of the search lines; an insert, or a replace with no search
/// lines, prepends the replacement.
pub open spec fn spec_apply_edit(lines: Seq<Seq<char>>, e: EditBlockV) -> Result<
    Seq<Seq<char>>,
    ApplyErrV,
> {
    match e.operation {
        EditOperation::Replace => {
            if e.search.len() == 0 {
                Ok(e.replacement + lines)
            } else {
                match find_block_from(lines, e.search, 0) {
                    Some(at) => Ok(
                        lines.take(at as int) + e.replacement + lines.skip(
                            at + e.search.len() as int,
                        ),
                    ),
                    None => Err(ApplyErrV::NotFound { search: spec_join(e.search) }),
                }
            }
        },
        EditOperation::Delete => {
            if e.search.len() == 0 {
                Err(ApplyErrV::NotFound { search: "(empty)"@ })
            } else {
                match find_block_from(lines, e.search, 0) {
                    Some(at) => Ok(lines.take(at as int) + lines.skip(at + e.search.len() as int)),
                    None => Err(ApplyErrV::NotFound { search: spec_join(e.search) }),
                }
            }
        },
        EditOperation::Insert => Ok(e.replacement + lines),
    }
}

/// Applies the edits from index `idx` on, in order.
pub open spec fn apply_edits_from(
    lines: Seq<Seq<char>>,
    edits: Seq<EditBlockV>,
    idx: nat,
) -> Result<Seq<Seq<char>>, ApplyErrV>
    decreases edits.len() - idx,
{
    if idx >= edits.len() {
        Ok(lines)
    } else {
        match spec_apply_edit(lines, edits[idx as int]) {
            Ok(l2) => apply_edits_from(l2, edits, (idx + 1) as nat),
            Err(e) => Err(e),
        }
    }
}

/// What applying an edit list to content yields: empty content takes only
/// inserts; otherwise the content is split into lines, the edits applied
/// in order, and the lines rejoined.
pub open spec fn spec_apply(content: Seq<char>, edits: Seq<EditBlockV>) -> Result<
    Seq<char>,
    ApplyErrV,
> {
    if content.len() == 0 && edits.len() > 0 && (exists|k: int|
        0 <= k < edits.len() && (#[trigger] edits[k]).operation != EditOperation::Insert) {
        Err(ApplyErrV::EmptyContent)
    } else {
        match apply_edits_from(spec_lines(content), edits, 0) {
            Ok(ls) => Ok(spec_join(ls)),
            Err(e) => Err(e),
        }
    }
}

/// Edit application is deterministic: its outcome is a function of the
/// content and the edit list alone, so applying the same edit list to the
/// same content twice gives the same result. (Idempotence is not claimed:
/// a replacement may match its own output.)
pub proof fn lemma_apply_deterministic(
    content: Seq<char>,
    edits: Seq<EditBlockV>,
    r1: Result<Seq<char>, ApplyErrV>,
    r2: Result<Seq<char>, ApplyErrV>,
)
    requires
        r1 == spec_apply(content, edits),
        r2 == spec_apply(content, edits),
    ensures
        r1 == r2,
{
}

/// How an exec application error corresponds to a ghost one.
pub open spec fn apply_err_matches(ex: EditApplyError, e: ApplyErrV) -> bool {
    match e {
        ApplyErrV::NotFound { search } => ex matches EditApplyError::SearchNotFound {
            search: s,
        } && s@ == search,
        ApplyErrV::EmptyContent => ex == EditApplyError::EmptyContent,
    }
}

/// A new line vector with `del` lines at `start` replaced by `repl`.
fn splice(lines: &Vec<String>, start: usize, del: usize, repl: &Vec<String>) -> (r: Vec<String>)
    requires
        start + del <= lines@.len(),
    ensures
        r.deep_view() == lines.deep_view().take(start as int) + repl.deep_view()
            + lines.deep_view().skip(start as int + del as int),
{
    let ghost lv = lines.deep_view();
    let ghost rv = repl.deep_view();
    let n = lines.len();
    let m = repl.len();
    let mut r: Vec<String> = Vec::new();
    let mut i: usize = 0;
    proof {
        assert(r.deep_view() =~= Seq::<Seq<char>>::empty());
    }
    while i < start
        invariant
            0 <= i <= start,
            start + del <= n,
            n == lines@.len(),
            lv == lines.deep_view(),
            r.deep_view() == lv.take(i as int),
        decreases start - i,
    {
        let ghost pre = r.deep_view();
        r.push(lines[i].clone());
        proof {
            assert(r.deep_view() =~= pre.push(lv[i as int]));
            assert(pre.push(lv[i as int]) =~= lv.take(i + 1));
        }
        i = i + 1;
    }
    let mut j: usize = 0;
    while j < m
        invariant
            0 <= j <= m,
            start + del <= n,
            m == repl@.len(),
            n == lines@.len(),
            lv == lines.deep_view(),
            rv == repl.deep_view(),
            r.deep_view() == lv.take(start as int) + rv.take(j as int),
        decreases m - j,
    {
        let ghost pre = r.deep_view();
        r.push(repl[j].clone());
        proof {
            assert(r.deep_view() =~= pre.push(rv[j as int]));
            assert(pre.push(rv[j as int]) =~= lv.take(start as int) + rv.take(j + 1));
        }
        j = j + 1;
    }
    let mut k: usize = start + del;
    proof {
        assert(rv.take(m as int) =~= rv);
        assert(lv.skip(start as int + del as int).take(0) =~= Seq::<Seq<char>>::empty());
        assert(r.deep_view() =~= lv.take(start as int) + rv + lv.skip(
            start as int + del as int,
        ).take(k - start - del));
    }
    while k < n
        invariant
            start + del <= k <= n,
            n == lines@.len(),
            lv == lines.deep_view(),
            rv == repl.deep_view(),
            r.deep_view() == lv.take(start as int) + rv + lv.skip(start as int + del as int).take(
                k - start - del,
            ),
        decreases n - k,
    {
        let ghost pre = r.deep_view();
        r.push(lines[k].clone());
        proof {
            assert(r.deep_view() =~= pre.push(lv[k as int]));
            assert(pre.push(lv[k as int]) =~= lv.take(start as int) + rv + lv.skip(
                start as int + del as int,
            ).take(k + 1 - start - del));
        }
        k = k + 1;
    }
    proof {
        assert(lv.skip(start as int + del as int).take(n - start - del) =~= lv.skip(
            start as int + del as int,
        ));
    }
    r
}

/// Whether the search lines match the line vector at `start`.
fn lines_match_at(lines: &Vec<String>, search: &Vec<String>, start: usize) -> (b: bool)
    requires
        start + search@.len() <= lines@.len(),
    ensures
        b == block_matches_at(lines.deep_view(), search.deep_view(), start as int),
{
    let ghost lv = lines.deep_view();
    let ghost sv = search.deep_view();
    let n = lines.len();
    let slen = search.len();
    let mut j: usize = 0;
    while j < slen
        invariant
            0 <= j <= slen,
            slen == search@.len(),
            n == lines@.len(),
            start + slen <= n,
            lv == lines.deep_view(),
            sv == search.deep_view(),
            forall|jj: int| 0 <= jj < j ==> lv[start + jj] == sv[jj],
        decreases slen - j,
    {
        if !str_eq(lines[start + j].as_str(), search[j].as_str()) {
            proof {
                assert(lv[start + j] == lines@[start + j]@);
                assert(sv[j as int] == search@[j as int]@);
            }
            return false;
        }
        proof {
            assert(lv[start + j] == lines@[start + j]@);
            assert(sv[j as int] == search@[j as int]@);
        }
        j = j + 1;
    }
    true
}

/// First place the search lines match, or the not-found error the engine
/// reports.
fn find_search_block(lines: &Vec<String>, search: &Vec<String>) -> (r: Result<
    usize,
    EditApplyError,
>)
    ensures
        ({
            let lv = lines.deep_view();
            let sv = search.deep_view();
            &&& sv.len() == 0 ==> (r matches Err(EditApplyError::SearchNotFound { search: s })
                && s@ == "(empty)"@)
            &&& sv.len() > 0 ==> match find_block_from(lv, sv, 0) {
                Some(at) => r matches Ok(i) && i as nat == at,
                None => r matches Err(EditApplyError::SearchNotFound { search: s }) && s@
                    == spec_join(sv),
            }
        }),
{
    let ghost lv = lines.deep_view();
    let ghost sv = search.deep_view();
    let slen = search.len();
    if slen == 0 {
        return Err(EditApplyError::SearchNotFound { search: String::from_str("(empty)") });
    }
    let n = lines.len();
    if slen > n {
        proof {
            lemma_find_block_from(lv, sv, 0);
        }
        return Err(EditApplyError::SearchNotFound { search: join_lines(search) });
    }
    let mut start: usize = 0;
    while start <= n - slen
        invariant
            0 <= start <= n - slen + 1,
            0 < slen <= n,
            n == lines@.len(),
            slen == search@.len(),
            lv == lines.deep_view(),
            sv == search.deep_view(),
            forall|k: int| 0 <= k < start ==> !block_matches_at(lv, sv, k),
        decreases n - slen - start + 1,
    {
        if lines_match_at(lines, search, start) {
            proof {
                lemma_find_block_unique(lv, sv, start as int);
            }
            return Ok(start);
        }
        start = start + 1;
    }
    proof {
        lemma_find_block_from(lv, sv, 0);
        match find_block_from(lv, sv, 0) {
            Some(i) => {
                assert(!block_matches_at(lv, sv, i as int));
            },
            None => {},
        }
    }
    Err(EditApplyError::SearchNotFound { search: join_lines(search) })
}

/// Replaces the first match of `search` with `replacement`; with no search
/// lines the replacement is prepended.
fn replace_lines(lines: &Vec<String>, search: &Vec<String>, replacement: &Vec<String>) -> (r:
    Result<Vec<String>, EditApplyError>)
    ensures
        ({
            let lv = lines.deep_view();
            let sv = search.deep_view();
            let rv = replacement.deep_view();
            &&& sv.len() == 0 ==> (r matches Ok(v) && v.deep_view() == rv + lv)
            &&& sv.len() > 0 ==> match find_block_from(lv, sv, 0) {
                Some(at) => r matches Ok(v) && v.deep_view() == lv.take(at as int) + rv + lv.skip(
                    at + sv.len() as int,
                ),
                None => r matches Err(EditApplyError::SearchNotFound { search: s }) && s@
                    == spec_join(sv),
            }
        }),
{
    let ghost lv = lines.deep_view();
    let ghost rv = replacement.deep_view();
    if search.len() == 0 {
        let v = splice(lines, 0, 0, replacement);
        proof {
            assert(lv.take(0) =~= Seq::<Seq<char>>::empty());
            assert(lv.skip(0) =~= lv);
            assert(lv.take(0) + rv + lv.skip(0) =~= rv + lv);
        }
        return Ok(v);
    }
    match find_search_block(lines, search) {
        Ok(at) => {
            proof {
                lemma_find_block_from(lv, search.deep_view(), 0);
            }
            Ok(splice(lines, at, search.len(), replacement))
        },
        Err(e) => Err(e),
    }
}

/// Deletes the first match of `search`.
fn delete_lines(lines: &Vec<String>, search: &Vec<String>) -> (r: Result<
    Vec<String>,
    EditApplyError,
>)
    ensures
        ({
            let lv = lines.deep_view();
            let sv = search.deep_view();
            &&& sv.len() == 0 ==> (r matches Err(EditApplyError::SearchNotFound { search: s })
                && s@ == "(empty)"@)
            &&& sv.len() > 0 ==> match find_block_from(lv, sv, 0) {
                Some(at) => r matches Ok(v) && v.deep_view() == lv.take(at as int) + lv.skip(
                    at + sv.len() as int,
                ),
                None => r matches Err(EditApplyError::SearchNotFound { search: s }) && s@
                    == spec_join(sv),
            }
        }),
{
    let ghost lv = lines.deep_view();
    match find_search_block(lines, search) {
        Ok(at) => {
            proof {
                lemma_find_block_from(lv, search.deep_view(), 0);
            }
            let none: Vec<String> = Vec::new();
            let v = splice(lines, at, search.len(), &none);
            proof {
                assert(none.deep_view() =~= Seq::<Seq<char>>::empty());
                assert(lv.take(at as int) + none.deep_view() + lv.skip(
                    at + search.deep_view().len(),
                ) =~= lv.take(at as int) + lv.skip(at + search.deep_view().len()));
            }
            Ok(v)
        },
        Err(e) => Err(e),
    }
}

/// Applies one edit block to a line vector.
fn apply_edit_to_lines(lines: &Vec<String>, edit: &EditBlock) -> (r: Result<
    Vec<String>,
    EditApplyError,
>)
    ensures
        match spec_apply_edit(lines.deep_view(), edit@) {
            Ok(l2) => r matches Ok(v) && v.deep_view() == l2,
            Err(e) => r matches Err(ex) && apply_err_matches(ex, e),
        },
{
    match edit.operation {
        EditOperation::Replace => replace_lines(lines, &edit.search, &edit.replacement),
        EditOperation::Delete => delete_lines(lines, &edit.search),
        EditOperation::Insert => {
            let ghost lv = lines.deep_view();
            let ghost rv = edit.replacement.deep_view();
            let v = splice(lines, 0, 0, &edit.replacement);
            proof {
                assert(lv.take(0) + rv + lv.skip(0) =~= rv + lv);
            }
            Ok(v)
        },
    }
}

/// How an exec application result corresponds to [`spec_apply`].
pub open spec fn apply_matches(
    content: Seq<char>,
    edits: Seq<EditBlockV>,
    r: Result<String, EditApplyError>,
) -> bool {
    match spec_apply(content, edits) {
        Ok(out) => r matches Ok(sr) && sr@ == out,
        Err(e) => r matches Err(ex) && apply_err_matches(ex, e),
    }
}

impl EditRef {
    /// Applies all edit blocks to the content, in order; each edit
    /// transforms the line sequence the previous one produced.
    pub fn apply(&self, content: &str) -> (r: Result<String, EditApplyError>)
        ensures
            apply_matches(content@, self@.edits, r),
    {
        let ghost ev = self@.edits;
        let ne = self.edits.len();
        if content.is_empty() && ne > 0 {
            let mut i: usize = 0;
            while i < ne
                invariant
                    0 <= i <= ne,
                    ne == self.edits@.len(),
                    ne > 0,
                    ev == self@.edits,
                    ev.len() == ne,
                    content@.len() == 0,
                    forall|k: int|
                        0 <= k < i ==> (#[trigger] ev[k]).operation == EditOperation::Insert,
                decreases ne - i,
            {
                if !matches!(self.edits[i].operation, EditOperation::Insert) {
                    proof {
                        assert(ev[i as int].operation != EditOperation::Insert);
                    }
                    return Err(EditApplyError::EmptyContent);
                }
                i = i + 1;
            }
        }
        proof {
            if content@.len() == 0 && ev.len() > 0 {
                assert(forall|k: int|
                    0 <= k < ev.len() ==> (#[trigger] ev[k]).operation == EditOperation::Insert);
            }
        }
        let mut lines = split_lines(content);
        let n = self.edits.len();
        let mut i: usize = 0;
        while i < n
            invariant
                0 <= i <= n,
                n == self.edits@.len(),
                ev == self@.edits,
                !(content@.len() == 0 && ev.len() > 0 && (exists|k: int|
                    0 <= k < ev.len() && (#[trigger] ev[k]).operation
                        != EditOperation::Insert)),
                apply_edits_from(spec_lines(content@), ev, 0) == apply_edits_from(
                    lines.deep_view(),
                    ev,
                    i as nat,
                ),
            decreases n - i,
        {
            let ghost pre = lines.deep_view();
            match apply_edit_to_lines(&lines, &self.edits[i]) {
                Ok(v) => {
                    proof {
                        assert(self.edits@[i as int]@ == ev[i as int]);
                        assert(apply_edits_from(pre, ev, i as nat) == apply_edits_from(
                            v.deep_view(),
                            ev,
                            (i + 1) as nat,
                        ));
                    }
                    lines = v;
                },
                Err(ex) => {
                    proof {
                        assert(self.edits@[i as int]@ == ev[i as int]);
                        assert(apply_edits_from(pre, ev, i as nat) matches Err(e)
                            && apply_err_matches(ex, e));
                    }
                    return Err(ex);
                },
            }
            i = i + 1;
        }
        Ok(join_lines(&lines))
    }
}

} // verus!
