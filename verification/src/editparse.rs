//! The edit-program parser: a three-state line machine that turns a file
//! body of SEARCH/REPLACE/DELETE blocks into an ordered list of edit
//! blocks.

use vstd::prelude::*;
use crate::model::{EditBlock, EditBlockV, EditOperation, EditParseError, EditRef};
use crate::strutil::{
    clone_string_vec, spec_lines, spec_trim_end, split_lines, str_starts_with, trim_end_str,
};

verus! {

/// Whether `p` is a prefix of `s`, over character sequences.
pub open spec fn seq_starts_with(s: Seq<char>, p: Seq<char>) -> bool {
    p.len() <= s.len() && s.take(p.len() as int) == p
}

/// Parser state: outside any block, inside a search block, or inside a
/// replacement block.
#[derive(Debug, Clone, Copy, PartialEq, Eq, Structural)]
pub enum EpState {
    Start,
    InSearch,
    InReplace,
}

/// Ghost state of the edit-program parser.
#[verifier::ext_equal]
pub struct EpV {
    pub state: EpState,
    pub cur_search: Seq<Seq<char>>,
    pub cur_replace: Seq<Seq<char>>,
    pub edits: Seq<EditBlockV>,
}

/// Ghost error of edit-program parsing.
pub enum EpErrV {
    Malformed { line_number: nat, line: Seq<char> },
    ExpectedStart,
    Unterminated,
    Empty,
}

pub open spec fn ep_init() -> EpV {
    EpV {
        state: EpState::Start,
        cur_search: Seq::empty(),
        cur_replace: Seq::empty(),
        edits: Seq::empty(),
    }
}

/// One line moves the machine: `raw` is taken with its trailing whitespace
/// trimmed; `line_number` is 1-based and only reported in errors.
pub open spec fn ep_step(st: EpV, raw: Seq<char>, line_number: nat) -> Result<EpV, EpErrV> {
    ep_step_trimmed(st, spec_trim_end(raw), line_number)
}

/// [`ep_step`] on a line whose trailing whitespace is already trimmed.
pub open spec fn ep_step_trimmed(st: EpV, line: Seq<char>, line_number: nat) -> Result<
    EpV,
    EpErrV,
> {
    match st.state {
        EpState::Start => {
            if seq_starts_with(line, "<<<<<<< SEARCH"@) {
                Ok(EpV { state: EpState::InSearch, cur_search: Seq::empty(), ..st })
            } else if seq_starts_with(line, "<<<<<<<"@) {
                Err(EpErrV::Malformed { line_number, line })
            } else if line.len() != 0 {
                Err(EpErrV::ExpectedStart)
            } else {
                Ok(st)
            }
        },
        EpState::InSearch => {
            if seq_starts_with(line, "======="@) {
                Ok(EpV { state: EpState::InReplace, ..st })
            } else if seq_starts_with(line, ">>>>>>> DELETE"@) {
                Ok(
                    EpV {
                        state: EpState::Start,
                        cur_search: Seq::empty(),
                        cur_replace: Seq::empty(),
                        edits: st.edits.push(
                            EditBlockV {
                                search: st.cur_search,
                                replacement: Seq::empty(),
                                operation: EditOperation::Delete,
                            },
                        ),
                    },
                )
            } else {
                Ok(EpV { cur_search: st.cur_search.push(line), ..st })
            }
        },
        EpState::InReplace => {
            if seq_starts_with(line, ">>>>>>> REPLACE"@) || seq_starts_with(
                line,
                ">>>>>>> INSERT"@,
            ) {
                Ok(
                    EpV {
                        state: EpState::Start,
                        cur_search: Seq::empty(),
                        cur_replace: Seq::empty(),
                        edits: st.edits.push(
                            EditBlockV {
                                search: st.cur_search,
                                replacement: st.cur_replace,
                                operation: EditOperation::Replace,
                            },
                        ),
                    },
                )
            } else {
                Ok(EpV { cur_replace: st.cur_replace.push(line), ..st })
            }
        },
    }
}

/// Runs the machine over the lines from index `idx` on.
pub open spec fn ep_run_from(lines: Seq<Seq<char>>, idx: nat, st: EpV) -> Result<EpV, EpErrV>
    decreases lines.len() - idx,
{
    if idx >= lines.len() {
        Ok(st)
    } else {
        match ep_step(st, lines[idx as int], (idx + 1) as nat) {
            Ok(st2) => ep_run_from(lines, (idx + 1) as nat, st2),
            Err(e) => Err(e),
        }
    }
}

/// A finished block with empty search and nonempty replacement is an
/// insert.
pub open spec fn ep_finalize_block(b: EditBlockV) -> EditBlockV {
    if b.operation == EditOperation::Replace && b.search.len() == 0 && b.replacement.len() > 0 {
        EditBlockV { operation: EditOperation::Insert, ..b }
    } else {
        b
    }
}

/// What edit-program parsing yields for this body: run the machine over
/// the lines, demand it ends outside a block, refuse blocks with both
/// sides empty, and retag empty-search blocks as inserts.
pub open spec fn spec_parse_edit_content(s: Seq<char>) -> Result<Seq<EditBlockV>, EpErrV> {
    match ep_run_from(spec_lines(s), 0, ep_init()) {
        Err(e) => Err(e),
        Ok(st) => {
            if st.state != EpState::Start {
                Err(EpErrV::Unterminated)
            } else if exists|k: int|
                0 <= k < st.edits.len() && (#[trigger] st.edits[k]).search.len() == 0
                    && st.edits[k].replacement.len() == 0 {
                Err(EpErrV::Empty)
            } else {
                Ok(st.edits.map_values(|b: EditBlockV| ep_finalize_block(b)))
            }
        },
    }
}

/// How an exec parse error corresponds to a ghost one.
pub open spec fn ep_err_matches(ex: EditParseError, e: EpErrV) -> bool {
    match e {
        EpErrV::Malformed { line_number, line } => ex matches EditParseError::MalformedLine {
            line_number: ln,
            line: l,
        } && ln as nat == line_number && l@ == line,
        EpErrV::ExpectedStart => ex == EditParseError::ExpectedSearchStart,
        EpErrV::Unterminated => ex == EditParseError::UnterminatedBlock,
        EpErrV::Empty => ex == EditParseError::EmptyBlock,
    }
}

/// How an exec parse result corresponds to [`spec_parse_edit_content`].
pub open spec fn edit_parse_matches(
    s: Seq<char>,
    r: Result<Vec<EditBlock>, EditParseError>,
) -> bool {
    match spec_parse_edit_content(s) {
        Ok(bs) => r matches Ok(v) && v@.map_values(|b: EditBlock| b@) == bs,
        Err(e) => r matches Err(ex) && ep_err_matches(ex, e),
    }
}

/// The edit-program parser.
struct EditParser {
    edits: Vec<EditBlock>,
    current_search: Vec<String>,
    current_replace: Vec<String>,
    state: EpState,
}

impl View for EditParser {
    type V = EpV;

    closed spec fn view(&self) -> EpV {
        EpV {
            state: self.state,
            cur_search: self.current_search.deep_view(),
            cur_replace: self.current_replace.deep_view(),
            edits: self.edits@.map_values(|b: EditBlock| b@),
        }
    }
}

impl EditParser {
    fn new() -> (p: EditParser)
        ensures
            p@ == ep_init(),
    {
        let p = EditParser {
            edits: Vec::new(),
            current_search: Vec::new(),
            current_replace: Vec::new(),
            state: EpState::Start,
        };
        proof {
            assert(p@ =~= ep_init());
            assert(p@.cur_search =~= Seq::<Seq<char>>::empty());
            assert(p@.cur_replace =~= Seq::<Seq<char>>::empty());
            assert(p@.edits =~= Seq::<EditBlockV>::empty());
        }
        p
    }

    fn parse_line(&mut self, line: &str, line_num: usize) -> (r: Result<(), EditParseError>)
        ensures
            match ep_step(old(self)@, line@, line_num as nat) {
                Ok(st2) => r is Ok && final(self)@ == st2,
                Err(e) => r matches Err(ex) && ep_err_matches(ex, e) && final(self)@ == old(
                    self,
                )@,
            },
    {
        let line = trim_end_str(line);
        match self.state {
            EpState::Start => self.handle_start(line, line_num),
            EpState::InSearch => self.handle_search(line, line_num),
            EpState::InReplace => self.handle_replace(line, line_num),
        }
    }

    fn handle_start(&mut self, line: &str, line_num: usize) -> (r: Result<(), EditParseError>)
        requires
            old(self)@.state == EpState::Start,
        ensures
            match ep_step_trimmed(old(self)@, line@, line_num as nat) {
                Ok(st2) => r is Ok && final(self)@ == st2,
                Err(e) => r matches Err(ex) && ep_err_matches(ex, e) && final(self)@ == old(
                    self,
                )@,
            },
    {
        if str_starts_with(line, "<<<<<<< SEARCH") {
            self.current_search = Vec::new();
            self.state = EpState::InSearch;
            proof {
                assert(self@.cur_search =~= Seq::<Seq<char>>::empty());
                assert(self@ =~= (EpV {
                    state: EpState::InSearch,
                    cur_search: Seq::empty(),
                    ..old(self)@
                }));
            }
            Ok(())
        } else if str_starts_with(line, "<<<<<<<") {
            Err(EditParseError::MalformedLine { line_number: line_num, line: line.to_owned() })
        } else if !line.is_empty() {
            Err(EditParseError::ExpectedSearchStart)
        } else {
            Ok(())
        }
    }

    fn handle_search(&mut self, line: &str, _line_num: usize) -> (r: Result<(), EditParseError>)
        requires
            old(self)@.state == EpState::InSearch,
        ensures
            match ep_step_trimmed(old(self)@, line@, _line_num as nat) {
                Ok(st2) => r is Ok && final(self)@ == st2,
                Err(e) => r matches Err(ex) && ep_err_matches(ex, e) && final(self)@ == old(
                    self,
                )@,
            },
    {
        if str_starts_with(line, "=======") {
            self.state = EpState::InReplace;
            proof {
                assert(self@ =~= (EpV { state: EpState::InReplace, ..old(self)@ }));
            }
            Ok(())
        } else if str_starts_with(line, ">>>>>>> DELETE") {
            let ghost pre = self@;
            let mut search: Vec<String> = Vec::new();
            core::mem::swap(&mut search, &mut self.current_search);
            self.edits.push(
                EditBlock { search, replacement: Vec::new(), operation: EditOperation::Delete },
            );
            self.current_replace = Vec::new();
            self.state = EpState::Start;
            proof {
                assert(self@.edits =~= pre.edits.push(self.edits@.last()@));
                assert(self.edits@.last()@ =~= (EditBlockV {
                    search: pre.cur_search,
                    replacement: Seq::empty(),
                    operation: EditOperation::Delete,
                }));
                assert(self@.cur_search =~= Seq::<Seq<char>>::empty());
                assert(self@.cur_replace =~= Seq::<Seq<char>>::empty());
            }
            Ok(())
        } else {
            let ghost pre = self@;
            self.current_search.push(line.to_owned());
            proof {
                assert(self@.cur_search =~= pre.cur_search.push(line@));
                assert(self@ =~= (EpV { cur_search: pre.cur_search.push(line@), ..pre }));
            }
            Ok(())
        }
    }

    fn handle_replace(&mut self, line: &str, _line_num: usize) -> (r: Result<(), EditParseError>)
        requires
            old(self)@.state == EpState::InReplace,
        ensures
            match ep_step_trimmed(old(self)@, line@, _line_num as nat) {
                Ok(st2) => r is Ok && final(self)@ == st2,
                Err(e) => r matches Err(ex) && ep_err_matches(ex, e) && final(self)@ == old(
                    self,
                )@,
            },
    {
        if str_starts_with(line, ">>>>>>> REPLACE") || str_starts_with(line, ">>>>>>> INSERT") {
            let ghost pre = self@;
            let mut search: Vec<String> = Vec::new();
            core::mem::swap(&mut search, &mut self.current_search);
            let mut replacement: Vec<String> = Vec::new();
            core::mem::swap(&mut replacement, &mut self.current_replace);
            self.edits.push(
                EditBlock { search, replacement, operation: EditOperation::Replace },
            );
            self.state = EpState::Start;
            proof {
                assert(self@.edits =~= pre.edits.push(self.edits@.last()@));
                assert(self.edits@.last()@ =~= (EditBlockV {
                    search: pre.cur_search,
                    replacement: pre.cur_replace,
                    operation: EditOperation::Replace,
                }));
                assert(self@.cur_search =~= Seq::<Seq<char>>::empty());
                assert(self@.cur_replace =~= Seq::<Seq<char>>::empty());
            }
            Ok(())
        } else {
            let ghost pre = self@;
            self.current_replace.push(line.to_owned());
            proof {
                assert(self@.cur_replace =~= pre.cur_replace.push(line@));
                assert(self@ =~= (EpV { cur_replace: pre.cur_replace.push(line@), ..pre }));
            }
            Ok(())
        }
    }

    fn finish(self) -> (r: Result<Vec<EditBlock>, EditParseError>)
        ensures
            match ep_finish(self@) {
                Ok(bs) => r matches Ok(v) && v@.map_values(|b: EditBlock| b@) == bs,
                Err(e) => r matches Err(ex) && ep_err_matches(ex, e),
            },
    {
        let ghost st = self@;
        if !matches!(self.state, EpState::Start) {
            return Err(EditParseError::UnterminatedBlock);
        }
        let n = self.edits.len();
        let mut out: Vec<EditBlock> = Vec::new();
        let mut i: usize = 0;
        proof {
            assert(out@.map_values(|b: EditBlock| b@) =~= st.edits.take(0).map_values(
                |b: EditBlockV| ep_finalize_block(b),
            ));
        }
        while i < n
            invariant
                0 <= i <= n,
                n == self.edits@.len(),
                st == self@,
                st.state == EpState::Start,
                forall|k: int|
                    0 <= k < i ==> !((#[trigger] st.edits[k]).search.len() == 0
                        && st.edits[k].replacement.len() == 0),
                out@.map_values(|b: EditBlock| b@) == st.edits.take(i as int).map_values(
                    |b: EditBlockV| ep_finalize_block(b),
                ),
            decreases n - i,
        {
            let ghost pre = out@.map_values(|b: EditBlock| b@);
            let edit = &self.edits[i];
            if edit.search.len() == 0 && edit.replacement.len() == 0 {
                return Err(EditParseError::EmptyBlock);
            }
            let operation = if matches!(edit.operation, EditOperation::Replace)
                && edit.search.len() == 0 && edit.replacement.len() > 0 {
                EditOperation::Insert
            } else {
                edit.operation
            };
            out.push(
                EditBlock {
                    search: clone_string_vec(&edit.search),
                    replacement: clone_string_vec(&edit.replacement),
                    operation,
                },
            );
            proof {
                assert(out@.last()@ =~= ep_finalize_block(st.edits[i as int]));
                assert(out@.map_values(|b: EditBlock| b@) =~= pre.push(out@.last()@));
                assert(st.edits.take(i + 1).map_values(|b: EditBlockV| ep_finalize_block(b))
                    =~= st.edits.take(i as int).map_values(
                    |b: EditBlockV| ep_finalize_block(b),
                ).push(ep_finalize_block(st.edits[i as int])));
            }
            i = i + 1;
        }
        proof {
            assert(st.edits.take(n as int) =~= st.edits);
        }
        Ok(out)
    }
}

impl EditRef {
    /// Parses a file body as an edit program: a sequence of
    /// SEARCH/REPLACE, SEARCH/DELETE and insert blocks.
    pub fn parse_content(content: &str) -> (r: Result<Vec<EditBlock>, EditParseError>)
        ensures
            edit_parse_matches(content@, r),
    {
        let ghost lv = spec_lines(content@);
        let mut parser = EditParser::new();
        let lines = split_lines(content);
        let n = lines.len();
        let mut i: usize = 0;
        while i < n
            invariant
                0 <= i <= n,
                n == lines@.len(),
                lv == spec_lines(content@),
                lines.deep_view() == lv,
                ep_run_from(lv, 0, ep_init()) == ep_run_from(lv, i as nat, parser@),
            decreases n - i,
        {
            let ghost pre = parser@;
            let li = lines[i].as_str();
            proof {
                assert(lines.deep_view()[i as int] == lines@[i as int]@);
            }
            match parser.parse_line(li, i + 1) {
                Ok(()) => {},
                Err(ex) => {
                    proof {
                        assert(ep_run_from(lv, i as nat, pre) == ep_step(
                            pre,
                            lv[i as int],
                            (i + 1) as nat,
                        ));
                    }
                    return Err(ex);
                },
            }
            proof {
                assert(ep_run_from(lv, i as nat, pre) == ep_run_from(lv, (i + 1) as nat, parser@));
            }
            i = i + 1;
        }
        parser.finish()
    }
}

/// The finishing step of parsing: demand the machine is outside a block,
/// refuse both-empty blocks, retag inserts.
pub open spec fn ep_finish(st: EpV) -> Result<Seq<EditBlockV>, EpErrV> {
    if st.state != EpState::Start {
        Err(EpErrV::Unterminated)
    } else if exists|k: int|
        0 <= k < st.edits.len() && (#[trigger] st.edits[k]).search.len() == 0
            && st.edits[k].replacement.len() == 0 {
        Err(EpErrV::Empty)
    } else {
        Ok(st.edits.map_values(|b: EditBlockV| ep_finalize_block(b)))
    }
}

} // verus!
