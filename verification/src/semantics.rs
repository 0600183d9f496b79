//! The language's operational semantics: a fuel-indexed big-step evaluation
//! of the spec-level instruction tree over a whole machine state. The fuel
//! bounds how many passes any single loop may make; `None` means it ran out.
//! The executable evaluator is proved to return exactly what these functions
//! yield for its loop budget.

use vstd::prelude::*;

use crate::errors::RuntimeError;
use crate::syntax::{node_size, seq_size, AstView};
use crate::tape::{cell_add, cursor_add, dump_view};

verus! {

broadcast use vstd::seq::group_seq_axioms;

/// Everything an evaluation step can read or change: the tape's cursor and
/// cells, what remains of the input, the output so far, and the diagnostic
/// dumps so far (each a cursor with the trimmed tape view it reported).
#[verifier::ext_equal]
pub struct State {
    pub pointer: usize,
    pub cells: Seq<u8>,
    pub input: Seq<u8>,
    pub output: Seq<u8>,
    pub dumps: Seq<(usize, Seq<u8>)>,
}

/// How an evaluation ends when its fuel suffices: the final state, alone on
/// success, or beside the error that stopped everything. A failing run keeps
/// its state: output already appended stays visible.
pub enum Outcome {
    Done(State),
    Fail(State, RuntimeError),
}

/// The cursor lies inside the cells, so the current cell exists.
pub open spec fn in_range(st: State) -> bool {
    st.pointer < st.cells.len()
}

/// The cell under the cursor.
pub open spec fn cur_cell(st: State) -> u8 {
    st.cells[st.pointer as int]
}

/// Evaluate one node. A loop re-evaluates its body while the cell under the
/// cursor is nonzero, spending one fuel per pass.
pub open spec fn run_node(n: AstView, st: State, fuel: nat) -> Option<Outcome>
    decreases fuel, node_size(n),
{
    match n {
        AstView::AddVal(d) => Some(
            if in_range(st) {
                Outcome::Done(
                    State {
                        cells: st.cells.update(
                            st.pointer as int,
                            cell_add(cur_cell(st), d),
                        ),
                        ..st
                    },
                )
            } else {
                Outcome::Fail(st, RuntimeError::OutOfRange)
            },
        ),
        AstView::AddPtr(d) => Some(
            Outcome::Done(State { pointer: cursor_add(st.pointer, d), ..st }),
        ),
        AstView::PutChar => Some(
            if in_range(st) {
                Outcome::Done(State { output: st.output.push(cur_cell(st)), ..st })
            } else {
                Outcome::Fail(st, RuntimeError::OutOfRange)
            },
        ),
        AstView::GetChar => Some(
            if st.input.len() == 0 {
                Outcome::Fail(st, RuntimeError::InputExhausted)
            } else {
                let st2 = State { input: st.input.drop_first(), ..st };
                if in_range(st) {
                    Outcome::Done(
                        State {
                            cells: st.cells.update(st.pointer as int, st.input[0]),
                            ..st2
                        },
                    )
                } else {
                    Outcome::Fail(st2, RuntimeError::OutOfRange)
                }
            },
        ),
        AstView::CoreDump => Some(
            Outcome::Done(
                State { dumps: st.dumps.push((st.pointer, dump_view(st.cells))), ..st },
            ),
        ),
        AstView::Loop(body) => {
            if !in_range(st) {
                Some(Outcome::Fail(st, RuntimeError::OutOfRange))
            } else if cur_cell(st) == 0 {
                Some(Outcome::Done(st))
            } else if fuel == 0 {
                None
            } else {
                match run_seq(body, st, fuel) {
                    None => None,
                    Some(Outcome::Fail(st2, e)) => Some(Outcome::Fail(st2, e)),
                    Some(Outcome::Done(st2)) => run_node(n, st2, (fuel - 1) as nat),
                }
            }
        },
    }
}

/// Evaluate a node sequence in order, stopping at the first failure.
pub open spec fn run_seq(p: Seq<AstView>, st: State, fuel: nat) -> Option<Outcome>
    decreases fuel, seq_size(p),
{
    if p.len() == 0 {
        Some(Outcome::Done(st))
    } else {
        match run_node(p[0], st, fuel) {
            None => None,
            Some(Outcome::Fail(st2, e)) => Some(Outcome::Fail(st2, e)),
            Some(Outcome::Done(st2)) => run_seq(p.drop_first(), st2, fuel),
        }
    }
}

} // verus!
