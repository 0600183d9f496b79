//! The executable evaluator: it walks an instruction tree against a tape, an
//! input stream and an output stream, recording diagnostic dumps on the side,
//! and returns exactly what the fuel-indexed semantics in `semantics` yields
//! for its loop budget of `u64::MAX` passes per loop.

use vstd::prelude::*;

use crate::errors::{EvalError, RuntimeError};
use crate::parser::{parse, Ast};
use crate::semantics::{cur_cell, run_node, run_seq, Outcome, State};
use crate::syntax::{
    ast_view, lemma_prog_view, node_size, prog_view, seq_size, spec_parse, AstView,
};
use crate::tape::{dump_view, Snapshot, Tape, CAPACITY};

verus! {

broadcast use vstd::seq::group_seq_axioms, vstd::std_specs::vec::group_vec_axioms;

/// The spec-level view of a recorded dump sequence.
pub open spec fn dumps_view(d: Seq<Snapshot>) -> Seq<(usize, Seq<u8>)> {
    Seq::new(d.len(), |i: int| (d[i].pointer, d[i].cells@))
}

/// The machine state that a tape and the three streams stand for.
pub open spec fn machine_state(
    tape: Tape,
    input: Seq<u8>,
    output: Seq<u8>,
    dumps: Seq<Snapshot>,
) -> State {
    State {
        pointer: tape.pointer,
        cells: tape.buffer@,
        input,
        output,
        dumps: dumps_view(dumps),
    }
}

/// Evaluate one node against the tape and streams, with `fuel` passes
/// allowed per loop.
pub(crate) fn eval_token(
    token: &Ast,
    tape: &mut Tape,
    input: &mut Vec<u8>,
    output: &mut Vec<u8>,
    dumps: &mut Vec<Snapshot>,
    fuel: u64,
) -> (r: Result<(), RuntimeError>)
    ensures
        match r {
            Ok(()) => run_node(
                ast_view(*token),
                machine_state(*old(tape), old(input)@, old(output)@, old(dumps)@),
                fuel as nat,
            ) == Some(
                Outcome::Done(machine_state(*final(tape), final(input)@, final(output)@, final(dumps)@)),
            ),
            Err(RuntimeError::StepLimit) => run_node(
                ast_view(*token),
                machine_state(*old(tape), old(input)@, old(output)@, old(dumps)@),
                fuel as nat,
            ) == None::<Outcome>,
            Err(e) => run_node(
                ast_view(*token),
                machine_state(*old(tape), old(input)@, old(output)@, old(dumps)@),
                fuel as nat,
            ) == Some(
                Outcome::Fail(
                    machine_state(*final(tape), final(input)@, final(output)@, final(dumps)@),
                    e,
                ),
            ),
        },
    decreases fuel, node_size(ast_view(*token)),
{
    let ghost st0 = machine_state(*tape, input@, output@, dumps@);
    match token {
        Ast::AddPtr(n) => {
            tape.add_ptr(*n);
            proof {
                assert(machine_state(*tape, input@, output@, dumps@) =~= (State {
                    pointer: final(tape).pointer,
                    ..st0
                }));
            }
            Ok(())
        },
        Ast::AddVal(n) => {
            if tape.pointer < tape.buffer.len() {
                tape.add_val(*n);
                proof {
                    assert(machine_state(*tape, input@, output@, dumps@) =~= (State {
                        cells: st0.cells.update(
                            st0.pointer as int,
                            crate::tape::cell_add(cur_cell(st0), *n as int),
                        ),
                        ..st0
                    }));
                }
                Ok(())
            } else {
                proof {
                    assert(machine_state(*tape, input@, output@, dumps@) =~= st0);
                }
                Err(RuntimeError::OutOfRange)
            }
        },
        Ast::PutChar => {
            if tape.pointer < tape.buffer.len() {
                let c = tape.get_char();
                output.push(c);
                proof {
                    assert(machine_state(*tape, input@, output@, dumps@) =~= (State {
                        output: st0.output.push(cur_cell(st0)),
                        ..st0
                    }));
                }
                Ok(())
            } else {
                proof {
                    assert(machine_state(*tape, input@, output@, dumps@) =~= st0);
                }
                Err(RuntimeError::OutOfRange)
            }
        },
        Ast::GetChar => {
            if input.len() == 0 {
                proof {
                    assert(machine_state(*tape, input@, output@, dumps@) =~= st0);
                }
                Err(RuntimeError::InputExhausted)
            } else {
                let b = input.remove(0);
                proof {
                    assert(input@ =~= st0.input.drop_first());
                }
                if tape.pointer < tape.buffer.len() {
                    tape.put_char(b);
                    proof {
                        assert(machine_state(*tape, input@, output@, dumps@) =~= (State {
                            cells: st0.cells.update(st0.pointer as int, st0.input[0]),
                            input: st0.input.drop_first(),
                            ..st0
                        }));
                    }
                    Ok(())
                } else {
                    proof {
                        assert(machine_state(*tape, input@, output@, dumps@) =~= (State {
                            input: st0.input.drop_first(),
                            ..st0
                        }));
                    }
                    Err(RuntimeError::OutOfRange)
                }
            }
        },
        Ast::CoreDump => {
            let snap = tape.snapshot();
            dumps.push(snap);
            proof {
                assert(machine_state(*tape, input@, output@, dumps@) =~= (State {
                    dumps: st0.dumps.push((st0.pointer, dump_view(st0.cells))),
                    ..st0
                }));
            }
            Ok(())
        },
        Ast::Loop(body) => {
            if !(tape.pointer < tape.buffer.len()) {
                proof {
                    assert(machine_state(*tape, input@, output@, dumps@) =~= st0);
                }
                return Err(RuntimeError::OutOfRange);
            }
            let c = tape.get_char();
            if c == 0 {
                proof {
                    assert(machine_state(*tape, input@, output@, dumps@) =~= st0);
                }
                return Ok(());
            }
            if fuel == 0 {
                return Err(RuntimeError::StepLimit);
            }
            proof {
                assert(body@.skip(0) =~= body@);
            }
            match eval_lines(body, 0, tape, input, output, dumps, fuel) {
                Err(e) => Err(e),
                Ok(()) => eval_token(token, tape, input, output, dumps, fuel - 1),
            }
        },
    }
}

/// Evaluate the nodes of `tokens[k ..]` in order, with `fuel` passes allowed
/// per loop.
pub(crate) fn eval_lines(
    tokens: &Vec<Ast>,
    k: usize,
    tape: &mut Tape,
    input: &mut Vec<u8>,
    output: &mut Vec<u8>,
    dumps: &mut Vec<Snapshot>,
    fuel: u64,
) -> (r: Result<(), RuntimeError>)
    requires
        k <= tokens@.len(),
    ensures
        match r {
            Ok(()) => run_seq(
                prog_view(tokens@.skip(k as int)),
                machine_state(*old(tape), old(input)@, old(output)@, old(dumps)@),
                fuel as nat,
            ) == Some(
                Outcome::Done(machine_state(*final(tape), final(input)@, final(output)@, final(dumps)@)),
            ),
            Err(RuntimeError::StepLimit) => run_seq(
                prog_view(tokens@.skip(k as int)),
                machine_state(*old(tape), old(input)@, old(output)@, old(dumps)@),
                fuel as nat,
            ) == None::<Outcome>,
            Err(e) => run_seq(
                prog_view(tokens@.skip(k as int)),
                machine_state(*old(tape), old(input)@, old(output)@, old(dumps)@),
                fuel as nat,
            ) == Some(
                Outcome::Fail(
                    machine_state(*final(tape), final(input)@, final(output)@, final(dumps)@),
                    e,
                ),
            ),
        },
    decreases fuel, seq_size(prog_view(tokens@.skip(k as int))),
{
    if k == tokens.len() {
        proof {
            assert(prog_view(tokens@.skip(k as int)) =~= Seq::<AstView>::empty());
        }
        return Ok(());
    }
    let ghost pv = prog_view(tokens@.skip(k as int));
    proof {
        lemma_prog_view(tokens@.skip(k as int));
        lemma_prog_view(tokens@.skip(k as int + 1));
        assert(pv[0] == ast_view(tokens@[k as int]));
        assert(pv.drop_first() =~= prog_view(tokens@.skip(k as int + 1)));
        assert(seq_size(pv) == 1 + node_size(pv[0]) + seq_size(pv.drop_first()));
    }
    let t: &Ast = &tokens[k];
    match eval_token(t, tape, input, output, dumps, fuel) {
        Err(e) => Err(e),
        Ok(()) => eval_lines(tokens, k + 1, tape, input, output, dumps, fuel),
    }
}

/// An interpreter: a tape, the remaining input bytes, the output collected
/// so far, and the diagnostic dumps collected so far.
#[derive(Debug)]
pub struct Interpreter {
    pub tape: Tape,
    pub stdin: Vec<u8>,
    pub stdout: Vec<u8>,
    pub dumps: Vec<Snapshot>,
}

impl Interpreter {
    /// The machine state this interpreter stands for.
    pub open spec fn state(&self) -> State {
        machine_state(self.tape, self.stdin@, self.stdout@, self.dumps@)
    }

    /// A fresh interpreter over the given tape contents, with an empty
    /// input stream and nothing yet written or dumped.
    pub fn new(pointer: usize, buffer: Vec<u8>) -> (r: Interpreter)
        ensures
            r.tape.pointer == pointer,
            r.tape.buffer@ == buffer@,
            r.stdin@ == Seq::<u8>::empty(),
            r.stdout@ == Seq::<u8>::empty(),
            r.dumps@ == Seq::<Snapshot>::empty(),
    {
        Interpreter {
            tape: Tape::new(pointer, buffer),
            stdin: Vec::new(),
            stdout: Vec::new(),
            dumps: Vec::new(),
        }
    }

    /// The same interpreter with the given bytes as its input stream.
    pub fn stdin(self, stdin: &[u8]) -> (r: Interpreter)
        ensures
            r.stdin@ == stdin@,
            r.tape == self.tape,
            r.stdout == self.stdout,
            r.dumps == self.dumps,
    {
        Interpreter { stdin: vstd::slice::slice_to_vec(stdin), ..self }
    }

    /// The output collected so far.
    pub fn stdout(&self) -> (r: &[u8])
        ensures
            r@ == self.stdout@,
    {
        self.stdout.as_slice()
    }

    /// The diagnostic dumps collected so far.
    pub fn dumps(&self) -> (r: &Vec<Snapshot>)
        ensures
            r@ == self.dumps@,
    {
        &self.dumps
    }

    /// Parse `s` and evaluate it against this interpreter's tape and
    /// streams, with a loop budget of `u64::MAX` passes per loop. On a parse
    /// failure nothing changes; on a runtime failure everything already
    /// written stays.
    pub fn eval(&mut self, s: &str) -> (r: Result<(), EvalError>)
        ensures
            match spec_parse(s@) {
                Err(e) => r == Err::<(), EvalError>(EvalError::Syntax(e)) && final(self).state()
                    == old(self).state(),
                Ok(prog) => match r {
                    Ok(()) => run_seq(prog, old(self).state(), u64::MAX as nat) == Some(
                        Outcome::Done(final(self).state()),
                    ),
                    Err(EvalError::Runtime(RuntimeError::StepLimit)) => run_seq(
                        prog,
                        old(self).state(),
                        u64::MAX as nat,
                    ) == None::<Outcome>,
                    Err(EvalError::Runtime(e)) => run_seq(prog, old(self).state(), u64::MAX as nat)
                        == Some(Outcome::Fail(final(self).state(), e)),
                    Err(EvalError::Syntax(_)) => false,
                },
            },
    {
        let prog = match parse(s) {
            Err(e) => {
                return Err(EvalError::Syntax(e));
            },
            Ok(p) => p,
        };
        proof {
            assert(prog@.skip(0) =~= prog@);
        }
        let res = eval_lines(
            &prog,
            0,
            &mut self.tape,
            &mut self.stdin,
            &mut self.stdout,
            &mut self.dumps,
            u64::MAX,
        );
        match res {
            Ok(()) => Ok(()),
            Err(e) => Err(EvalError::Runtime(e)),
        }
    }
}

impl Default for Interpreter {
    /// A fresh interpreter over a zero-filled tape of the default capacity.
    fn default() -> (r: Interpreter)
        ensures
            r.tape.pointer == 0,
            r.tape.buffer@ == Seq::new(CAPACITY as nat, |i: int| 0u8),
            r.stdin@ == Seq::<u8>::empty(),
            r.stdout@ == Seq::<u8>::empty(),
            r.dumps@ == Seq::<Snapshot>::empty(),
    {
        Interpreter {
            tape: Tape::default(),
            stdin: Vec::new(),
            stdout: Vec::new(),
            dumps: Vec::new(),
        }
    }
}

} // verus!
