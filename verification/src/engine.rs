//! The all-in-one evaluator: it owns a tape across evaluations, takes the
//! program and its input as text, and returns the collected output as text.

use vstd::prelude::*;
use vstd::string::StrSliceExecFns;

use crate::errors::{EvalError, RuntimeError};
use crate::interpreter::{eval_lines, machine_state};
use crate::parser::{parse, push_char};
use crate::semantics::{run_seq, Outcome, State};
use crate::syntax::spec_parse;
use crate::tape::{Snapshot, Tape};

verus! {

broadcast use vstd::seq::group_seq_axioms, vstd::std_specs::vec::group_vec_axioms;

/// A cursor given as a signed number, wrapped to the pointer width.
pub open spec fn signed_cursor(p: isize) -> usize {
    ((p as int) % (usize::MAX + 1)) as usize
}

/// The input bytes that a text stands for: each character truncated to its
/// low byte, as the input instruction stores single bytes.
pub open spec fn input_bytes(s: Seq<char>) -> Seq<u8> {
    Seq::new(s.len(), |i: int| (s[i] as u32 % 256) as u8)
}

/// The text that an output byte sequence prints as: each byte read as one
/// character.
pub open spec fn output_chars(b: Seq<u8>) -> Seq<char> {
    Seq::new(b.len(), |i: int| b[i] as char)
}

/// An engine: a tape that lives across whole-program evaluations.
#[derive(Debug)]
pub struct Engine {
    pub tape: Tape,
}

impl Engine {
    /// A fresh engine over the given tape contents; a negative cursor wraps
    /// at the pointer width.
    pub fn new(pointer: isize, buffer: Vec<u8>) -> (r: Engine)
        ensures
            r.tape.pointer == signed_cursor(pointer),
            r.tape.buffer@ == buffer@,
    {
        let ghost rr = usize::MAX + 1;
        let p: usize = if pointer >= 0 {
            proof {
                vstd::arithmetic::div_mod::lemma_small_mod(pointer as nat, rr as nat);
            }
            pointer as usize
        } else {
            proof {
                vstd::arithmetic::div_mod::lemma_mod_multiples_vanish(1, pointer as int, rr);
                vstd::arithmetic::div_mod::lemma_small_mod((pointer + rr) as nat, rr as nat);
            }
            usize::MAX - ((-(pointer + 1)) as usize)
        };
        Engine { tape: Tape::new(p, buffer) }
    }

    /// Parse `s` and evaluate it against this engine's tape, reading input
    /// bytes from `stdin` and collecting output, with a loop budget of
    /// `u64::MAX` passes per loop. On a parse failure the tape is untouched;
    /// on a runtime failure the tape keeps the state it failed in, and the
    /// output gathered until then is dropped with the error. Diagnostic
    /// dumps are discarded here: an `Interpreter` keeps them.
    pub fn eval(&mut self, s: &str, stdin: &str) -> (r: Result<String, EvalError>)
        ensures
            match spec_parse(s@) {
                Err(e) => r == Err::<String, EvalError>(EvalError::Syntax(e))
                    && final(self).tape.pointer == old(self).tape.pointer
                    && final(self).tape.buffer@ == old(self).tape.buffer@,
                Ok(prog) => ({
                    let st0 = State {
                        pointer: old(self).tape.pointer,
                        cells: old(self).tape.buffer@,
                        input: input_bytes(stdin@),
                        output: Seq::empty(),
                        dumps: Seq::empty(),
                    };
                    match run_seq(prog, st0, u64::MAX as nat) {
                        None => r == Err::<String, EvalError>(
                            EvalError::Runtime(RuntimeError::StepLimit),
                        ),
                        Some(Outcome::Done(st1)) => match r {
                            Ok(out) => out@ == output_chars(st1.output)
                                && final(self).tape.pointer == st1.pointer
                                && final(self).tape.buffer@ == st1.cells,
                            Err(_) => false,
                        },
                        Some(Outcome::Fail(st1, e)) => r == Err::<String, EvalError>(
                            EvalError::Runtime(e),
                        ) && final(self).tape.pointer == st1.pointer && final(self).tape.buffer@
                            == st1.cells,
                    }
                }),
            },
    {
        let prog = match parse(s) {
            Err(e) => {
                return Err(EvalError::Syntax(e));
            },
            Ok(p) => p,
        };
        let n = stdin.unicode_len();
        let mut input: Vec<u8> = Vec::new();
        let mut i: usize = 0;
        while i < n
            invariant
                i <= n,
                n == stdin@.len(),
                input@ == input_bytes(stdin@.take(i as int)),
            decreases n - i,
        {
            let c = stdin.get_char(i);
            let u = c as u32;
            input.push((u % 256) as u8);
            proof {
                assert(input@ =~= input_bytes(stdin@.take(i as int + 1)));
            }
            i = i + 1;
        }
        proof {
            assert(stdin@.take(n as int) =~= stdin@);
        }
        let mut output: Vec<u8> = Vec::new();
        let mut dumps: Vec<Snapshot> = Vec::new();
        let ghost st0 = State {
            pointer: self.tape.pointer,
            cells: self.tape.buffer@,
            input: input_bytes(stdin@),
            output: Seq::empty(),
            dumps: Seq::empty(),
        };
        proof {
            assert(prog@.skip(0) =~= prog@);
            assert(machine_state(self.tape, input@, output@, dumps@) =~= st0);
        }
        let res = eval_lines(
            &prog,
            0,
            &mut self.tape,
            &mut input,
            &mut output,
            &mut dumps,
            u64::MAX,
        );
        match res {
            Err(e) => Err(EvalError::Runtime(e)),
            Ok(()) => {
                let m = output.len();
                let mut out = String::new();
                let mut j: usize = 0;
                while j < m
                    invariant
                        j <= m,
                        m == output@.len(),
                        out@ == output_chars(output@.take(j as int)),
                    decreases m - j,
                {
                    let b = output[j];
                    push_char(&mut out, b as char);
                    proof {
                        assert(out@ =~= output_chars(output@.take(j as int + 1)));
                    }
                    j = j + 1;
                }
                proof {
                    assert(output@.take(m as int) =~= output@);
                }
                Ok(out)
            },
        }
    }
}

} // verus!
