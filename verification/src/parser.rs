//! Reading program text: a tokenizer that folds decimal repeat counts into
//! the four counted symbols, and a builder that nests the flat token sequence
//! into an instruction tree by matching brackets. Both are proved against the
//! spec-level model in `syntax`.

use vstd::prelude::*;
use vstd::string::StrSliceExecFns;

use crate::errors::ParseError;
use crate::syntax::{
    all_digits, ast_view, count_of, digits_val, find_close, is_digit_char, lemma_count_of_nonneg,
    digits_of, lemma_digits_val_prefix, lemma_prog_view, lemma_prog_view_push, lex_from,
    lex_init, lex_step, node_of_token, node_size, prog_view, render_node, render_prog, seq_size,
    spec_build, spec_build_range, spec_parse, spec_tokenize, AstView, LexState,
};

verus! {

broadcast use vstd::seq::group_seq_axioms, vstd::std_specs::vec::group_vec_axioms;

/// One lexical token. The four counted symbols carry a signed repeat count:
/// `>` and `+` a nonnegative one, `<` and `-` a nonpositive one.
#[derive(Debug, Clone, Copy, PartialEq, Eq)]
pub enum Token {
    /// `+` or `-` with its folded count.
    AddVal(isize),
    /// `>` or `<` with its folded count.
    AddPtr(isize),
    /// `.`
    PutChar,
    /// `,`
    GetChar,
    /// `[`
    JumpForward,
    /// `]`
    JumpBackward,
    /// `?`
    CoreDump,
}

/// One node of the instruction tree. A loop owns its body outright, so
/// bracket matching is settled at build time once and for all.
#[derive(Debug, PartialEq, Eq)]
pub enum Ast {
    /// Add a signed delta to the cell under the cursor, modulo 256.
    AddVal(isize),
    /// Move the cursor by a signed delta, wrapping at the pointer width.
    AddPtr(isize),
    /// Append the cell under the cursor to the output stream.
    PutChar,
    /// Pull one byte from the input stream into the cell under the cursor.
    GetChar,
    /// Report a diagnostic snapshot of the tape.
    CoreDump,
    /// Re-evaluate the body while the cell under the cursor is nonzero.
    Loop(Vec<Ast>),
}

/// Relies on `String::push`: appends exactly the one character.
#[verifier::external_body]
pub(crate) fn push_char(s: &mut String, c: char)
    ensures
        final(s)@ == old(s)@.push(c),
{
    s.push(c);
}

/// Turn a buffered digit run into a repeat count and clear the buffer:
/// 1 for an empty run, the run's value when it fits the count's width, and
/// `InvalidCount` otherwise (the buffer is then left alone).
pub fn parse_to_int(s: &mut String) -> (r: Result<isize, ParseError>)
    ensures
        match r {
            Ok(n) => count_of(old(s)@) == Ok::<isize, ParseError>(n)
                && final(s)@ == Seq::<char>::empty(),
            Err(e) => count_of(old(s)@) == Err::<isize, ParseError>(e) && final(s)@ == old(s)@,
        },
{
    let len = s.as_str().unicode_len();
    let mut acc: usize = 0;
    let mut i: usize = 0;
    while i < len
        invariant
            i <= len,
            len == s@.len(),
            s@ == old(s)@,
            all_digits(s@.take(i as int)),
            acc <= isize::MAX as usize,
            acc == digits_val(s@.take(i as int)),
        decreases len - i,
    {
        let c = s.as_str().get_char(i);
        let u = c as u32;
        if u < 48 || u > 57 {
            proof {
                assert(!is_digit_char(s@[i as int]));
                assert(!all_digits(s@));
            }
            return Err(ParseError::InvalidCount);
        }
        let d: usize = (u - 48) as usize;
        let limit: usize = (isize::MAX as usize - d) / 10;
        proof {
            let m = isize::MAX as int;
            let dd = d as int;
            vstd::arithmetic::div_mod::lemma_fundamental_div_mod(m - dd, 10);
            assert(s@.take(i + 1).drop_last() =~= s@.take(i as int));
            assert(s@.take(i + 1).last() == s@[i as int]);
            assert(forall|j: int| 0 <= j < i + 1 ==> is_digit_char(#[trigger] s@.take(i + 1)[j]));
        }
        if acc > limit {
            proof {
                assert(digits_val(s@.take(i + 1)) > isize::MAX);
                if all_digits(s@) {
                    lemma_digits_val_prefix(s@, i + 1);
                }
            }
            return Err(ParseError::InvalidCount);
        }
        acc = acc * 10 + d;
        i = i + 1;
    }
    proof {
        assert(s@.take(len as int) =~= s@);
    }
    let r: usize = if len == 0 {
        1
    } else {
        acc
    };
    *s = String::new();
    Ok(r as isize)
}

/// Turn program text into the flat token sequence: comments and foreign
/// characters fall away, a decimal digit run folds into the repeat count of
/// the next `>` `<` `+` or `-`, and the other five symbols pass through.
pub fn tokenize(s: &str) -> (r: Result<Vec<Token>, ParseError>)
    ensures
        match r {
            Ok(v) => spec_tokenize(s@) == Ok::<Seq<Token>, ParseError>(v@),
            Err(e) => spec_tokenize(s@) == Err::<Seq<Token>, ParseError>(e),
        },
{
    let len = s.unicode_len();
    let mut result: Vec<Token> = Vec::new();
    let mut buf = String::new();
    let mut in_comment = false;
    let mut i: usize = 0;
    proof {
        assert(s@.skip(0) =~= s@);
    }
    while i < len
        invariant
            i <= len,
            len == s@.len(),
            lex_from(s@, lex_init()) == lex_from(
                s@.skip(i as int),
                LexState { tokens: result@, digits: buf@, in_comment },
            ),
        decreases len - i,
    {
        let ghost st0 = LexState { tokens: result@, digits: buf@, in_comment };
        let c = s.get_char(i);
        proof {
            assert(s@.skip(i as int)[0] == s@[i as int]);
            assert(s@.skip(i as int).drop_first() =~= s@.skip(i as int + 1));
        }
        let u = c as u32;
        if in_comment {
            if c == '\n' {
                in_comment = false;
            }
        } else if c == '#' {
            in_comment = true;
        } else if 48 <= u && u <= 57 {
            push_char(&mut buf, c);
        } else if c == '>' {
            match parse_to_int(&mut buf) {
                Ok(n) => result.push(Token::AddPtr(n)),
                Err(e) => {
                    proof {
                        assert(lex_from(s@.skip(i as int), st0) == Err::<LexState, ParseError>(e));
                    }
                    return Err(e);
                },
            }
        } else if c == '<' {
            match parse_to_int(&mut buf) {
                Ok(n) => {
                    proof {
                        lemma_count_of_nonneg(st0.digits);
                    }
                    result.push(Token::AddPtr(-n));
                },
                Err(e) => {
                    proof {
                        assert(lex_from(s@.skip(i as int), st0) == Err::<LexState, ParseError>(e));
                    }
                    return Err(e);
                },
            }
        } else if c == '+' {
            match parse_to_int(&mut buf) {
                Ok(n) => result.push(Token::AddVal(n)),
                Err(e) => {
                    proof {
                        assert(lex_from(s@.skip(i as int), st0) == Err::<LexState, ParseError>(e));
                    }
                    return Err(e);
                },
            }
        } else if c == '-' {
            match parse_to_int(&mut buf) {
                Ok(n) => {
                    proof {
                        lemma_count_of_nonneg(st0.digits);
                    }
                    result.push(Token::AddVal(-n));
                },
                Err(e) => {
                    proof {
                        assert(lex_from(s@.skip(i as int), st0) == Err::<LexState, ParseError>(e));
                    }
                    return Err(e);
                },
            }
        } else if c == '.' {
            buf = String::new();
            result.push(Token::PutChar);
        } else if c == ',' {
            buf = String::new();
            result.push(Token::GetChar);
        } else if c == '[' {
            buf = String::new();
            result.push(Token::JumpForward);
        } else if c == ']' {
            buf = String::new();
            result.push(Token::JumpBackward);
        } else if c == '?' {
            buf = String::new();
            result.push(Token::CoreDump);
        }
        proof {
            assert(lex_step(st0, s@[i as int]) == Ok::<LexState, ParseError>(
                LexState { tokens: result@, digits: buf@, in_comment },
            ));
        }
        i = i + 1;
    }
    proof {
        assert(s@.skip(len as int) =~= Seq::<char>::empty());
    }
    Ok(result)
}

/// The position of the `]` matching one already-open bracket, scanning
/// `tokens[from .. end)`.
fn scan_close(tokens: &[Token], from: usize, end: usize) -> (r: Option<usize>)
    requires
        from <= end <= tokens@.len(),
    ensures
        match r {
            Some(j) => find_close(tokens@, from as int, 1, end as int) == Some(j as int) && from
                <= j < end,
            None => find_close(tokens@, from as int, 1, end as int) == None::<int>,
        },
{
    let mut cursor = from;
    let mut nest: u128 = 1;
    while cursor < end
        invariant
            from <= cursor <= end <= tokens@.len(),
            1 <= nest <= cursor - from + 1,
            find_close(tokens@, from as int, 1, end as int) == find_close(
                tokens@,
                cursor as int,
                nest as int,
                end as int,
            ),
        decreases end - cursor,
    {
        let t = tokens[cursor];
        match t {
            Token::JumpForward => {
                nest = nest + 1;
            },
            Token::JumpBackward => {
                if nest == 1 {
                    return Some(cursor);
                }
                nest = nest - 1;
            },
            _ => {},
        }
        cursor = cursor + 1;
    }
    None
}

/// Build the instruction tree of `tokens[start .. end)`, one token at a
/// time, nesting each bracketed segment as a loop body.
fn build_range(tokens: &[Token], start: usize, end: usize) -> (r: Result<Vec<Ast>, ParseError>)
    requires
        start <= end <= tokens@.len(),
    ensures
        match r {
            Ok(v) => spec_build_range(tokens@, start as int, end as int) == Ok::<
                Seq<AstView>,
                ParseError,
            >(prog_view(v@)),
            Err(e) => spec_build_range(tokens@, start as int, end as int) == Err::<
                Seq<AstView>,
                ParseError,
            >(e),
        },
    decreases end - start,
{
    let mut result: Vec<Ast> = Vec::new();
    let mut index = start;
    proof {
        match spec_build_range(tokens@, start as int, end as int) {
            Ok(tail) => {
                assert(prog_view(result@) + tail =~= tail);
            },
            Err(e) => {},
        }
    }
    while index < end
        invariant
            start <= index <= end <= tokens@.len(),
            match spec_build_range(tokens@, index as int, end as int) {
                Ok(tail) => spec_build_range(tokens@, start as int, end as int) == Ok::<
                    Seq<AstView>,
                    ParseError,
                >(prog_view(result@) + tail),
                Err(e) => spec_build_range(tokens@, start as int, end as int) == Err::<
                    Seq<AstView>,
                    ParseError,
                >(e),
            },
        decreases end - index,
    {
        let t = tokens[index];
        match t {
            Token::JumpForward => {
                match scan_close(tokens, index + 1, end) {
                    None => {
                        proof {
                            assert(spec_build_range(tokens@, index as int, end as int) == Err::<
                                Seq<AstView>,
                                ParseError,
                            >(ParseError::UnmatchedOpen));
                        }
                        return Err(ParseError::UnmatchedOpen);
                    },
                    Some(j) => {
                        match build_range(tokens, index + 1, j) {
                            Err(e) => {
                                return Err(e);
                            },
                            Ok(body) => {
                                proof {
                                    lemma_prog_view_push(result@, Ast::Loop(body));
                                    match spec_build_range(tokens@, j + 1, end as int) {
                                        Ok(rest) => {
                                            assert(prog_view(result@).push(
                                                ast_view(Ast::Loop(body)),
                                            ) + rest =~= prog_view(result@) + (seq![
                                                AstView::Loop(prog_view(body@)),
                                            ] + rest));
                                        },
                                        Err(e) => {},
                                    }
                                }
                                result.push(Ast::Loop(body));
                                index = j + 1;
                            },
                        }
                    },
                }
            },
            Token::JumpBackward => {
                return Err(ParseError::UnmatchedClose);
            },
            _ => {
                let node = match t {
                    Token::AddVal(n) => Ast::AddVal(n),
                    Token::AddPtr(n) => Ast::AddPtr(n),
                    Token::PutChar => Ast::PutChar,
                    Token::GetChar => Ast::GetChar,
                    _ => Ast::CoreDump,
                };
                proof {
                    lemma_prog_view_push(result@, node);
                    match spec_build_range(tokens@, index + 1, end as int) {
                        Ok(rest) => {
                            assert(prog_view(result@).push(ast_view(node)) + rest =~= prog_view(
                                result@,
                            ) + (seq![node_of_token(t)] + rest));
                        },
                        Err(e) => {},
                    }
                }
                result.push(node);
                index = index + 1;
            },
        }
    }
    Ok(result)
}

/// Append the decimal digit run of `n`.
fn push_digits(out: &mut String, n: usize)
    ensures
        final(out)@ == old(out)@ + digits_of(n as int),
    decreases n,
{
    if n < 10 {
        push_char(out, (n as u8 + 48) as char);
        proof {
            assert(out@ =~= old(out)@ + digits_of(n as int));
        }
    } else {
        push_digits(out, n / 10);
        push_char(out, ((n % 10) as u8 + 48) as char);
        proof {
            assert(out@ =~= old(out)@ + digits_of(n as int));
        }
    }
}

/// Write the nodes of `prog[k ..]` back to the instruction alphabet, onto
/// the end of `out`.
fn render_from(prog: &[Ast], k: usize, out: &mut String)
    requires
        k <= prog@.len(),
    ensures
        final(out)@ == old(out)@ + render_prog(prog_view(prog@.skip(k as int))),
    decreases seq_size(prog_view(prog@.skip(k as int))),
{
    if k == prog.len() {
        proof {
            assert(prog_view(prog@.skip(k as int)) =~= Seq::<AstView>::empty());
            assert(out@ =~= out@ + render_prog(prog_view(prog@.skip(k as int))));
        }
        return ;
    }
    let ghost pv = prog_view(prog@.skip(k as int));
    let ghost out0 = out@;
    proof {
        lemma_prog_view(prog@.skip(k as int));
        lemma_prog_view(prog@.skip(k as int + 1));
        assert(pv[0] == ast_view(prog@[k as int]));
        assert(pv.drop_first() =~= prog_view(prog@.skip(k as int + 1)));
        assert(seq_size(pv) == 1 + node_size(pv[0]) + seq_size(pv.drop_first()));
    }
    let t: &Ast = &prog[k];
    match t {
        Ast::AddVal(n) => {
            if *n >= 0 {
                push_digits(out, *n as usize);
                push_char(out, '+');
            } else {
                let mag: usize = ((-(*n + 1)) as usize) + 1;
                push_digits(out, mag);
                push_char(out, '-');
            }
            proof {
                assert(out@ =~= out0 + render_node(pv[0]));
            }
        },
        Ast::AddPtr(n) => {
            if *n >= 0 {
                push_digits(out, *n as usize);
                push_char(out, '>');
            } else {
                let mag: usize = ((-(*n + 1)) as usize) + 1;
                push_digits(out, mag);
                push_char(out, '<');
            }
            proof {
                assert(out@ =~= out0 + render_node(pv[0]));
            }
        },
        Ast::PutChar => {
            push_char(out, '.');
            proof {
                assert(out@ =~= out0 + render_node(pv[0]));
            }
        },
        Ast::GetChar => {
            push_char(out, ',');
            proof {
                assert(out@ =~= out0 + render_node(pv[0]));
            }
        },
        Ast::CoreDump => {
            push_char(out, '?');
            proof {
                assert(out@ =~= out0 + render_node(pv[0]));
            }
        },
        Ast::Loop(body) => {
            push_char(out, '[');
            proof {
                assert(body@.skip(0) =~= body@);
            }
            render_from(body.as_slice(), 0, out);
            push_char(out, ']');
            proof {
                assert(out@ =~= out0 + render_node(pv[0]));
            }
        },
    }
    render_from(prog, k + 1, out);
    proof {
        assert(out@ =~= out0 + render_prog(pv));
    }
}

/// Write an instruction tree back to program text: each counted symbol with
/// its explicit digit run, each loop body between brackets.
pub fn render(prog: &[Ast]) -> (r: String)
    ensures
        r@ == render_prog(prog_view(prog@)),
{
    let mut out = String::new();
    proof {
        assert(prog@.skip(0) =~= prog@);
    }
    render_from(prog, 0, &mut out);
    proof {
        assert(out@ =~= render_prog(prog_view(prog@)));
    }
    out
}

/// Build the instruction tree of a whole token sequence.
pub fn build_ast(tokens: &[Token]) -> (r: Result<Vec<Ast>, ParseError>)
    ensures
        match r {
            Ok(v) => spec_build(tokens@) == Ok::<Seq<AstView>, ParseError>(prog_view(v@)),
            Err(e) => spec_build(tokens@) == Err::<Seq<AstView>, ParseError>(e),
        },
{
    build_range(tokens, 0, tokens.len())
}

/// Tokenize and build in one step.
pub fn parse(s: &str) -> (r: Result<Vec<Ast>, ParseError>)
    ensures
        match r {
            Ok(v) => spec_parse(s@) == Ok::<Seq<AstView>, ParseError>(prog_view(v@)),
            Err(e) => spec_parse(s@) == Err::<Seq<AstView>, ParseError>(e),
        },
{
    let tokens = match tokenize(s) {
        Ok(t) => t,
        Err(e) => {
            return Err(e);
        },
    };
    build_ast(tokens.as_slice())
}

} // verus!
