//! The round-trip law: writing an instruction tree back to the instruction
//! alphabet and parsing the result yields the same tree, for every tree a
//! parse can produce. Proved in two halves — the rendering re-tokenizes to
//! the tree's flat token sequence, and that sequence builds back to the tree.

use vstd::prelude::*;

use crate::errors::ParseError;
use crate::parser::Token;
use crate::syntax::{
    all_digits, count_of, digit_char, digits_of, digits_val, find_close, flat_node, flat_tokens,
    is_digit_char, lemma_count_of_nonneg, lemma_digits_val_nonneg, lemma_find_close_bounds,
    lex_from, lex_init, lex_step, node_of_token,
    node_size, render_node, render_prog, seq_size, spec_build, spec_build_range, spec_parse,
    spec_tokenize, wf_node, wf_prog, AstView, LexState,
};

verus! {

broadcast use vstd::seq::group_seq_axioms;

// ===== The rendering re-tokenizes to the flat token sequence =====

/// Lexing a concatenation is lexing the parts in turn.
proof fn lemma_lex_concat(s1: Seq<char>, s2: Seq<char>, st: LexState)
    ensures
        lex_from(s1 + s2, st) == match lex_from(s1, st) {
            Ok(st1) => lex_from(s2, st1),
            Err(e) => Err(e),
        },
    decreases s1.len(),
{
    if s1.len() == 0 {
        assert(s1 + s2 =~= s2);
    } else {
        assert((s1 + s2)[0] == s1[0]);
        assert((s1 + s2).drop_first() =~= s1.drop_first() + s2);
        match lex_step(st, s1[0]) {
            Err(e) => {},
            Ok(st2) => {
                lemma_lex_concat(s1.drop_first(), s2, st2);
            },
        }
    }
}

/// The digit run of a nonnegative number is all digits, nonempty, and
/// denotes the number itself.
proof fn lemma_digits_of(n: int)
    requires
        n >= 0,
    ensures
        all_digits(digits_of(n)),
        digits_of(n).len() >= 1,
        digits_val(digits_of(n)) == n,
    decreases n,
{
    reveal_with_fuel(digits_val, 3);
    if n < 10 {
        assert(is_digit_char(digit_char(n)));
        assert(digits_of(n) =~= seq![digit_char(n)]);
        assert(digits_of(n).drop_last() =~= Seq::<char>::empty());
        assert(digits_val(digits_of(n)) == n);
    } else {
        lemma_digits_of(n / 10);
        let d = n % 10;
        assert(0 <= d < 10);
        assert(is_digit_char(digit_char(d)));
        let run = digits_of(n / 10).push(digit_char(d));
        assert(forall|i: int| 0 <= i < run.len() - 1 ==> run[i] == digits_of(n / 10)[i]);
        assert(all_digits(run));
        assert(run.drop_last() =~= digits_of(n / 10));
        vstd::arithmetic::div_mod::lemma_fundamental_div_mod(n, 10);
        assert(digits_val(run) == n);
    }
}

/// Lexing a pure digit run outside a comment just extends the pending run.
proof fn lemma_lex_digits(ds: Seq<char>, st: LexState)
    requires
        all_digits(ds),
        !st.in_comment,
    ensures
        lex_from(ds, st) == Ok::<LexState, ParseError>(
            LexState { digits: st.digits + ds, ..st },
        ),
    decreases ds.len(),
{
    if ds.len() == 0 {
        assert(LexState { digits: st.digits + ds, ..st } =~= st);
    } else {
        let c = ds[0];
        assert(is_digit_char(c));
        let st2 = LexState { digits: st.digits.push(c), ..st };
        assert(lex_step(st, c) == Ok::<LexState, ParseError>(st2));
        assert(all_digits(ds.drop_first()));
        lemma_lex_digits(ds.drop_first(), st2);
        assert(st.digits.push(c) + ds.drop_first() =~= st.digits + ds);
        assert(LexState { digits: st.digits.push(c) + ds.drop_first(), ..st2 } =~= (LexState {
            digits: st.digits + ds,
            ..st
        }));
    }
}

/// A clean lexer state: nothing pending, not inside a comment.
spec fn clean(st: LexState) -> bool {
    st.digits.len() == 0 && !st.in_comment
}

/// Lexing the rendering of one well-formed node emits exactly its flat
/// tokens and leaves the state clean again.
proof fn lemma_lex_render_node(n: AstView, st: LexState)
    requires
        wf_node(n),
        clean(st),
    ensures
        lex_from(render_node(n), st) == Ok::<LexState, ParseError>(
            LexState { tokens: st.tokens + flat_node(n), digits: Seq::empty(), in_comment: false },
        ),
    decreases node_size(n),
{
    match n {
        AstView::AddVal(d) => {
            lemma_lex_render_counted(d, '+', '-', st);
            assert(lex_from(render_node(n), st) == lex_from(
                if d >= 0 {
                    digits_of(d).push('+')
                } else {
                    digits_of(-d).push('-')
                },
                st,
            ));
            assert(st.tokens.push(Token::AddVal(d as isize)) =~= st.tokens + flat_node(n));
        },
        AstView::AddPtr(d) => {
            lemma_lex_render_counted(d, '>', '<', st);
            assert(st.tokens.push(Token::AddPtr(d as isize)) =~= st.tokens + flat_node(n));
        },
        AstView::PutChar => {
            lemma_lex_render_plain('.', Token::PutChar, st);
            assert(st.tokens.push(Token::PutChar) =~= st.tokens + flat_node(n));
        },
        AstView::GetChar => {
            lemma_lex_render_plain(',', Token::GetChar, st);
            assert(st.tokens.push(Token::GetChar) =~= st.tokens + flat_node(n));
        },
        AstView::CoreDump => {
            lemma_lex_render_plain('?', Token::CoreDump, st);
            assert(st.tokens.push(Token::CoreDump) =~= st.tokens + flat_node(n));
        },
        AstView::Loop(body) => {
            reveal_with_fuel(lex_from, 3);
            let open = seq!['['];
            let close = seq![']'];
            let mid = render_prog(body);
            assert(render_node(n) =~= open + (mid + close));
            lemma_lex_concat(open, mid + close, st);
            let st1 = LexState {
                tokens: st.tokens.push(Token::JumpForward),
                digits: Seq::empty(),
                in_comment: false,
            };
            assert(open.drop_first() =~= Seq::<char>::empty());
            assert(lex_from(open, st) == Ok::<LexState, ParseError>(st1));
            lemma_lex_concat(mid, close, st1);
            lemma_lex_render_prog(body, st1);
            let st2 = LexState {
                tokens: st1.tokens + flat_tokens(body),
                digits: Seq::empty(),
                in_comment: false,
            };
            let st3 = LexState {
                tokens: st2.tokens.push(Token::JumpBackward),
                digits: Seq::empty(),
                in_comment: false,
            };
            assert(close.drop_first() =~= Seq::<char>::empty());
            assert(lex_from(close, st2) == Ok::<LexState, ParseError>(st3));
            assert(st3.tokens =~= st.tokens + flat_node(n));
            assert(st3 =~= (LexState {
                tokens: st.tokens + flat_node(n),
                digits: Seq::empty(),
                in_comment: false,
            }));
        },
    }
}

/// Lexing a rendered counted symbol emits one token carrying the delta.
proof fn lemma_lex_render_counted(d: int, pos: char, neg: char, st: LexState)
    requires
        -isize::MAX <= d <= isize::MAX,
        clean(st),
        pos == '+' && neg == '-' || pos == '>' && neg == '<',
    ensures
        pos == '+' ==> lex_from(
            if d >= 0 {
                digits_of(d).push(pos)
            } else {
                digits_of(-d).push(neg)
            },
            st,
        ) == Ok::<LexState, ParseError>(
            LexState {
                tokens: st.tokens.push(Token::AddVal(d as isize)),
                digits: Seq::empty(),
                in_comment: false,
            },
        ),
        pos == '>' ==> lex_from(
            if d >= 0 {
                digits_of(d).push(pos)
            } else {
                digits_of(-d).push(neg)
            },
            st,
        ) == Ok::<LexState, ParseError>(
            LexState {
                tokens: st.tokens.push(Token::AddPtr(d as isize)),
                digits: Seq::empty(),
                in_comment: false,
            },
        ),
{
    reveal_with_fuel(lex_from, 3);
    let m = if d >= 0 {
        d
    } else {
        -d
    };
    let sym = if d >= 0 {
        pos
    } else {
        neg
    };
    let run = digits_of(m);
    lemma_digits_of(m);
    assert(run.push(sym) =~= run + seq![sym]);
    lemma_lex_concat(run, seq![sym], st);
    lemma_lex_digits(run, st);
    let st1 = LexState { digits: st.digits + run, ..st };
    assert(st1.digits =~= run);
    lemma_digits_val_nonneg(run);
    assert(count_of(run) == Ok::<isize, ParseError>(m as isize));
    assert(seq![sym].drop_first() =~= Seq::<char>::empty());
}

/// Lexing a rendered plain symbol emits its token.
proof fn lemma_lex_render_plain(c: char, tok: Token, st: LexState)
    requires
        clean(st),
        c == '.' && tok == Token::PutChar || c == ',' && tok == Token::GetChar || c == '?'
            && tok == Token::CoreDump || c == '[' && tok == Token::JumpForward || c == ']'
            && tok == Token::JumpBackward,
    ensures
        lex_from(seq![c], st) == Ok::<LexState, ParseError>(
            LexState {
                tokens: st.tokens.push(tok),
                digits: Seq::empty(),
                in_comment: false,
            },
        ),
{
    reveal_with_fuel(lex_from, 3);
    assert(seq![c].drop_first() =~= Seq::<char>::empty());
    assert(seq![c][0] == c);
}

/// Lexing the rendering of a well-formed program emits exactly its flat
/// token sequence and leaves the state clean again.
proof fn lemma_lex_render_prog(p: Seq<AstView>, st: LexState)
    requires
        wf_prog(p),
        clean(st),
    ensures
        lex_from(render_prog(p), st) == Ok::<LexState, ParseError>(
            LexState {
                tokens: st.tokens + flat_tokens(p),
                digits: Seq::empty(),
                in_comment: false,
            },
        ),
    decreases seq_size(p),
{
    if p.len() == 0 {
        assert(render_prog(p) =~= Seq::<char>::empty());
        assert(LexState {
            tokens: st.tokens + flat_tokens(p),
            digits: Seq::empty(),
            in_comment: false,
        } =~= st);
    } else {
        lemma_lex_concat(render_node(p[0]), render_prog(p.drop_first()), st);
        lemma_lex_render_node(p[0], st);
        let st1 = LexState {
            tokens: st.tokens + flat_node(p[0]),
            digits: Seq::empty(),
            in_comment: false,
        };
        lemma_lex_render_prog(p.drop_first(), st1);
        assert(st1.tokens + flat_tokens(p.drop_first()) =~= st.tokens + flat_tokens(p));
        assert(LexState {
            tokens: st1.tokens + flat_tokens(p.drop_first()),
            digits: Seq::empty(),
            in_comment: false,
        } =~= (LexState {
            tokens: st.tokens + flat_tokens(p),
            digits: Seq::empty(),
            in_comment: false,
        }));
    }
}

/// Rendering a well-formed tree and tokenizing the text gives the tree's
/// flat token sequence.
pub proof fn lemma_render_tokenize(p: Seq<AstView>)
    requires
        wf_prog(p),
    ensures
        spec_tokenize(render_prog(p)) == Ok::<Seq<Token>, ParseError>(flat_tokens(p)),
{
    lemma_lex_render_prog(p, lex_init());
    assert(lex_init().tokens + flat_tokens(p) =~= flat_tokens(p));
}

// ===== The flat token sequence builds back to the tree =====

/// A flat token sequence is never empty unless its program is.
proof fn lemma_flat_len(p: Seq<AstView>)
    ensures
        p.len() > 0 ==> flat_tokens(p).len() >= flat_node(p[0]).len() >= 1,
        flat_tokens(p).len() >= p.len(),
    decreases seq_size(p),
{
    if p.len() > 0 {
        lemma_flat_len(p.drop_first());
        match p[0] {
            AstView::Loop(body) => {
                assert(node_size(p[0]) == 1 + seq_size(body));
                lemma_flat_len(body);
            },
            _ => {},
        }
    }
}

/// A flat segment starting a nonempty program splits into the first node's
/// tokens and the rest's.
proof fn lemma_flat_split(toks: Seq<Token>, j: int, p: Seq<AstView>)
    requires
        p.len() > 0,
        0 <= j,
        j + flat_tokens(p).len() <= toks.len(),
        toks.subrange(j, j + flat_tokens(p).len() as int) == flat_tokens(p),
    ensures
        toks.subrange(j, j + flat_node(p[0]).len() as int) == flat_node(p[0]),
        toks.subrange(
            j + flat_node(p[0]).len() as int,
            j + flat_tokens(p).len() as int,
        ) == flat_tokens(p.drop_first()),
        flat_tokens(p).len() == flat_node(p[0]).len() + flat_tokens(p.drop_first()).len(),
{
    let fn0 = flat_node(p[0]);
    let fr = flat_tokens(p.drop_first());
    let ln = fn0.len() as int;
    let l = flat_tokens(p).len() as int;
    assert(flat_tokens(p) == fn0 + fr);
    assert forall|t: int| 0 <= t < l implies toks[j + t] == flat_tokens(p)[t] by {
        assert(toks.subrange(j, j + l)[t] == toks[j + t]);
    }
    assert forall|t: int| 0 <= t < ln implies toks.subrange(j, j + ln)[t] == fn0[t] by {
        assert(toks[j + t] == (fn0 + fr)[t]);
    }
    assert(toks.subrange(j, j + ln) =~= fn0);
    assert forall|t: int| 0 <= t < fr.len() implies toks.subrange(j + ln, j + l)[t] == fr[t] by {
        assert(toks[j + ln + t] == (fn0 + fr)[ln + t]);
    }
    assert(toks.subrange(j + ln, j + l) =~= fr);
}

/// A flat loop segment opens with `[`, closes with `]`, and carries its
/// body's tokens in between.
proof fn lemma_loop_segment(toks: Seq<Token>, j: int, body: Seq<AstView>)
    requires
        0 <= j,
        j + flat_node(AstView::Loop(body)).len() <= toks.len(),
        toks.subrange(j, j + flat_node(AstView::Loop(body)).len() as int) == flat_node(
            AstView::Loop(body),
        ),
    ensures
        flat_node(AstView::Loop(body)).len() == 2 + flat_tokens(body).len(),
        toks[j] == Token::JumpForward,
        toks[j + 1 + flat_tokens(body).len()] == Token::JumpBackward,
        toks.subrange(j + 1, j + 1 + flat_tokens(body).len() as int) == flat_tokens(body),
{
    let fb = flat_tokens(body);
    let lb = fb.len() as int;
    let fn0 = flat_node(AstView::Loop(body));
    assert(fn0 == seq![Token::JumpForward] + fb + seq![Token::JumpBackward]);
    assert((seq![Token::JumpForward] + fb).len() == 1 + lb);
    assert(fn0.len() == 2 + lb);
    assert forall|t: int| 0 <= t < fn0.len() implies toks[j + t] == fn0[t] by {
        assert(toks.subrange(j, j + fn0.len() as int)[t] == toks[j + t]);
    }
    assert(fn0[0] == (seq![Token::JumpForward] + fb)[0]);
    assert(fn0[0] == Token::JumpForward);
    assert(fn0[1 + lb] == Token::JumpBackward);
    assert forall|t: int| 0 <= t < lb implies toks.subrange(j + 1, j + 1 + lb)[t] == fb[t] by {
        assert(fn0[1 + t] == (seq![Token::JumpForward] + fb)[1 + t]);
        assert((seq![Token::JumpForward] + fb)[1 + t] == fb[t]);
        assert(toks[j + 1 + t] == fn0[1 + t]);
        assert(toks.subrange(j + 1, j + 1 + lb)[t] == toks[j + 1 + t]);
    }
    assert(toks.subrange(j + 1, j + 1 + lb) =~= fb);
}

/// A balanced flat segment is transparent to the bracket scan: the scan
/// resumes after the segment with the same nesting count.
proof fn lemma_find_close_skips(toks: Seq<Token>, j: int, nest: int, end: int, p: Seq<AstView>)
    requires
        0 <= j,
        j + flat_tokens(p).len() <= end,
        end <= toks.len(),
        toks.subrange(j, j + flat_tokens(p).len() as int) == flat_tokens(p),
        nest >= 1,
    ensures
        find_close(toks, j, nest, end) == find_close(
            toks,
            j + flat_tokens(p).len() as int,
            nest,
            end,
        ),
    decreases seq_size(p),
{
    if p.len() != 0 {
        let fn0 = flat_node(p[0]);
        let ln = fn0.len() as int;
        let l = flat_tokens(p).len() as int;
        lemma_flat_split(toks, j, p);
        match p[0] {
            AstView::Loop(body) => {
                let lb = flat_tokens(body).len() as int;
                assert(node_size(p[0]) == 1 + seq_size(body));
                lemma_loop_segment(toks, j, body);
                lemma_find_close_skips(toks, j + 1, nest + 1, end, body);
                assert(find_close(toks, j, nest, end) == find_close(toks, j + ln, nest, end));
            },
            _ => {
                assert(ln == 1);
                assert(toks.subrange(j, j + 1)[0] == toks[j]);
                assert(toks[j] == fn0[0]);
                assert(toks[j] != Token::JumpForward && toks[j] != Token::JumpBackward);
                assert(find_close(toks, j, nest, end) == find_close(toks, j + 1, nest, end));
            },
        }
        lemma_find_close_skips(toks, j + ln, nest, end, p.drop_first());
    }
}

/// A well-formed tree's flat token sequence builds back to exactly the tree.
proof fn lemma_build_flat(toks: Seq<Token>, i: int, end: int, p: Seq<AstView>)
    requires
        wf_prog(p),
        0 <= i,
        i + flat_tokens(p).len() == end,
        end <= toks.len(),
        toks.subrange(i, end) == flat_tokens(p),
    ensures
        spec_build_range(toks, i, end) == Ok::<Seq<AstView>, ParseError>(p),
    decreases seq_size(p),
{
    if p.len() == 0 {
        assert(p =~= Seq::<AstView>::empty());
    } else {
        let fn0 = flat_node(p[0]);
        let ln = fn0.len() as int;
        let l = flat_tokens(p).len() as int;
        lemma_flat_len(p);
        lemma_flat_split(toks, i, p);
        assert(wf_node(p[0]) && wf_prog(p.drop_first()));
        match p[0] {
            AstView::Loop(body) => {
                let lb = flat_tokens(body).len() as int;
                assert(node_size(p[0]) == 1 + seq_size(body));
                assert(wf_prog(body));
                lemma_loop_segment(toks, i, body);
                lemma_find_close_skips(toks, i + 1, 1, end, body);
                assert(find_close(toks, i + 1 + lb, 1, end) == Some(i + 1 + lb));
                assert(find_close(toks, i + 1, 1, end) == Some(i + 1 + lb));
                lemma_build_flat(toks, i + 1, i + 1 + lb, body);
                lemma_build_flat(toks, i + ln, end, p.drop_first());
                assert(seq![AstView::Loop(body)] + p.drop_first() =~= p);
            },
            _ => {
                assert(ln == 1);
                assert(toks.subrange(i, i + 1)[0] == toks[i]);
                assert(toks[i] == fn0[0]);
                match p[0] {
                    AstView::AddVal(d) => {
                        assert(fn0[0] == Token::AddVal(d as isize));
                    },
                    AstView::AddPtr(d) => {
                        assert(fn0[0] == Token::AddPtr(d as isize));
                    },
                    _ => {},
                }
                assert(toks[i] != Token::JumpForward && toks[i] != Token::JumpBackward);
                assert(node_of_token(toks[i]) == p[0]);
                lemma_build_flat(toks, i + 1, end, p.drop_first());
                assert(seq![node_of_token(toks[i])] + p.drop_first() =~= p);
            },
        }
    }
}

/// A well-formed tree's flat token sequence builds back to the tree.
pub proof fn lemma_flat_build(p: Seq<AstView>)
    requires
        wf_prog(p),
    ensures
        spec_build(flat_tokens(p)) == Ok::<Seq<AstView>, ParseError>(p),
{
    let toks = flat_tokens(p);
    assert(toks.subrange(0, toks.len() as int) =~= toks);
    lemma_build_flat(toks, 0, toks.len() as int, p);
}

/// Writing a well-formed instruction tree back to the instruction alphabet
/// and parsing the text again yields a structurally identical tree.
pub proof fn lemma_render_parse(p: Seq<AstView>)
    requires
        wf_prog(p),
    ensures
        spec_parse(render_prog(p)) == Ok::<Seq<AstView>, ParseError>(p),
{
    lemma_render_tokenize(p);
    lemma_flat_build(p);
}

// ===== Every parsed tree is well-formed, so every parsed tree round-trips =====

/// The token's count, if it has one, fits the count width both ways.
pub open spec fn token_wf(t: Token) -> bool {
    match t {
        Token::AddVal(n) => -isize::MAX <= n,
        Token::AddPtr(n) => -isize::MAX <= n,
        _ => true,
    }
}

/// Every token of the sequence has its count in range.
pub open spec fn tokens_wf(ts: Seq<Token>) -> bool {
    forall|i: int| 0 <= i < ts.len() ==> token_wf(ts[i])
}

/// The lexer only emits counts in range.
proof fn lemma_lex_from_wf(s: Seq<char>, st: LexState)
    requires
        tokens_wf(st.tokens),
    ensures
        match lex_from(s, st) {
            Ok(st2) => tokens_wf(st2.tokens),
            Err(_) => true,
        },
    decreases s.len(),
{
    if s.len() != 0 {
        lemma_count_of_nonneg(st.digits);
        match lex_step(st, s[0]) {
            Err(_) => {},
            Ok(st2) => {
                assert(tokens_wf(st2.tokens));
                lemma_lex_from_wf(s.drop_first(), st2);
            },
        }
    }
}

/// A tree that starts with a well-formed node and goes on well-formed is
/// well-formed.
proof fn lemma_wf_cons(n: AstView, rest: Seq<AstView>)
    requires
        wf_node(n),
        wf_prog(rest),
    ensures
        wf_prog(seq![n] + rest),
{
    let p = seq![n] + rest;
    assert(p[0] == n);
    assert(p.drop_first() =~= rest);
}

/// Trees built from in-range tokens are well-formed.
proof fn lemma_build_range_wf(toks: Seq<Token>, i: int, end: int)
    requires
        tokens_wf(toks),
        end <= toks.len(),
    ensures
        match spec_build_range(toks, i, end) {
            Ok(p) => wf_prog(p),
            Err(_) => true,
        },
    decreases end - i,
{
    if 0 <= i < end {
        if toks[i] == Token::JumpForward {
            lemma_find_close_bounds(toks, i + 1, 1, end);
            match find_close(toks, i + 1, 1, end) {
                None => {},
                Some(j) => {
                    lemma_build_range_wf(toks, i + 1, j);
                    lemma_build_range_wf(toks, j + 1, end);
                    match spec_build_range(toks, i + 1, j) {
                        Err(_) => {},
                        Ok(body) => match spec_build_range(toks, j + 1, end) {
                            Err(_) => {},
                            Ok(rest) => {
                                lemma_wf_cons(AstView::Loop(body), rest);
                            },
                        },
                    }
                },
            }
        } else if toks[i] == Token::JumpBackward {
        } else {
            lemma_build_range_wf(toks, i + 1, end);
            match spec_build_range(toks, i + 1, end) {
                Err(_) => {},
                Ok(rest) => {
                    assert(token_wf(toks[i]));
                    lemma_wf_cons(node_of_token(toks[i]), rest);
                },
            }
        }
    }
}

/// Every tree a parse yields is well-formed.
pub proof fn lemma_parse_wf(s: Seq<char>, p: Seq<AstView>)
    requires
        spec_parse(s) == Ok::<Seq<AstView>, ParseError>(p),
    ensures
        wf_prog(p),
{
    lemma_lex_from_wf(s, lex_init());
    match spec_tokenize(s) {
        Err(_) => {},
        Ok(toks) => {
            lemma_build_range_wf(toks, 0, toks.len() as int);
        },
    }
}

/// The round-trip law: the tree built from any program text, written back
/// to the instruction alphabet and parsed again, comes out structurally
/// identical.
pub proof fn lemma_parse_render_roundtrip(s: Seq<char>, p: Seq<AstView>)
    requires
        spec_parse(s) == Ok::<Seq<AstView>, ParseError>(p),
    ensures
        spec_parse(render_prog(p)) == Ok::<Seq<AstView>, ParseError>(p),
{
    lemma_parse_wf(s, p);
    lemma_render_parse(p);
}

} // verus!