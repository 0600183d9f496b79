//! The spec-level model of the language's syntax: what the tokenizer yields
//! on any text, and what instruction tree a token sequence builds to. The
//! executable parser in `parser` is proved equal to these functions.

use vstd::prelude::*;

use crate::errors::ParseError;
use crate::parser::{Ast, Token};

verus! {

broadcast use vstd::seq::group_seq_axioms, vstd::std_specs::vec::group_vec_axioms;

// ===== The spec-level instruction tree =====

/// A spec-level instruction tree node, mirroring `Ast` with mathematical
/// integers and sequences.
pub enum AstView {
    AddVal(int),
    AddPtr(int),
    PutChar,
    GetChar,
    CoreDump,
    Loop(Seq<AstView>),
}

/// The spec-level view of one executable tree node.
pub open spec fn ast_view(a: Ast) -> AstView
    decreases a,
{
    match a {
        Ast::AddVal(n) => AstView::AddVal(n as int),
        Ast::AddPtr(n) => AstView::AddPtr(n as int),
        Ast::PutChar => AstView::PutChar,
        Ast::GetChar => AstView::GetChar,
        Ast::CoreDump => AstView::CoreDump,
        Ast::Loop(body) => AstView::Loop(prog_view(body@)),
    }
}

/// The spec-level view of an executable node sequence.
pub open spec fn prog_view(p: Seq<Ast>) -> Seq<AstView>
    decreases p,
{
    if p.len() == 0 {
        Seq::empty()
    } else {
        prog_view(p.drop_last()).push(ast_view(p.last()))
    }
}

/// `prog_view` maps the sequence elementwise.
pub proof fn lemma_prog_view(p: Seq<Ast>)
    ensures
        prog_view(p).len() == p.len(),
        forall|i: int| 0 <= i < p.len() ==> prog_view(p)[i] == ast_view(p[i]),
    decreases p.len(),
{
    if p.len() > 0 {
        lemma_prog_view(p.drop_last());
    }
}

/// Appending one node appends its view.
pub proof fn lemma_prog_view_push(p: Seq<Ast>, a: Ast)
    ensures
        prog_view(p.push(a)) == prog_view(p).push(ast_view(a)),
{
    assert(p.push(a).drop_last() =~= p);
    assert(p.push(a).last() == a);
}

/// The structural size of a node, for termination measures.
pub open spec fn node_size(n: AstView) -> nat
    decreases n,
{
    match n {
        AstView::Loop(body) => 1 + seq_size(body),
        _ => 1,
    }
}

/// The structural size of a node sequence.
pub open spec fn seq_size(p: Seq<AstView>) -> nat
    decreases p,
{
    if p.len() == 0 {
        0
    } else {
        1 + node_size(p[0]) + seq_size(p.drop_first())
    }
}

// ===== Characters and digit runs =====

/// `c` is a decimal digit.
pub open spec fn is_digit_char(c: char) -> bool {
    48 <= c as u32 <= 57
}

/// The numeric value of a decimal digit.
pub open spec fn digit_val(c: char) -> int {
    c as u32 - 48
}

/// Every character of `s` is a decimal digit.
pub open spec fn all_digits(s: Seq<char>) -> bool {
    forall|i: int| 0 <= i < s.len() ==> is_digit_char(s[i])
}

/// The number a decimal digit run denotes.
pub open spec fn digits_val(s: Seq<char>) -> int
    decreases s.len(),
{
    if s.len() == 0 {
        0
    } else {
        digits_val(s.drop_last()) * 10 + digit_val(s.last())
    }
}

/// The repeat count a buffered digit run yields: 1 when the run is empty,
/// its value when that fits the count's width, and `InvalidCount` otherwise.
/// A run with a non-digit never arises from lexing; it does not count.
pub open spec fn count_of(digits: Seq<char>) -> Result<isize, ParseError> {
    if digits.len() == 0 {
        Ok(1)
    } else if !all_digits(digits) {
        Err(ParseError::InvalidCount)
    } else if digits_val(digits) > isize::MAX {
        Err(ParseError::InvalidCount)
    } else {
        Ok(digits_val(digits) as isize)
    }
}

/// A nonnegative count, negated within the count's width.
pub open spec fn neg_count(n: isize) -> isize {
    (-(n as int)) as isize
}

/// A digit run denotes a nonnegative number.
pub proof fn lemma_digits_val_nonneg(s: Seq<char>)
    requires
        all_digits(s),
    ensures
        digits_val(s) >= 0,
    decreases s.len(),
{
    if s.len() > 0 {
        assert(all_digits(s.drop_last()));
        lemma_digits_val_nonneg(s.drop_last());
    }
}

/// Extending a digit run never shrinks its value.
pub proof fn lemma_digits_val_prefix(s: Seq<char>, i: int)
    requires
        all_digits(s),
        0 <= i <= s.len(),
    ensures
        digits_val(s.take(i)) <= digits_val(s),
    decreases s.len() - i,
{
    if i < s.len() {
        assert(all_digits(s.take(i)));
        lemma_digits_val_nonneg(s.take(i));
        assert(s.take(i + 1).drop_last() =~= s.take(i));
        assert(s.take(i + 1).last() == s[i]);
        lemma_digits_val_prefix(s, i + 1);
    } else {
        assert(s.take(i) =~= s);
    }
}

/// A successfully parsed count is nonnegative.
pub proof fn lemma_count_of_nonneg(digits: Seq<char>)
    ensures
        match count_of(digits) {
            Ok(n) => 0 <= n,
            Err(_) => true,
        },
{
    if digits.len() > 0 && all_digits(digits) {
        lemma_digits_val_nonneg(digits);
    }
}

// ===== The lexer, as a state machine over characters =====

/// The lexer's state between characters: the tokens already emitted, the
/// pending digit run, and whether the scan stands inside a line comment.
#[verifier::ext_equal]
pub struct LexState {
    pub tokens: Seq<Token>,
    pub digits: Seq<char>,
    pub in_comment: bool,
}

/// The lexer's starting state.
pub open spec fn lex_init() -> LexState {
    LexState { tokens: Seq::empty(), digits: Seq::empty(), in_comment: false }
}

/// One lexer step. Inside a comment only a newline matters; `#` opens a
/// comment; digits buffer; `>` `<` `+` `-` consume the buffered count;
/// `.` `,` `[` `]` `?` emit plain tokens and discard any pending digit run;
/// every other character is ignored and leaves the pending run alone.
pub open spec fn lex_step(st: LexState, c: char) -> Result<LexState, ParseError> {
    if st.in_comment {
        if c == '\n' {
            Ok(LexState { in_comment: false, ..st })
        } else {
            Ok(st)
        }
    } else if c == '#' {
        Ok(LexState { in_comment: true, ..st })
    } else if is_digit_char(c) {
        Ok(LexState { digits: st.digits.push(c), ..st })
    } else if c == '>' {
        lex_emit_counted(st, true, true)
    } else if c == '<' {
        lex_emit_counted(st, true, false)
    } else if c == '+' {
        lex_emit_counted(st, false, true)
    } else if c == '-' {
        lex_emit_counted(st, false, false)
    } else if c == '.' {
        Ok(lex_emit_plain(st, Token::PutChar))
    } else if c == ',' {
        Ok(lex_emit_plain(st, Token::GetChar))
    } else if c == '[' {
        Ok(lex_emit_plain(st, Token::JumpForward))
    } else if c == ']' {
        Ok(lex_emit_plain(st, Token::JumpBackward))
    } else if c == '?' {
        Ok(lex_emit_plain(st, Token::CoreDump))
    } else {
        Ok(st)
    }
}

/// Emit a counted token from the pending digit run: a cursor move when
/// `ptr`, a cell add otherwise, negated unless `positive`.
pub open spec fn lex_emit_counted(st: LexState, ptr: bool, positive: bool) -> Result<
    LexState,
    ParseError,
> {
    match count_of(st.digits) {
        Err(e) => Err(e),
        Ok(n) => {
            let count = if positive {
                n
            } else {
                neg_count(n)
            };
            let tok = if ptr {
                Token::AddPtr(count)
            } else {
                Token::AddVal(count)
            };
            Ok(LexState { tokens: st.tokens.push(tok), digits: Seq::empty(), ..st })
        },
    }
}

/// Emit a parameterless token, discarding any pending digit run.
pub open spec fn lex_emit_plain(st: LexState, tok: Token) -> LexState {
    LexState { tokens: st.tokens.push(tok), digits: Seq::empty(), ..st }
}

/// Run the lexer over the characters of `s` from state `st`. A digit run
/// still pending at the end of the text is discarded.
pub open spec fn lex_from(s: Seq<char>, st: LexState) -> Result<LexState, ParseError>
    decreases s.len(),
{
    if s.len() == 0 {
        Ok(st)
    } else {
        match lex_step(st, s[0]) {
            Err(e) => Err(e),
            Ok(st2) => lex_from(s.drop_first(), st2),
        }
    }
}

/// What tokenizing a whole text yields.
pub open spec fn spec_tokenize(s: Seq<char>) -> Result<Seq<Token>, ParseError> {
    match lex_from(s, lex_init()) {
        Err(e) => Err(e),
        Ok(st) => Ok(st.tokens),
    }
}

// ===== The tree builder =====

/// The position of the `]` matching an already-open bracket: scanning from
/// `i` with `nest` brackets pending, the first position before `end` where
/// the count falls to zero at a `]`, or `None` when the scan runs out.
pub open spec fn find_close(toks: Seq<Token>, i: int, nest: int, end: int) -> Option<int>
    decreases end - i,
{
    if i < 0 || i >= end {
        None
    } else if toks[i] == Token::JumpForward {
        find_close(toks, i + 1, nest + 1, end)
    } else if toks[i] == Token::JumpBackward {
        if nest == 1 {
            Some(i)
        } else {
            find_close(toks, i + 1, nest - 1, end)
        }
    } else {
        find_close(toks, i + 1, nest, end)
    }
}

/// A found closing bracket lies inside the scanned range.
pub proof fn lemma_find_close_bounds(toks: Seq<Token>, i: int, nest: int, end: int)
    ensures
        match find_close(toks, i, nest, end) {
            Some(j) => i <= j < end,
            None => true,
        },
    decreases end - i,
{
    if i < 0 || i >= end {
    } else {
        lemma_find_close_bounds(toks, i + 1, nest + 1, end);
        lemma_find_close_bounds(toks, i + 1, nest - 1, end);
        lemma_find_close_bounds(toks, i + 1, nest, end);
    }
}

/// The tree node a plain (non-bracket) token maps to.
pub open spec fn node_of_token(t: Token) -> AstView {
    match t {
        Token::AddVal(n) => AstView::AddVal(n as int),
        Token::AddPtr(n) => AstView::AddPtr(n as int),
        Token::PutChar => AstView::PutChar,
        Token::GetChar => AstView::GetChar,
        Token::CoreDump => AstView::CoreDump,
        _ => arbitrary(),
    }
}

/// The instruction tree that `toks[i .. end)` builds to: a single
/// left-to-right pass, nesting the segment strictly between a `[` and its
/// matching `]` as a loop body. A `[` without a match is `UnmatchedOpen`; a
/// `]` at the top of the pass is `UnmatchedClose`.
pub open spec fn spec_build_range(toks: Seq<Token>, i: int, end: int) -> Result<
    Seq<AstView>,
    ParseError,
>
    decreases end - i,
    via spec_build_range_decreases
{
    if i < 0 || i >= end {
        Ok(Seq::empty())
    } else if toks[i] == Token::JumpForward {
        match find_close(toks, i + 1, 1, end) {
            None => Err(ParseError::UnmatchedOpen),
            Some(j) => match spec_build_range(toks, i + 1, j) {
                Err(e) => Err(e),
                Ok(body) => match spec_build_range(toks, j + 1, end) {
                    Err(e) => Err(e),
                    Ok(rest) => Ok(seq![AstView::Loop(body)] + rest),
                },
            },
        }
    } else if toks[i] == Token::JumpBackward {
        Err(ParseError::UnmatchedClose)
    } else {
        match spec_build_range(toks, i + 1, end) {
            Err(e) => Err(e),
            Ok(rest) => Ok(seq![node_of_token(toks[i])] + rest),
        }
    }
}

#[via_fn]
proof fn spec_build_range_decreases(toks: Seq<Token>, i: int, end: int) {
    if 0 <= i < end && toks[i] == Token::JumpForward {
        lemma_find_close_bounds(toks, i + 1, 1, end);
    }
}

/// The instruction tree a whole token sequence builds to.
pub open spec fn spec_build(toks: Seq<Token>) -> Result<Seq<AstView>, ParseError> {
    spec_build_range(toks, 0, toks.len() as int)
}

/// What parsing a whole text yields: tokenize, then build.
pub open spec fn spec_parse(s: Seq<char>) -> Result<Seq<AstView>, ParseError> {
    match spec_tokenize(s) {
        Err(e) => Err(e),
        Ok(toks) => spec_build(toks),
    }
}

// ===== Writing a tree back to the instruction alphabet =====

/// Every delta of the tree fits the count width both ways: trees built from
/// any tokenized text satisfy this.
pub open spec fn wf_node(n: AstView) -> bool
    decreases n,
{
    match n {
        AstView::AddVal(d) => -isize::MAX <= d <= isize::MAX,
        AstView::AddPtr(d) => -isize::MAX <= d <= isize::MAX,
        AstView::Loop(body) => wf_prog(body),
        _ => true,
    }
}

/// Every delta anywhere in the program fits the count width both ways.
pub open spec fn wf_prog(p: Seq<AstView>) -> bool
    decreases p,
{
    if p.len() == 0 {
        true
    } else {
        wf_node(p[0]) && wf_prog(p.drop_first())
    }
}

/// The character for one decimal digit.
pub open spec fn digit_char(d: int) -> char {
    ((d + 48) as u8) as char
}

/// The decimal digit run that denotes a nonnegative number.
pub open spec fn digits_of(n: int) -> Seq<char>
    decreases n,
{
    if n < 0 {
        Seq::empty()
    } else if n < 10 {
        seq![digit_char(n)]
    } else {
        digits_of(n / 10).push(digit_char(n % 10))
    }
}

/// The text one node writes back to: a counted symbol carries its magnitude
/// as an explicit digit run, and a loop writes its body between brackets.
pub open spec fn render_node(n: AstView) -> Seq<char>
    decreases node_size(n),
{
    match n {
        AstView::AddVal(d) => if d >= 0 {
            digits_of(d).push('+')
        } else {
            digits_of(-d).push('-')
        },
        AstView::AddPtr(d) => if d >= 0 {
            digits_of(d).push('>')
        } else {
            digits_of(-d).push('<')
        },
        AstView::PutChar => seq!['.'],
        AstView::GetChar => seq![','],
        AstView::CoreDump => seq!['?'],
        AstView::Loop(body) => seq!['['] + render_prog(body) + seq![']'],
    }
}

/// The text a whole program writes back to.
pub open spec fn render_prog(p: Seq<AstView>) -> Seq<char>
    decreases seq_size(p),
{
    if p.len() == 0 {
        Seq::empty()
    } else {
        render_node(p[0]) + render_prog(p.drop_first())
    }
}

/// The flat token sequence a tree stands for: what tokenizing its rendering
/// yields.
pub open spec fn flat_node(n: AstView) -> Seq<Token>
    decreases node_size(n),
{
    match n {
        AstView::AddVal(d) => seq![Token::AddVal(d as isize)],
        AstView::AddPtr(d) => seq![Token::AddPtr(d as isize)],
        AstView::PutChar => seq![Token::PutChar],
        AstView::GetChar => seq![Token::GetChar],
        AstView::CoreDump => seq![Token::CoreDump],
        AstView::Loop(body) => seq![Token::JumpForward] + flat_tokens(body) + seq![
            Token::JumpBackward,
        ],
    }
}

/// The flat token sequence a whole program stands for.
pub open spec fn flat_tokens(p: Seq<AstView>) -> Seq<Token>
    decreases seq_size(p),
{
    if p.len() == 0 {
        Seq::empty()
    } else {
        flat_node(p[0]) + flat_tokens(p.drop_first())
    }
}

} // verus!
