use brainfuck::errors::{EvalError, ParseError, RuntimeError};
use brainfuck::parser::{parse, parse_to_int, tokenize, Token};
use brainfuck::{Engine, Interpreter};

#[test]
fn parse_int_test() {
    assert_eq!(parse_to_int(&mut "".to_owned()), Ok(1));
    assert_eq!(parse_to_int(&mut "12".to_owned()), Ok(12));
}

#[test]
fn case1() {
    let inputs = r#"[>,.2<] # hoge
    # a.b.c
    "#;
    let tokens = tokenize(inputs);
    assert_eq!(
        tokens,
        Ok(vec![
            Token::JumpForward,
            Token::AddPtr(1),
            Token::GetChar,
            Token::PutChar,
            Token::AddPtr(-2),
            Token::JumpBackward
        ])
    );
}

#[test]
fn unmatched_open_is_rejected() {
    assert_eq!(parse("["), Err(ParseError::UnmatchedOpen));
    let result = Engine::new(0, vec![0; 16]).eval("[", "");
    assert_eq!(result, Err(EvalError::Syntax(ParseError::UnmatchedOpen)));
}

#[test]
fn unmatched_close_is_rejected() {
    assert_eq!(parse("+]"), Err(ParseError::UnmatchedClose));
    assert_eq!(parse("[]]"), Err(ParseError::UnmatchedClose));
}

#[test]
fn overflowing_count_is_rejected() {
    // A count far beyond the width of isize.
    assert_eq!(tokenize("99999999999999999999+"), Err(ParseError::InvalidCount));
    assert!(parse_to_int(&mut "99999999999999999999".to_owned()).is_err());
}

#[test]
fn digit_run_before_plain_symbol_is_discarded() {
    // The run binds only to the four counted symbols; `.` drops it.
    let tokens = tokenize("2.3>");
    assert_eq!(tokens, Ok(vec![Token::PutChar, Token::AddPtr(3)]));
}

#[test]
fn digit_run_survives_ignored_characters() {
    let tokens = tokenize("1 2 x 3>");
    assert_eq!(tokens, Ok(vec![Token::AddPtr(123)]));
}

#[test]
fn empty_input_stream_exhausts() {
    let mut i = Interpreter::default();
    assert_eq!(
        i.eval(","),
        Err(EvalError::Runtime(RuntimeError::InputExhausted))
    );
}

#[test]
fn input_bytes_are_read_in_order() {
    let mut i = Interpreter::new(0, vec![0; 8]).stdin(b"AB");
    assert!(i.eval(",.>,.").is_ok());
    assert_eq!(i.stdout(), b"AB");
}

#[test]
fn cursor_outside_capacity_is_an_error() {
    // `<` wraps the cursor to the top of the address space, far past the
    // tape's capacity, so touching the cell there must fail.
    let result = Engine::new(0, vec![0; 8096]).eval("<+", "");
    assert_eq!(result, Err(EvalError::Runtime(RuntimeError::OutOfRange)));
}

#[test]
fn repeat_count_folds_into_one_instruction() {
    let result = Engine::new(0, vec![0; 8]).eval("65+.", "");
    assert_eq!(result, Ok("A".to_owned()));
}

#[test]
fn stdin_characters_truncate_to_bytes() {
    // U+0141 has scalar value 0x141; storing it keeps only the low byte 0x41.
    let result = Engine::new(0, vec![0; 8]).eval(",.", "\u{141}");
    assert_eq!(result, Ok("A".to_owned()));
}

#[test]
fn render_then_reparse_is_identity() {
    let sources = [
        "2+>5+[<+>-]8+[<6+>-]<.",
        "[.>]",
        "++[->+<]>.",
        "0+[[]]",
        "[>,.2<] # hoge\n    # a.b.c\n    ",
    ];
    for src in sources {
        let tree = parse(src).unwrap();
        let written = brainfuck::parser::render(&tree);
        let reparsed = parse(&written).unwrap();
        assert_eq!(tree, reparsed);
    }
}

#[test]
fn render_writes_explicit_counts() {
    let tree = parse("++>3<.").unwrap();
    assert_eq!(brainfuck::parser::render(&tree), "1+1+1>3<.");
}

#[test]
fn digit_run_crosses_a_comment() {
    // Comments and ignored characters fall away before the run binds.
    let tokens = tokenize("2# two\n3>");
    assert_eq!(tokens, Ok(vec![Token::AddPtr(23)]));
    // A run left pending at the end of the text emits nothing.
    assert_eq!(tokenize("12"), Ok(vec![]));
}

#[test]
fn engine_tape_persists_between_evaluations() {
    let mut e = Engine::new(0, vec![0; 8]);
    assert_eq!(e.eval("65+", ""), Ok(String::new()));
    assert_eq!(e.eval(".", ""), Ok("A".to_owned()));
}
