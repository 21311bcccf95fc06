use rush::error::ErrorKind;
use rush::lex::{lex, Token};
use rush::parser::{parse, parse_tokens, Expr, Val};

fn span_text(line: &str, start: usize, end: usize) -> String {
    line[start..end].to_string()
}

fn rebuild(line: &str) -> String {
    let mut out = String::new();
    for (_, span) in lex(line) {
        out.push_str(&span_text(line, span.start, span.end));
    }
    out
}

#[test]
fn lex_never_fails_on_odd_input() {
    let lines = [
        "",
        " ",
        "\"",
        "\"\"\"",
        "->->..|||",
        "99999999999999999999999999 x",
        "é ü 日本 \t\u{3000} ~",
        "a=b",
        "-",
        "0007",
    ];
    for line in lines {
        let toks = lex(line);
        if line.is_empty() {
            assert!(toks.is_empty());
        } else {
            assert!(!toks.is_empty());
        }
    }
}

#[test]
fn lex_round_trip_rebuilds_the_line() {
    let lines = [
        "ls | sortby size | take 3",
        "  echo \"hello world\" | wc -l ",
        "a->b.c \"open",
        "12ab 0 007 -> .",
        "tab\tinside \u{a0}nbsp",
    ];
    for line in lines {
        assert_eq!(rebuild(line), line);
    }
}

#[test]
fn lex_spans_are_byte_offsets() {
    let spans: Vec<(usize, usize)> = lex("é a").into_iter().map(|(_, s)| (s.start, s.end)).collect();
    assert_eq!(spans, vec![(0, 2), (2, 3), (3, 4)]);
    let toks = lex("日本 | x");
    assert_eq!((toks[0].1.start, toks[0].1.end), (0, 6));
    assert!(matches!(&toks[0].0, Token::Item(s) if s == "日本"));
    assert_eq!(toks.last().unwrap().1.end, "日本 | x".len());
}

#[test]
fn lex_token_kinds() {
    let toks: Vec<Token> = lex("ls | take 3 \"a b\" \" -> .x").into_iter().map(|(t, _)| t).collect();
    assert!(matches!(&toks[0], Token::Item(s) if s == "ls"));
    assert!(matches!(toks[1], Token::Whitespace));
    assert!(matches!(toks[2], Token::Pipe));
    assert!(matches!(&toks[4], Token::Item(s) if s == "take"));
    assert!(matches!(toks[6], Token::Num(3)));
    assert!(matches!(&toks[8], Token::QuotedItem(s) if s == "a b"));
    assert!(matches!(toks[10], Token::OpenQuote));
    assert!(matches!(toks[12], Token::Arrow));
    assert!(matches!(toks[14], Token::Dot));
    assert!(matches!(&toks[15], Token::Item(s) if s == "x"));
}

#[test]
fn lex_numbers() {
    let toks: Vec<Token> = lex("007 12ab 99999999999999999999").into_iter().map(|(t, _)| t).collect();
    assert!(matches!(toks[0], Token::Num(0)));
    assert!(matches!(toks[1], Token::Num(0)));
    assert!(matches!(toks[2], Token::Num(7)));
    assert!(matches!(toks[4], Token::Num(12)));
    assert!(matches!(&toks[5], Token::Item(s) if s == "ab"));
    assert!(matches!(&toks[7], Token::Item(s) if s == "99999999999999999999"));
}

#[test]
fn parse_three_stage_pipeline() {
    let p = parse_tokens(&lex("ls | sortby size | take 3")).expect("parses");
    let names: Vec<&str> = p.commands.iter().map(|c| c.name.as_str()).collect();
    assert_eq!(names, vec!["ls", "sortby", "take"]);
    assert_eq!(p.commands[0].args.len(), 0);
    assert_eq!(p.commands[1].args.len(), 1);
    assert!(matches!(&p.commands[1].args[0], Expr::Val(Val::String(s)) if s == "size"));
    assert_eq!(p.commands[2].args.len(), 1);
    assert!(matches!(&p.commands[2].args[0], Expr::Val(Val::Num(3))));
}

#[test]
fn parse_quoted_and_numeric_name() {
    let p = parse("42 \"a b\" c").expect("parses");
    assert_eq!(p.commands.len(), 1);
    assert_eq!(p.commands[0].name, "42");
    assert!(matches!(&p.commands[0].args[0], Expr::Val(Val::String(s)) if s == "a b"));
    assert!(matches!(&p.commands[0].args[1], Expr::Val(Val::String(s)) if s == "c"));
}

#[test]
fn parse_errors() {
    for line in ["ls |", "| ls", "ls || rev", "", "   ", "ls -> x", "ls . x", "echo \"open"] {
        match parse(line) {
            Err(e) => assert_eq!(e.kind, ErrorKind::Parse, "line {:?}", line),
            Ok(_) => panic!("line {:?} should not parse", line),
        }
    }
}

#[test]
fn parse_negative_number_name() {
    let p = parse("x -5").expect("parses");
    assert!(matches!(&p.commands[0].args[0], Expr::Val(Val::String(s)) if s == "-5"));
}
