//! Scenario checks of the engine's stated behaviour: concrete expansions,
//! classifier re-runs, error outcomes, and position stamping.

use quote::classify::{ScanOutcome, classify_separator};
use quote::expand::{expand, expand_spanned};
use quote::token::{Delim, Spacing, Token};
use quote::tokens::Tokens;
use quote::value::{IntKind, Value};
use quote::walk::ExpandError;

fn id(s: &str) -> Token {
    Token::Ident { text: s.to_string(), pos: 0 }
}

fn punct(c: char) -> Token {
    Token::Punct { ch: c, spacing: Spacing::Alone, pos: 0 }
}

fn lit(s: &str) -> Token {
    Token::Lit { text: s.to_string(), pos: 0 }
}

fn group(d: Delim, ts: Vec<Token>) -> Token {
    Token::Group { delim: d, inner: ts, pos: 0 }
}

fn bind(n: &str, v: Value) -> (String, Value) {
    (n.to_string(), v)
}

fn ex(ts: Vec<Token>, env: Vec<(String, Value)>, vals: Vec<Value>) -> String {
    expand(&Tokens::from_vec(ts), &env, &vals)
        .unwrap()
        .to_string()
}

// A literal `1` token spliced into every delimiter context renders with a
// space-separated form inside each bracket kind.
#[test]
fn scenario_substitution_brackets() {
    let n = Value::Toks(Tokens::from_vec(vec![lit("1")]));
    let template = vec![
        punct('#'),
        id("n"),
        punct('<'),
        punct('#'),
        id("n"),
        punct('>'),
        group(Delim::Paren, vec![punct('#'), id("n")]),
        group(Delim::Bracket, vec![punct('#'), id("n")]),
        group(Delim::Brace, vec![punct('#'), id("n")]),
    ];
    let expected = "1 < 1 > ( 1 ) [ 1 ] { 1 }";
    assert_eq!(expected, ex(template, vec![bind("n", n)], vec![]));
}

// A comma-separated repetition over the primes renders them joined.
#[test]
fn scenario_primes_joined() {
    let primes = Value::List(vec![
        Value::Toks(Tokens::from_vec(vec![lit("2")])),
        Value::Toks(Tokens::from_vec(vec![lit("3")])),
        Value::Toks(Tokens::from_vec(vec![lit("5")])),
        Value::Toks(Tokens::from_vec(vec![lit("7")])),
    ]);
    let template = vec![
        punct('#'),
        group(Delim::Paren, vec![punct('#'), id("primes")]),
        punct(','),
        punct('*'),
    ];
    let expected = "2 , 3 , 5 , 7";
    assert_eq!(expected, ex(template, vec![bind("primes", primes)], vec![]));
}

// A nested repetition flattens inner rows and joins them with the outer
// separator.
#[test]
fn scenario_nested_rows() {
    let nested = Value::List(vec![
        Value::List(vec![
            Value::Toks(Tokens::from_vec(vec![id("a")])),
            Value::Toks(Tokens::from_vec(vec![id("b")])),
            Value::Toks(Tokens::from_vec(vec![id("c")])),
        ]),
        Value::List(vec![
            Value::Toks(Tokens::from_vec(vec![id("x")])),
            Value::Toks(Tokens::from_vec(vec![id("y")])),
            Value::Toks(Tokens::from_vec(vec![id("z")])),
        ]),
    ]);
    let template = vec![
        punct('#'),
        group(
            Delim::Paren,
            vec![
                punct('#'),
                group(Delim::Paren, vec![punct('#'), id("nested")]),
                punct('*'),
            ],
        ),
        punct(','),
        punct('*'),
    ];
    let expected = "a b c , x y z";
    assert_eq!(expected, ex(template, vec![bind("nested", nested)], vec![]));
}

// The zipping scenario: sequences of length 3 and 5 yield exactly 3
// comma-joined pairs, truncated to the shorter.
#[test]
fn scenario_zip_shortest() {
    let a = Value::List(
        (1u64..=3).map(|n| Value::Uint(n, IntKind::U8)).collect(),
    );
    let b = Value::List(
        (1u64..=5).map(|n| Value::Uint(n * 10, IntKind::U8)).collect(),
    );
    let template = vec![
        punct('#'),
        group(
            Delim::Paren,
            vec![punct('#'), id("a"), punct('#'), id("b")],
        ),
        punct(','),
        punct('*'),
    ];
    let expected = "1u8 10u8 , 2u8 20u8 , 3u8 30u8";
    assert_eq!(
        expected,
        ex(template, vec![bind("a", a), bind("b", b)], vec![])
    );
}

// The signed minimum of an eight-bit type renders as a parenthesised cast,
// not a bare negative literal.
#[test]
fn scenario_signed_minimum() {
    let x = Value::Int(i8::MIN as i64, IntKind::I8);
    let template = vec![punct('#'), id("x")];
    let expected = "( 18446744073709551488u64 as i8 )";
    assert_eq!(expected, ex(template, vec![bind("x", x)], vec![]));
}

// Signed minimums of the wider types take the same cast form.
#[test]
fn scenario_signed_minimum_wide() {
    let template = vec![punct('#'), id("x")];
    let env16 = vec![bind("x", Value::Int(i16::MIN as i64, IntKind::I16))];
    assert_eq!(
        "( 18446744073709518848u64 as i16 )",
        ex(template.clone(), env16, vec![])
    );
    let env64 = vec![bind("x", Value::Int(i64::MIN, IntKind::I64))];
    assert_eq!(
        "( 9223372036854775808u64 as i64 )",
        ex(template, env64, vec![])
    );
}

// A raw identifier in the template renders through the specialised path,
// keeping its marker in the output text.
#[test]
fn scenario_raw_identifier() {
    let template = vec![id("r#struct"), id("after")];
    assert_eq!("r#struct after", ex(template, vec![], vec![]));
}

// Re-running the classifier on a rejected run yields the same rejection
// with the same tokens.
#[test]
fn classifier_rerun_same_outcome() {
    // `; ;` after a repetition body: two alone-spaced separators reject.
    let run = vec![punct(';'), punct(';'), punct('*')];
    let first = classify_separator(&run, 0);
    match first {
        ScanOutcome::Invalid { undo, used } => {
            assert_eq!(used, 2);
            let second = classify_separator(&undo, 0);
            match second {
                ScanOutcome::Invalid { undo: undo2, used: used2 } => {
                    assert_eq!(used2, 2);
                    assert_eq!(
                        Tokens::from_vec(undo2).to_string(),
                        "; ;".to_string()
                    );
                },
                _ => panic!("second scan accepted a rejected run"),
            }
        },
        _ => panic!("first scan accepted an invalid run"),
    }
}

// A rejected separator run falls back to literal content: the sigil and
// the group render as ordinary tokens.
#[test]
fn scenario_separator_fallback() {
    // `#(x) y` — no repetition marker follows the group.
    let template = vec![
        punct('#'),
        group(Delim::Paren, vec![id("x")]),
        id("y"),
    ];
    assert_eq!("# ( x ) y", ex(template, vec![], vec![]));
}

// A sigil followed by a bracketed group emits the sigil and recurses into
// the group, so attribute-like content survives with splices applied.
#[test]
fn scenario_pound_bracket() {
    let template = vec![
        punct('#'),
        group(Delim::Bracket, vec![id("derive"), punct('#'), id("x")]),
    ];
    let env = vec![bind("x", Value::Toks(Tokens::from_vec(vec![id("Clone")])))];
    assert_eq!("# [ derive Clone ]", ex(template, env, vec![]));
}

// An empty-capture repetition is a construction failure, not a silent
// empty output: the count would be unbounded.  The error carries the
// position tag of the offending repetition's body.
#[test]
fn error_empty_repetition() {
    let template = vec![
        punct('#'),
        Token::Group { delim: Delim::Paren, inner: vec![id("a"), id("b")], pos: 41 },
        punct('*'),
    ];
    let r = expand(&Tokens::from_vec(template), &vec![], &vec![]);
    match r {
        Err(ExpandError::EmptyRepetition { pos }) => assert_eq!(pos, 41),
        _ => panic!("expected an empty-repetition failure"),
    }
}

// A splice with no binding fails, naming the variable.
#[test]
fn error_unbound_name() {
    let template = vec![punct('#'), id("missing")];
    let r = expand(&Tokens::from_vec(template), &vec![], &vec![]);
    match r {
        Err(ExpandError::Unbound { name }) => assert_eq!(name, "missing"),
        _ => panic!("expected an unbound-name failure"),
    }
}

// A repetition over a non-sequence binding fails, naming the variable.
#[test]
fn error_not_iterable() {
    let template = vec![
        punct('#'),
        group(Delim::Paren, vec![punct('#'), id("x")]),
        punct('*'),
    ];
    let env = vec![bind("x", Value::Bool(true))];
    let r = expand(&Tokens::from_vec(template), &env, &vec![]);
    match r {
        Err(ExpandError::NotIterable { name }) => assert_eq!(name, "x"),
        _ => panic!("expected a not-iterable failure"),
    }
}

// A computed splice with no host value left fails.
#[test]
fn error_missing_computed() {
    let template = vec![punct('#'), group(Delim::Brace, vec![id("x")])];
    let r = expand(&Tokens::from_vec(template), &vec![], &vec![]);
    assert!(matches!(r, Err(ExpandError::MissingComputed)));
}

// Error descriptions identify the offending region: the variable's name,
// or the repetition's position tag.
#[test]
fn error_descriptions() {
    let e = ExpandError::Unbound { name: "foo".to_string() };
    assert_eq!(e.describe(), "no binding for spliced name: foo");
    let e2 = ExpandError::EmptyRepetition { pos: 41 };
    assert_eq!(
        e2.describe(),
        "repetition at position tag 41 captures no variable to iterate over"
    );
}

// Every emitted token is stamped with the explicit position tag; spliced
// values keep their own tags.
#[test]
fn spanned_expansion_stamps_positions() {
    let template = vec![id("a"), group(Delim::Paren, vec![id("b")])];
    let out = expand_spanned(&Tokens::from_vec(template), &vec![], &vec![], 7).unwrap();
    let ts = out.into_vec();
    match &ts[0] {
        Token::Ident { text, pos } => {
            assert_eq!(text, "a");
            assert_eq!(*pos, 7);
        },
        _ => panic!("expected an identifier"),
    }
    match &ts[1] {
        Token::Group { pos, inner, .. } => {
            assert_eq!(*pos, 7);
            match &inner[0] {
                Token::Ident { pos, .. } => assert_eq!(*pos, 7),
                _ => panic!("expected an identifier in the group"),
            }
        },
        _ => panic!("expected a group"),
    }
}

// An identity expansion: a sigil-free template comes back exactly.
#[test]
fn identity_without_sigils() {
    let template = vec![
        id("fn"),
        id("main"),
        group(Delim::Paren, vec![]),
        group(Delim::Brace, vec![id("body"), punct(';')]),
    ];
    assert_eq!("fn main ( ) { body ; }", ex(template, vec![], vec![]));
}

// A repetition over an empty captured sequence yields the empty output.
#[test]
fn scenario_empty_sequence() {
    let xs = Value::List(vec![]);
    let template = vec![
        punct('#'),
        group(Delim::Paren, vec![punct('#'), id("xs")]),
        punct(','),
        punct('*'),
    ];
    assert_eq!("", ex(template, vec![bind("xs", xs)], vec![]));
}

// The degenerate separator: a jointly-spaced star acts as separator with
// the alone-spaced star as the marker.
#[test]
fn scenario_star_separator() {
    let xs = Value::List(vec![
        Value::Toks(Tokens::from_vec(vec![id("p")])),
        Value::Toks(Tokens::from_vec(vec![id("q")])),
    ]);
    // `#( #xs )**` with the first star jointly spaced.
    let template = vec![
        punct('#'),
        group(Delim::Paren, vec![punct('#'), id("xs")]),
        Token::Punct { ch: '*', spacing: Spacing::Joint, pos: 0 },
        punct('*'),
    ];
    // The joint star separates the two iterations; jointly-spaced
    // punctuation glues to what follows in the rendering.
    assert_eq!("p *q", ex(template, vec![bind("xs", xs)], vec![]));
}
