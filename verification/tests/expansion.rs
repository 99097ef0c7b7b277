//! Expansion behaviour over whole templates.

use quote::expand::expand;
use quote::token::{Delim, Spacing, Token};
use quote::tokens::Tokens;
use quote::value::{IntKind, Value};

fn id(s: &str) -> Token {
    Token::Ident { text: s.to_string(), pos: 0 }
}

fn punct(c: char) -> Token {
    Token::Punct { ch: c, spacing: Spacing::Alone, pos: 0 }
}

fn jpunct(c: char) -> Token {
    Token::Punct { ch: c, spacing: Spacing::Joint, pos: 0 }
}

fn lit(s: &str) -> Token {
    Token::Lit { text: s.to_string(), pos: 0 }
}

fn group(d: Delim, ts: Vec<Token>) -> Token {
    Token::Group { delim: d, inner: ts, pos: 0 }
}

fn bind(n: &str, v: Value) -> (String, Value) {
    (n.to_string(), v)
}

fn toks(ts: Vec<Token>) -> Value {
    Value::Toks(Tokens::from_vec(ts))
}

fn ex(ts: Vec<Token>, env: Vec<(String, Value)>, vals: Vec<Value>) -> String {
    expand(&Tokens::from_vec(ts), &env, &vals)
        .unwrap()
        .to_string()
}

#[test]
fn test_simple_computation_in_interpolation() {
    let foo: [u32; 3] = [0, 1, 42];
    // Template: #{foo[2]} — the host evaluates the computed block.
    let template = vec![
        punct('#'),
        group(Delim::Brace, vec![id("foo"), group(Delim::Bracket, vec![lit("2")])]),
    ];
    let vals = vec![Value::Uint(foo[2] as u64, IntKind::U32)];
    let expected = "42u32";
    assert_eq!(expected, ex(template, vec![], vals));
}

#[test]
fn test_simple_computation_in_loop() {
    let foo: [&'static str; 3] = ["1", "2", "3"];
    let iter: Vec<Value> = foo.iter().map(|s| Value::Text(s.to_string())).collect();
    // Template: #( #iter, #{"+"}, )* — the computed block is evaluated once
    // per iteration by the host.
    let template = vec![
        punct('#'),
        group(
            Delim::Paren,
            vec![
                punct('#'),
                id("iter"),
                punct(','),
                punct('#'),
                group(Delim::Brace, vec![lit("\"+\"")]),
                punct(','),
            ],
        ),
        punct('*'),
    ];
    let env = vec![bind("iter", Value::List(iter))];
    let vals = vec![
        Value::Text("+".to_string()),
        Value::Text("+".to_string()),
        Value::Text("+".to_string()),
    ];
    let expected = r#""1" , "+" , "2" , "+" , "3" , "+" ,"#;
    assert_eq!(expected, ex(template, env, vals));
}

#[test]
fn test_complex_computation_in_interpolation() {
    // Template: let #{ ... } = #{ ... }; with both computed blocks
    // evaluated by the host.
    let template = vec![
        id("let"),
        punct('#'),
        group(Delim::Brace, vec![id("Foo")]),
        punct('='),
        punct('#'),
        group(Delim::Brace, vec![id("hello")]),
        punct(';'),
    ];
    let vals = vec![toks(vec![id("foo")]), toks(vec![lit("\"Hello World!\"")])];
    let expected = "let foo = \"Hello World!\" ;";
    assert_eq!(expected, ex(template, vec![], vals));
}

#[test]
fn test_append_tokens() {
    let mut tokens = expand(&Tokens::from_vec(vec![id("let"), id("x"), punct('=')]), &vec![], &vec![])
        .unwrap();
    let more = expand(
        &Tokens::from_vec(vec![lit("\"Hello World!\""), punct(';')]),
        &vec![],
        &vec![],
    )
    .unwrap();
    tokens.append_tokens(&more);
    let expected = "let x = \"Hello World!\" ;";
    assert_eq!(expected, tokens.to_string());
}

#[test]
fn test_substitution() {
    let x = toks(vec![id("X")]);
    let template = vec![
        punct('#'),
        id("x"),
        punct('<'),
        punct('#'),
        id("x"),
        punct('>'),
        group(Delim::Paren, vec![punct('#'), id("x")]),
        group(Delim::Bracket, vec![punct('#'), id("x")]),
        group(Delim::Brace, vec![punct('#'), id("x")]),
    ];
    let expected = "X < X > ( X ) [ X ] { X }";
    assert_eq!(expected, ex(template, vec![bind("x", x)], vec![]));
}

#[test]
fn test_iter() {
    let primes = || {
        Value::List(vec![
            toks(vec![id("X")]),
            toks(vec![id("X")]),
            toks(vec![id("X")]),
            toks(vec![id("X")]),
        ])
    };

    // #(#primes)*
    let t1 = vec![
        punct('#'),
        group(Delim::Paren, vec![punct('#'), id("primes")]),
        punct('*'),
    ];
    assert_eq!("X X X X", ex(t1, vec![bind("primes", primes())], vec![]));

    // #(#primes,)*
    let t2 = vec![
        punct('#'),
        group(Delim::Paren, vec![punct('#'), id("primes"), punct(',')]),
        punct('*'),
    ];
    assert_eq!("X , X , X , X ,", ex(t2, vec![bind("primes", primes())], vec![]));

    // #(#primes),*
    let t3 = vec![
        punct('#'),
        group(Delim::Paren, vec![punct('#'), id("primes")]),
        punct(','),
        punct('*'),
    ];
    assert_eq!("X , X , X , X", ex(t3, vec![bind("primes", primes())], vec![]));
}

#[test]
fn test_unit() {
    let x = Value::Tup(vec![]);
    let template = vec![punct('#'), id("x")];
    let expected = "( )";
    assert_eq!(expected, ex(template, vec![bind("x", x)], vec![]));
}

#[test]
fn test_tuple() {
    let x = Value::Tup(vec![
        Value::Text("foo".to_string()),
        Value::Uint(4, IntKind::U32),
    ]);
    let template = vec![punct('#'), id("x")];
    let expected = "( \"foo\" , 4u32 , )";
    assert_eq!(expected, ex(template, vec![bind("x", x)], vec![]));
}

#[test]
fn test_array() {
    let x = Value::List(vec![
        Value::Uint(1, IntKind::U32),
        Value::Uint(2, IntKind::U32),
        Value::Uint(3, IntKind::U32),
    ]);
    let template = vec![punct('#'), id("x")];
    let expected = "[ 1u32 , 2u32 , 3u32 , ]";
    assert_eq!(expected, ex(template, vec![bind("x", x)], vec![]));
}

#[test]
fn test_slice() {
    let x = Value::List(vec![
        Value::Uint(1, IntKind::U32),
        Value::Uint(2, IntKind::U32),
        Value::Uint(3, IntKind::U32),
    ]);
    // Note: explicit `&`
    let template = vec![punct('&'), punct('#'), id("x")];
    let expected = "& [ 1u32 , 2u32 , 3u32 , ]";
    assert_eq!(expected, ex(template, vec![bind("x", x)], vec![]));
}

#[test]
fn test_vec() {
    let x = Value::List(vec![
        Value::Uint(1, IntKind::U32),
        Value::Uint(2, IntKind::U32),
        Value::Uint(3, IntKind::U32),
    ]);
    // Note: explicit `vec!`
    let template = vec![id("vec"), punct('!'), punct('#'), id("x")];
    let expected = "vec ! [ 1u32 , 2u32 , 3u32 , ]";
    assert_eq!(expected, ex(template, vec![bind("x", x)], vec![]));
}

#[test]
fn test_integer() {
    let ii8 = -1i8;
    let ii16 = -1i16;
    let ii32 = -1i32;
    let ii64 = -1i64;
    let iisize = -1isize;
    let uu8 = 1u8;
    let uu16 = 1u16;
    let uu32 = 1u32;
    let uu64 = 1u64;
    let uusize = 1usize;

    let template = vec![
        punct('#'),
        id("ii8"),
        punct('#'),
        id("ii16"),
        punct('#'),
        id("ii32"),
        punct('#'),
        id("ii64"),
        punct('#'),
        id("iisize"),
        punct('#'),
        id("uu8"),
        punct('#'),
        id("uu16"),
        punct('#'),
        id("uu32"),
        punct('#'),
        id("uu64"),
        punct('#'),
        id("uusize"),
    ];
    let env = vec![
        bind("ii8", Value::Int(ii8 as i64, IntKind::I8)),
        bind("ii16", Value::Int(ii16 as i64, IntKind::I16)),
        bind("ii32", Value::Int(ii32 as i64, IntKind::I32)),
        bind("ii64", Value::Int(ii64, IntKind::I64)),
        bind("iisize", Value::Int(iisize as i64, IntKind::Isize)),
        bind("uu8", Value::Uint(uu8 as u64, IntKind::U8)),
        bind("uu16", Value::Uint(uu16 as u64, IntKind::U16)),
        bind("uu32", Value::Uint(uu32 as u64, IntKind::U32)),
        bind("uu64", Value::Uint(uu64, IntKind::U64)),
        bind("uusize", Value::Uint(uusize as u64, IntKind::Usize)),
    ];
    let expected = "-1i8 -1i16 -1i32 -1i64 -1isize 1u8 1u16 1u32 1u64 1usize";
    assert_eq!(expected, ex(template, env, vec![]));
}

#[test]
fn test_floating() {
    let e32 = 2.71828f32;
    let e64 = 2.71828f64;

    // Floating-point values are rendered by the host into literal tokens.
    let template = vec![punct('#'), id("e32"), punct('#'), id("e64")];
    let env = vec![
        bind("e32", toks(vec![lit(&format!("{}f32", e32))])),
        bind("e64", toks(vec![lit(&format!("{}f64", e64))])),
    ];
    let expected = "2.71828f32 2.71828f64";
    assert_eq!(expected, ex(template, env, vec![]));
}

#[test]
fn test_char() {
    let zero = '\0';
    let pound = '#';
    let quote = '"';
    let apost = '\'';
    let newline = '\n';
    let heart = '\u{2764}';

    let template = vec![
        punct('#'),
        id("zero"),
        punct('#'),
        id("pound"),
        punct('#'),
        id("quote"),
        punct('#'),
        id("apost"),
        punct('#'),
        id("newline"),
        punct('#'),
        id("heart"),
    ];
    let env = vec![
        bind("zero", Value::Chr(zero)),
        bind("pound", Value::Chr(pound)),
        bind("quote", Value::Chr(quote)),
        bind("apost", Value::Chr(apost)),
        bind("newline", Value::Chr(newline)),
        bind("heart", Value::Chr(heart)),
    ];
    let expected = "'\\u{0}' '#' '\\\"' '\\'' '\\n' '\\u{2764}'";
    assert_eq!(expected, ex(template, env, vec![]));
}

#[test]
fn test_str() {
    let s = "\0 a 'b \" c";
    let template = vec![punct('#'), id("s")];
    let env = vec![bind("s", Value::Text(s.to_string()))];
    let expected = "\"\\u{0} a \\'b \\\" c\"";
    assert_eq!(expected, ex(template, env, vec![]));
}

#[test]
fn test_string() {
    let s = "\0 a 'b \" c".to_string();
    let template = vec![punct('#'), id("s")];
    let env = vec![bind("s", Value::Text(s))];
    let expected = "\"\\u{0} a \\'b \\\" c\"";
    assert_eq!(expected, ex(template, env, vec![]));
}

#[test]
fn test_duplicate() {
    let ch = 'x';
    let template = vec![punct('#'), id("ch"), punct('#'), id("ch")];
    let env = vec![bind("ch", Value::Chr(ch))];
    let expected = "'x' 'x'";
    assert_eq!(expected, ex(template, env, vec![]));
}

#[test]
fn test_fancy_repetition() {
    let foo = vec!["a", "b"];
    let bar = vec![true, false];

    // #(#foo: #bar),*
    let template = vec![
        punct('#'),
        group(
            Delim::Paren,
            vec![punct('#'), id("foo"), punct(':'), punct('#'), id("bar")],
        ),
        punct(','),
        punct('*'),
    ];
    let env = vec![
        bind(
            "foo",
            Value::List(foo.iter().map(|s| Value::Text(s.to_string())).collect()),
        ),
        bind(
            "bar",
            Value::List(bar.iter().map(|b| Value::Bool(*b)).collect()),
        ),
    ];
    let expected = r#""a" : true , "b" : false"#;
    assert_eq!(expected, ex(template, env, vec![]));
}

#[test]
fn test_nested_fancy_repetition() {
    let nested = vec![vec!['a', 'b', 'c'], vec!['x', 'y', 'z']];

    // #( #(#nested)* ),*
    let template = vec![
        punct('#'),
        group(
            Delim::Paren,
            vec![
                punct('#'),
                group(Delim::Paren, vec![punct('#'), id("nested")]),
                punct('*'),
            ],
        ),
        punct(','),
        punct('*'),
    ];
    let env = vec![bind(
        "nested",
        Value::List(
            nested
                .iter()
                .map(|row| Value::List(row.iter().map(|c| Value::Chr(*c)).collect()))
                .collect(),
        ),
    )];
    let expected = "'a' 'b' 'c' , 'x' 'y' 'z'";
    assert_eq!(expected, ex(template, env, vec![]));
}

#[test]
fn test_variable_name_conflict() {
    // The implementation of `#(...),*` iterates with its own counter, which
    // must not clash with a variable named `_i`.
    let _i = vec!['a', 'b'];
    let template = vec![
        punct('#'),
        group(Delim::Paren, vec![punct('#'), id("_i")]),
        punct(','),
        punct('*'),
    ];
    let env = vec![bind(
        "_i",
        Value::List(_i.iter().map(|c| Value::Chr(*c)).collect()),
    )];
    let expected = "'a' , 'b'";
    assert_eq!(expected, ex(template, env, vec![]));
}

#[test]
fn test_empty_quote() {
    let tokens = expand(&Tokens::new(), &vec![], &vec![]).unwrap();
    assert_eq!("", tokens.to_string());
}

#[test]
fn test_box_str() {
    let b = "str".to_owned().into_boxed_str();
    let template = vec![punct('#'), id("b")];
    let env = vec![bind("b", Value::Text(b.to_string()))];
    assert_eq!("\"str\"", ex(template, env, vec![]));
}

#[test]
fn test_ident() {
    let foo = "Foo";
    let bar = format!("Bar{}", 7);
    let template = vec![
        id("struct"),
        punct('#'),
        id("foo"),
        punct(';'),
        id("enum"),
        punct('#'),
        id("bar"),
        group(Delim::Brace, vec![]),
    ];
    let env = vec![
        bind("foo", toks(vec![id(foo)])),
        bind("bar", toks(vec![id(&bar)])),
    ];
    let expected = "struct Foo ; enum Bar7 { }";
    assert_eq!(expected, ex(template, env, vec![]));
}

#[test]
fn test_closure() {
    fn field_i(i: usize) -> String {
        format!("__field{}", i)
    }

    let fields: Vec<Value> = (0usize..3)
        .map(|i| Value::Toks(Tokens::from_vec(vec![Token::Ident {
            text: field_i(i),
            pos: 0,
        }])))
        .collect();

    let template = vec![
        punct('#'),
        group(Delim::Paren, vec![punct('#'), id("fields")]),
        punct('*'),
    ];
    let env = vec![bind("fields", Value::List(fields))];
    assert_eq!("__field0 __field1 __field2", ex(template, env, vec![]));
}

#[test]
fn test() {
    let x = 0i32;
    // x ::= "x" [#x q r#struct]
    let template = vec![
        id("x"),
        jpunct(':'),
        punct(':'),
        punct('='),
        lit("\"x\""),
        group(
            Delim::Bracket,
            vec![punct('#'), id("x"), id("q"), id("r#struct")],
        ),
    ];
    let env = vec![bind("x", Value::Int(x as i64, IntKind::I32))];
    assert_eq!("x :: = \"x\" [ 0i32 q r#struct ]", ex(template, env, vec![]));
}
