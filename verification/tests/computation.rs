//! Computed splices: the host evaluates each braced block and hands the
//! results over in evaluation order.

use quote::expand::expand;
use quote::token::{Delim, Spacing, Token};
use quote::tokens::Tokens;
use quote::value::Value;

fn id(s: &str) -> Token {
    Token::Ident { text: s.to_string(), pos: 0 }
}

fn punct(c: char) -> Token {
    Token::Punct { ch: c, spacing: Spacing::Alone, pos: 0 }
}

fn group(d: Delim, ts: Vec<Token>) -> Token {
    Token::Group { delim: d, inner: ts, pos: 0 }
}

fn quoted(s: &str) -> Tokens {
    Tokens::from_vec(vec![id(s)])
}

/// A template of four computed blocks joined by minus signs, as in
/// `#{..} - #{..} - #{..} - #{..}`.
fn four_computed(exprs: [Vec<Token>; 4]) -> Vec<Token> {
    let [e0, e1, e2, e3] = exprs;
    vec![
        punct('#'),
        group(Delim::Brace, e0),
        punct('-'),
        punct('#'),
        group(Delim::Brace, e1),
        punct('-'),
        punct('#'),
        group(Delim::Brace, e2),
        punct('-'),
        punct('#'),
        group(Delim::Brace, e3),
    ]
}

/// A template of three computed blocks joined by minus signs.
fn three_computed(exprs: [Vec<Token>; 3]) -> Vec<Token> {
    let [e0, e1, e2] = exprs;
    vec![
        punct('#'),
        group(Delim::Brace, e0),
        punct('-'),
        punct('#'),
        group(Delim::Brace, e1),
        punct('-'),
        punct('#'),
        group(Delim::Brace, e2),
    ]
}

fn ex(ts: Vec<Token>, vals: Vec<Value>) -> String {
    expand(&Tokens::from_vec(ts), &vec![], &vals)
        .unwrap()
        .to_string()
}

fn expected(words: &[&str]) -> String {
    let ts: Vec<Token> = words
        .iter()
        .enumerate()
        .flat_map(|(i, w)| {
            let mut v = vec![id(w)];
            if i + 1 < words.len() {
                v.push(punct('-'));
            }
            v
        })
        .collect();
    expand(&Tokens::from_vec(ts), &vec![], &vec![])
        .unwrap()
        .to_string()
}

#[test]
fn array_access() {
    let a = [quoted("zero"), quoted("one")];
    let b = [&a, &a];
    let template = four_computed([
        vec![id("a"), group(Delim::Bracket, vec![id("x0")])],
        vec![id("a"), group(Delim::Bracket, vec![id("x1")])],
        vec![id("b"), group(Delim::Bracket, vec![id("x1")]), group(Delim::Bracket, vec![id("x0")])],
        vec![id("b"), group(Delim::Bracket, vec![id("x0")]), group(Delim::Bracket, vec![id("x1")])],
    ]);
    let vals = vec![
        Value::Toks(a[0].clone()),
        Value::Toks(a[1].clone()),
        Value::Toks(b[1][0].clone()),
        Value::Toks(b[0][1].clone()),
    ];
    assert_eq!(ex(template, vals), expected(&["zero", "one", "zero", "one"]));
}

#[test]
fn tuple_access() {
    let a = (quoted("zero"), quoted("one"));
    let b = (&a, &a);
    let template = four_computed([
        vec![id("a"), punct('.'), id("f0")],
        vec![id("a"), punct('.'), id("f1")],
        vec![id("b"), punct('.'), id("f1"), punct('.'), id("f0")],
        vec![id("b"), punct('.'), id("f0"), punct('.'), id("f1")],
    ]);
    let vals = vec![
        Value::Toks(a.0.clone()),
        Value::Toks(a.1.clone()),
        Value::Toks((b.1).0.clone()),
        Value::Toks((b.0).1.clone()),
    ];
    assert_eq!(ex(template, vals), expected(&["zero", "one", "zero", "one"]));
}

struct SimpleStruct1D<T> {
    x: T,
}

struct SimpleStruct2D<T> {
    x: T,
    y: T,
}

#[test]
fn struct_access() {
    let a = SimpleStruct2D { x: quoted("zero"), y: quoted("one") };
    let b = SimpleStruct2D { x: &a, y: &a };
    let template = four_computed([
        vec![id("a"), punct('.'), id("x")],
        vec![id("a"), punct('.'), id("y")],
        vec![id("b"), punct('.'), id("y"), punct('.'), id("x")],
        vec![id("b"), punct('.'), id("x"), punct('.'), id("y")],
    ]);
    let vals = vec![
        Value::Toks(a.x.clone()),
        Value::Toks(a.y.clone()),
        Value::Toks(b.y.x.clone()),
        Value::Toks(b.x.y.clone()),
    ];
    assert_eq!(ex(template, vals), expected(&["zero", "one", "zero", "one"]));
}

#[test]
fn function_call() {
    let a = || quoted("Lorem");
    let b = (&a,);
    let c = [&a];
    let template = three_computed([
        vec![id("a"), group(Delim::Paren, vec![])],
        vec![id("b"), punct('.'), id("f0")],
        vec![id("c"), group(Delim::Bracket, vec![id("x0")])],
    ]);
    let vals = vec![
        Value::Toks(a()),
        Value::Toks((b.0)()),
        Value::Toks(c[0]()),
    ];
    assert_eq!(ex(template, vals), expected(&["Lorem", "Lorem", "Lorem"]));
}

#[test]
fn leading_array_access() {
    let tuple = [(quoted("tuple"),)];
    let strukt = [SimpleStruct1D { x: quoted("struct") }];
    let func = [|| quoted("func")];
    let template = three_computed([
        vec![id("tuple")],
        vec![id("strukt")],
        vec![id("func")],
    ]);
    let vals = vec![
        Value::Toks(tuple[0].0.clone()),
        Value::Toks(strukt[0].x.clone()),
        Value::Toks(func[0]()),
    ];
    assert_eq!(ex(template, vals), expected(&["tuple", "struct", "func"]));
}

#[test]
fn leading_tuple_access() {
    let strukt = (SimpleStruct1D { x: quoted("struct") },);
    let func = (|| quoted("func"),);
    let array = ([quoted("array")],);
    let template = three_computed([
        vec![id("strukt")],
        vec![id("func")],
        vec![id("array")],
    ]);
    let vals = vec![
        Value::Toks((strukt.0).x.clone()),
        Value::Toks((func.0)()),
        Value::Toks((array.0)[0].clone()),
    ];
    assert_eq!(ex(template, vals), expected(&["struct", "func", "array"]));
}

struct MixedStruct {
    array: Vec<Tokens>,
    tuple: (Tokens,),
}

impl MixedStruct {
    fn func(&self) -> Tokens {
        quoted("func")
    }
}

#[test]
fn leading_struct_access() {
    let a = MixedStruct { array: vec![quoted("array")], tuple: (quoted("tuple"),) };
    let template = three_computed([
        vec![id("a")],
        vec![id("a")],
        vec![id("a")],
    ]);
    let vals = vec![
        Value::Toks(a.func()),
        Value::Toks(a.array[0].clone()),
        Value::Toks(a.tuple.0.clone()),
    ];
    assert_eq!(ex(template, vals), expected(&["func", "array", "tuple"]));
}

#[test]
fn leading_function_call() {
    let array = || [quoted("array")];
    let tuple = || (quoted("tuple"),);
    let strukt = || SimpleStruct1D { x: quoted("struct") };
    let template = three_computed([
        vec![id("array")],
        vec![id("tuple")],
        vec![id("strukt")],
    ]);
    let vals = vec![
        Value::Toks(array()[0].clone()),
        Value::Toks(tuple().0.clone()),
        Value::Toks(strukt().x),
    ];
    assert_eq!(ex(template, vals), expected(&["array", "tuple", "struct"]));
}

// A computed block inside a repetition is consumed once per iteration,
// beside a captured name; the host builds its values through nested
// expansions.
#[test]
fn computed_in_loop_from_nested_expansions() {
    let foo: [&'static str; 3] = ["1", "2", "3"];
    let iter: Vec<Value> = foo.iter().map(|s| Value::Text(s.to_string())).collect();

    // The host evaluates #{ .. } each iteration by expanding `#(#inner),*`
    // over ["e", "+", "a"] and appending a comma.
    let inner_seq: Vec<Value> = ["e", "+", "a"]
        .iter()
        .map(|s| Value::Text(s.to_string()))
        .collect();
    let nested_template = vec![
        punct('#'),
        group(Delim::Paren, vec![punct('#'), id("inner")]),
        punct(','),
        punct('*'),
        punct(','),
    ];
    let nested = expand(
        &Tokens::from_vec(nested_template),
        &vec![("inner".to_string(), Value::List(inner_seq))],
        &vec![],
    )
    .unwrap();

    // Template: #( #iter, #{ .. } )*
    let template = vec![
        punct('#'),
        group(
            Delim::Paren,
            vec![
                punct('#'),
                id("iter"),
                punct(','),
                punct('#'),
                group(Delim::Brace, vec![id("computed")]),
            ],
        ),
        punct('*'),
    ];
    let env = vec![("iter".to_string(), Value::List(iter))];
    let vals = vec![
        Value::Toks(nested.clone()),
        Value::Toks(nested.clone()),
        Value::Toks(nested),
    ];
    let expected =
        r#""1" , "e" , "+" , "a" , "2" , "e" , "+" , "a" , "3" , "e" , "+" , "a" ,"#;
    let out = expand(&Tokens::from_vec(template), &env, &vals).unwrap();
    assert_eq!(expected, out.to_string());
}
