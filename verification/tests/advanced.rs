//! Larger templates: whole item definitions with splices throughout.

use quote::expand::expand;
use quote::token::{Delim, Spacing, Token};
use quote::tokens::Tokens;
use quote::value::Value;

fn id(s: &str) -> Token {
    Token::Ident { text: s.to_string(), pos: 0 }
}

fn punct(c: char) -> Token {
    Token::Punct { ch: c, spacing: Spacing::Alone, pos: 0 }
}

fn jpunct(c: char) -> Token {
    Token::Punct { ch: c, spacing: Spacing::Joint, pos: 0 }
}

fn group(d: Delim, ts: Vec<Token>) -> Token {
    Token::Group { delim: d, inner: ts, pos: 0 }
}

fn bind(n: &str, ts: Vec<Token>) -> (String, Value) {
    (n.to_string(), Value::Toks(Tokens::from_vec(ts)))
}

/// The two tokens of a lifetime: a joint quote and its name.
fn lifetime(n: &str) -> Vec<Token> {
    vec![jpunct('\''), id(n)]
}

/// The two tokens of a path separator.
fn colon2() -> Vec<Token> {
    vec![jpunct(':'), punct(':')]
}

fn ex(ts: Vec<Token>, env: Vec<(String, Value)>) -> String {
    expand(&Tokens::from_vec(ts), &env, &vec![])
        .unwrap()
        .to_string()
}

#[test]
fn test_quote_impl() {
    let mut template: Vec<Token> = vec![id("impl"), punct('<')];
    template.extend(lifetime("a"));
    template.extend(vec![
        punct(','),
        id("T"),
        punct(':'),
        id("ToTokens"),
        punct('>'),
        id("ToTokens"),
        id("for"),
        punct('&'),
    ]);
    template.extend(lifetime("a"));
    template.push(id("T"));
    let fn_args: Vec<Token> = vec![
        punct('&'),
        id("self"),
        punct(','),
        id("tokens"),
        punct(':'),
        punct('&'),
        id("mut"),
        id("Tokens"),
    ];
    let body = group(
        Delim::Brace,
        vec![
            group(Delim::Paren, vec![punct('*'), punct('*'), id("self")]),
            punct('.'),
            id("to_tokens"),
            group(Delim::Paren, vec![id("tokens")]),
        ],
    );
    let mut inner: Vec<Token> = vec![id("fn"), id("to_tokens")];
    inner.push(group(Delim::Paren, fn_args));
    inner.push(body);
    template.push(group(Delim::Brace, inner));

    let expected = concat_words(&[
        "impl < 'a , T : ToTokens > ToTokens for & 'a T { ",
        "fn to_tokens ( & self , tokens : & mut Tokens ) { ",
        "( * * self ) . to_tokens ( tokens ) ",
        "} ",
        "}",
    ]);

    assert_eq!(expected, ex(template, vec![]));
}

fn concat_words(parts: &[&str]) -> String {
    let mut s = String::new();
    for p in parts {
        s.push_str(p);
    }
    s
}

fn splice(name: &str) -> Vec<Token> {
    vec![punct('#'), id(name)]
}

#[test]
fn test_advanced() {
    // generics = <'a, T>
    let mut generics: Vec<Token> = vec![punct('<')];
    generics.extend(lifetime("a"));
    generics.extend(vec![punct(','), id("T"), punct('>')]);

    // where_clause = where T: Serialize
    let where_clause = vec![id("where"), id("T"), punct(':'), id("Serialize")];

    // field_ty = String
    let field_ty = vec![id("String")];

    // item_ty = Cow<'a, str>
    let mut item_ty: Vec<Token> = vec![id("Cow"), punct('<')];
    item_ty.extend(lifetime("a"));
    item_ty.extend(vec![punct(','), id("str"), punct('>')]);

    // path = SomeTrait::serialize_with
    let mut path: Vec<Token> = vec![id("SomeTrait")];
    path.extend(colon2());
    path.push(id("serialize_with"));

    // value = self.x
    let value = vec![id("self"), punct('.'), id("x")];

    let env = vec![
        bind("generics", generics),
        bind("where_clause", where_clause),
        bind("field_ty", field_ty),
        bind("item_ty", item_ty),
        bind("path", path),
        bind("value", value),
    ];

    // struct SerializeWith #generics #where_clause { .. }
    let mut template: Vec<Token> = vec![id("struct"), id("SerializeWith")];
    template.extend(splice("generics"));
    template.extend(splice("where_clause"));
    let mut struct_body: Vec<Token> = vec![id("value"), punct(':'), punct('&')];
    struct_body.extend(lifetime("a"));
    struct_body.extend(splice("field_ty"));
    struct_body.push(punct(','));
    struct_body.extend(vec![id("phantom"), punct(':')]);
    struct_body.extend(colon2());
    struct_body.push(id("std"));
    struct_body.extend(colon2());
    struct_body.push(id("marker"));
    struct_body.extend(colon2());
    struct_body.extend(vec![id("PhantomData"), punct('<')]);
    struct_body.extend(splice("item_ty"));
    struct_body.extend(vec![punct('>'), punct(',')]);
    template.push(group(Delim::Brace, struct_body));

    // impl #generics ::serde::Serialize for SerializeWith #generics #where_clause { .. }
    template.push(id("impl"));
    template.extend(splice("generics"));
    template.extend(colon2());
    template.push(id("serde"));
    template.extend(colon2());
    template.extend(vec![id("Serialize"), id("for"), id("SerializeWith")]);
    template.extend(splice("generics"));
    template.extend(splice("where_clause"));
    let mut impl_body: Vec<Token> = vec![id("fn"), id("serialize"), punct('<'), id("S"), punct('>')];
    impl_body.push(group(
        Delim::Paren,
        vec![
            punct('&'),
            id("self"),
            punct(','),
            id("s"),
            punct(':'),
            punct('&'),
            id("mut"),
            id("S"),
        ],
    ));
    impl_body.extend(vec![jpunct('-'), punct('>'), id("Result"), punct('<')]);
    impl_body.push(group(Delim::Paren, vec![]));
    impl_body.extend(vec![punct(','), id("S")]);
    impl_body.extend(colon2());
    impl_body.extend(vec![id("Error"), punct('>'), id("where"), id("S"), punct(':')]);
    impl_body.extend(colon2());
    impl_body.push(id("serde"));
    impl_body.extend(colon2());
    impl_body.push(id("Serializer"));
    let mut call: Vec<Token> = splice("path");
    call.push(group(
        Delim::Paren,
        vec![id("self"), punct('.'), id("value"), punct(','), id("s")],
    ));
    impl_body.push(group(Delim::Brace, call));
    template.push(group(Delim::Brace, impl_body));

    // SerializeWith { value: #value, phantom: ::std::marker::PhantomData::<#item_ty>, }
    template.push(id("SerializeWith"));
    let mut init_body: Vec<Token> = vec![id("value"), punct(':')];
    init_body.extend(splice("value"));
    init_body.extend(vec![punct(','), id("phantom"), punct(':')]);
    init_body.extend(colon2());
    init_body.push(id("std"));
    init_body.extend(colon2());
    init_body.push(id("marker"));
    init_body.extend(colon2());
    init_body.push(id("PhantomData"));
    init_body.extend(colon2());
    init_body.push(punct('<'));
    init_body.extend(splice("item_ty"));
    init_body.extend(vec![punct('>'), punct(',')]);
    template.push(group(Delim::Brace, init_body));

    let expected = concat_words(&[
        "struct SerializeWith < 'a , T > where T : Serialize { ",
        "value : & 'a String , ",
        "phantom : :: std :: marker :: PhantomData < Cow < 'a , str > > , ",
        "} ",
        "impl < 'a , T > :: serde :: Serialize for SerializeWith < 'a , T > where T : Serialize { ",
        "fn serialize < S > ( & self , s : & mut S ) -> Result < ( ) , S :: Error > ",
        "where S : :: serde :: Serializer ",
        "{ ",
        "SomeTrait :: serialize_with ( self . value , s ) ",
        "} ",
        "} ",
        "SerializeWith { ",
        "value : self . x , ",
        "phantom : :: std :: marker :: PhantomData :: < Cow < 'a , str > > , ",
        "}",
    ]);

    assert_eq!(expected, ex(template, env));
}
