//! Identifier formatting, the splice protocol's bulk appends, and the
//! canonical text rendering.

use quote::ident_fragment::{FmtPiece, FragStyle, Fragment, format_ident};
use quote::to_tokens::ToTokens;
use quote::token::{Delim, Spacing, Token};
use quote::tokens::Tokens;

fn id(s: &str) -> Token {
    Token::Ident { text: s.to_string(), pos: 0 }
}

fn punct(c: char) -> Token {
    Token::Punct { ch: c, spacing: Spacing::Alone, pos: 0 }
}

fn named(s: &str, pos: u32) -> Fragment {
    Fragment::Named { text: s.to_string(), pos }
}

fn piece_lit(s: &str) -> FmtPiece {
    FmtPiece::Lit(s.to_string())
}

fn piece_arg(f: Fragment) -> FmtPiece {
    FmtPiece::Arg(f, FragStyle::Plain)
}

fn built_text(pieces: Vec<FmtPiece>) -> String {
    match format_ident(&pieces, None).unwrap() {
        Token::Ident { text, .. } => text,
        _ => panic!("expected an identifier"),
    }
}

#[test]
fn format_ident_concatenates() {
    let my_ident = built_text(vec![piece_lit("My"), piece_arg(Fragment::Text("Ident".to_string()))]);
    assert_eq!(my_ident, "MyIdent");
}

// The raw-identifier marker is stripped in fragment context.
#[test]
fn format_ident_strips_raw_marker() {
    let t = built_text(vec![
        piece_arg(named("MyIdent", 0)),
        piece_lit("Is"),
        piece_arg(named("r#Raw", 0)),
    ]);
    assert_eq!(t, "MyIdentIsRaw");
}

// A formatted raw identifier stays raw as a whole.
#[test]
fn format_ident_raw_result() {
    let t = built_text(vec![piece_lit("r#Raw")]);
    assert_eq!(t, "r#Raw");
}

#[test]
fn format_ident_integer_styles() {
    let num: u64 = 10;
    assert_eq!(
        built_text(vec![piece_lit("Id_"), FmtPiece::Arg(Fragment::Unsigned(num), FragStyle::Plain)]),
        "Id_10"
    );
    assert_eq!(
        built_text(vec![piece_lit("Id_"), FmtPiece::Arg(Fragment::Unsigned(num), FragStyle::Octal)]),
        "Id_12"
    );
    assert_eq!(
        built_text(vec![piece_lit("Id_"), FmtPiece::Arg(Fragment::Unsigned(num), FragStyle::Binary)]),
        "Id_1010"
    );
    assert_eq!(
        built_text(vec![
            piece_lit("Id_"),
            FmtPiece::Arg(Fragment::Unsigned(num), FragStyle::LowerHex),
        ]),
        "Id_a"
    );
    assert_eq!(
        built_text(vec![
            piece_lit("Id_"),
            FmtPiece::Arg(Fragment::Unsigned(num), FragStyle::UpperHex),
        ]),
        "Id_A"
    );
}

// Text that does not form an identifier yields no token.
#[test]
fn format_ident_rejects_invalid() {
    assert!(format_ident(&vec![piece_lit("1abc")], None).is_none());
    assert!(format_ident(&vec![], None).is_none());
    assert!(format_ident(&vec![piece_lit("has space")], None).is_none());
    assert!(format_ident(&vec![piece_lit("r#")], None).is_none());
}

// The built identifier inherits the first argument's position unless an
// explicit tag overrides it.
#[test]
fn format_ident_position_inheritance() {
    let pieces = vec![piece_lit("My"), piece_arg(named("Ident", 5))];
    match format_ident(&pieces, None).unwrap() {
        Token::Ident { pos, .. } => assert_eq!(pos, 5),
        _ => panic!("expected an identifier"),
    }
    match format_ident(&pieces, Some(9)).unwrap() {
        Token::Ident { pos, .. } => assert_eq!(pos, 9),
        _ => panic!("expected an identifier"),
    }
    match format_ident(&vec![piece_lit("Plain")], None).unwrap() {
        Token::Ident { pos, .. } => assert_eq!(pos, 0),
        _ => panic!("expected an identifier"),
    }
}

#[test]
fn format_ident_boolean_fragment() {
    assert_eq!(
        built_text(vec![piece_lit("is_"), piece_arg(Fragment::Boolean(true))]),
        "is_true"
    );
}

#[test]
fn append_all_renders_each() {
    let mut t = Tokens::new();
    t.append_all(&vec![1u32, 2u32, 3u32]);
    assert_eq!("1u32 2u32 3u32", t.to_string());
}

#[test]
fn append_separated_joins() {
    let mut t = Tokens::new();
    t.append_separated(&vec![1u8, 2u8], &punct(','));
    assert_eq!("1u8 , 2u8", t.to_string());
    let mut empty = Tokens::new();
    empty.append_separated(&Vec::<u8>::new(), &punct(','));
    assert_eq!("", empty.to_string());
}

#[test]
fn append_terminated_trails() {
    let mut t = Tokens::new();
    t.append_terminated(&vec![true, false], &punct(';'));
    assert_eq!("true ; false ;", t.to_string());
}

#[test]
fn protocol_primitive_renderings() {
    let mut t = Tokens::new();
    (-7i16).to_tokens(&mut t);
    'x'.to_tokens(&mut t);
    "hi".to_string().to_tokens(&mut t);
    false.to_tokens(&mut t);
    9usize.to_tokens(&mut t);
    assert_eq!("-7i16 'x' \"hi\" false 9usize", t.to_string());
}

#[test]
fn protocol_option_renders_present_only() {
    let mut t = Tokens::new();
    Option::<u8>::None.to_tokens(&mut t);
    Some(3u8).to_tokens(&mut t);
    assert_eq!("3u8", t.to_string());
}

// An indirection wrapper delegates to its referent unconditionally.
#[test]
fn protocol_box_delegates() {
    let mut t = Tokens::new();
    Box::new(5u8).to_tokens(&mut t);
    Box::new(Some('y')).to_tokens(&mut t);
    assert_eq!("5u8 'y'", t.to_string());
}

#[test]
fn protocol_into_tokens() {
    let t = 42u64.into_tokens();
    assert_eq!("42u64", t.to_string());
}

// Jointly-spaced punctuation glues to the next token in the rendering.
#[test]
fn display_joint_punctuation() {
    let t = Tokens::from_vec(vec![
        id("std"),
        Token::Punct { ch: ':', spacing: Spacing::Joint, pos: 0 },
        punct(':'),
        id("cmp"),
    ]);
    assert_eq!("std :: cmp", t.to_string());
}

// Delimiters render with one space inside, and a bare group renders only
// its contents.
#[test]
fn display_group_forms() {
    let t = Tokens::from_vec(vec![
        Token::Group { delim: Delim::Paren, inner: vec![], pos: 0 },
        Token::Group { delim: Delim::Bracket, inner: vec![id("a")], pos: 0 },
        Token::Group { delim: Delim::Bare, inner: vec![id("b"), id("c")], pos: 0 },
    ]);
    assert_eq!("( ) [ a ] b c", t.to_string());
}

// Tokens counts and the underlying vector agree.
#[test]
fn tokens_len_and_vec() {
    let mut t = Tokens::new();
    t.append(id("one"));
    t.append(punct(';'));
    assert_eq!(2, t.len());
    assert_eq!(2, t.tokens().len());
    let v = t.clone().into_vec();
    assert_eq!(2, v.len());
}
