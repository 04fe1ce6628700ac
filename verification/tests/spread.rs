//! Checks of the `..rest` spread rewriting and of the helpers that decide
//! which props a spread stands for.

use std::str::FromStr;

use bevy_jsx::expand::{
    find_undeclared, rest_field_names, spread_expansion_tokens, undeclared_message_string,
};
use bevy_jsx::spread::rewrite_spread;
use bevy_jsx::syntax::FieldDef;
use bevy_jsx::tokens::{Delimiter, Ident, Spacing, Token};

fn convert(ts: proc_macro2::TokenStream, next: &mut u64) -> Vec<Token> {
    let mut out = Vec::new();
    for tt in ts {
        let span = *next;
        *next += 1;
        out.push(match tt {
            proc_macro2::TokenTree::Ident(i) => Token::Ident { name: i.to_string(), span },
            proc_macro2::TokenTree::Punct(p) => Token::Punct {
                ch: p.as_char(),
                spacing: match p.spacing() {
                    proc_macro2::Spacing::Alone => Spacing::Alone,
                    proc_macro2::Spacing::Joint => Spacing::Joint,
                },
                span,
            },
            proc_macro2::TokenTree::Literal(l) => Token::Literal { text: l.to_string(), span },
            proc_macro2::TokenTree::Group(g) => Token::Group {
                delimiter: match g.delimiter() {
                    proc_macro2::Delimiter::Parenthesis => Delimiter::Parenthesis,
                    proc_macro2::Delimiter::Brace => Delimiter::Brace,
                    proc_macro2::Delimiter::Bracket => Delimiter::Bracket,
                    proc_macro2::Delimiter::None => Delimiter::Invisible,
                },
                stream: convert(g.stream(), next),
                span,
            },
        });
    }
    out
}

fn lex(src: &str) -> Vec<Token> {
    let mut next = 1;
    convert(proc_macro2::TokenStream::from_str(src).unwrap(), &mut next)
}

/// Source text of tokens, one space between tokens except after a joint
/// punctuation character.
fn show(tokens: &[Token]) -> String {
    let mut out = String::new();
    for (i, t) in tokens.iter().enumerate() {
        let joint = match t {
            Token::Ident { name, .. } => {
                out.push_str(name);
                false
            },
            Token::Punct { ch, spacing, .. } => {
                out.push(*ch);
                *spacing == Spacing::Joint
            },
            Token::Literal { text, .. } => {
                out.push_str(text);
                false
            },
            Token::Str { value, .. } => {
                out.push_str(&format!("{:?}", value));
                false
            },
            Token::Group { delimiter, stream, .. } => {
                let (open, close) = match delimiter {
                    Delimiter::Parenthesis => ("(", ")"),
                    Delimiter::Brace => ("{", "}"),
                    Delimiter::Bracket => ("[", "]"),
                    Delimiter::Invisible => ("", ""),
                };
                out.push_str(open);
                out.push_str(&show(stream));
                out.push_str(close);
                false
            },
        };
        if i + 1 < tokens.len() && !joint {
            out.push(' ');
        }
    }
    out
}

fn shown(src: &str) -> String {
    show(&lex(src))
}

fn id(name: &str) -> Ident {
    Ident { name: name.to_string(), span: 0 }
}

fn field(name: &str, with_default: bool) -> FieldDef {
    FieldDef {
        attrs: Vec::new(),
        name: id(name),
        ty: lex("u8"),
        default: if with_default { Some(lex("0")) } else { None },
    }
}

fn rewrite(body: &str, rest: &str, exp: &str) -> String {
    show(&rewrite_spread(&lex(body), &id(rest), &lex(exp)))
}

#[test]
fn spread_is_replaced_with_its_comma() {
    assert_eq!(
        rewrite("Node { ..props, ..default() }", "props", "a: p.a,"),
        shown("Node { a: p.a, ..default() }")
    );
}

#[test]
fn spread_without_comma_at_the_end() {
    assert_eq!(rewrite("S { x: 1, ..props }", "props", "a: p.a,"), shown("S { x: 1, a: p.a, }"));
}

#[test]
fn spreads_inside_nested_groups_are_replaced() {
    assert_eq!(
        rewrite("(A { ..props }, [B { ..props, }])", "props", "a: p.a,"),
        shown("(A { a: p.a, }, [B { a: p.a, }])")
    );
}

#[test]
fn other_names_are_not_spreads() {
    assert_eq!(
        rewrite("S { ..other, ..default() }", "props", "a: p.a,"),
        shown("S { ..other, ..default() }")
    );
}

#[test]
fn body_without_spread_is_unchanged() {
    let body = lex("(Node { width: w, ..default() }, Text::new(t))");
    let out = rewrite_spread(&body, &id("props"), &lex("a: p.a,"));
    assert_eq!(show(&out), show(&body));
}

#[test]
fn groups_keep_their_spans() {
    let body = lex("f(S { ..props })");
    let out = rewrite_spread(&body, &id("props"), &lex("a: p.a,"));
    match (&body[1], &out[1]) {
        (Token::Group { span: a, .. }, Token::Group { span: b, .. }) => assert_eq!(a, b),
        _ => panic!("expected groups"),
    }
}

#[test]
fn no_spread_is_left_after_rewriting() {
    let out = rewrite("S { ..props, x: T { ..props } }", "props", "a: p.a,");
    assert!(!out.contains("props"));
    assert_eq!(out, shown("S { a: p.a, x: T { a: p.a, } }"));
}

#[test]
fn empty_expansion_removes_the_spread() {
    assert_eq!(rewrite("S { ..props, ..default() }", "props", ""), shown("S { ..default() }"));
}

#[test]
fn rest_names_follow_declaration_order() {
    let fields = vec![field("w", true), field("c", true), field("h", false)];
    let rest = rest_field_names(&fields, &vec![id("c")]);
    let names: Vec<&str> = rest.iter().map(|i| i.name.as_str()).collect();
    assert_eq!(names, ["w", "h"]);
    let exp = spread_expansion_tokens(&rest);
    assert_eq!(show(&exp), shown("w: __jsx_props.w, h: __jsx_props.h,"));
}

#[test]
fn nothing_left_when_everything_is_extracted() {
    let fields = vec![field("a", true)];
    let rest = rest_field_names(&fields, &vec![id("a")]);
    assert!(rest.is_empty());
    assert!(spread_expansion_tokens(&rest).is_empty());
}

#[test]
fn first_undeclared_name_is_found() {
    let fields = vec![field("a", true), field("b", true)];
    assert_eq!(find_undeclared(&vec![id("a"), id("b")], &fields), None);
    assert_eq!(find_undeclared(&vec![id("a"), id("x"), id("y")], &fields), Some(1));
    assert_eq!(find_undeclared(&Vec::new(), &fields), None);
    assert_eq!(
        undeclared_message_string(&"x".to_string(), &"Props".to_string()),
        "`x` is not a declared prop of `Props`"
    );
}
