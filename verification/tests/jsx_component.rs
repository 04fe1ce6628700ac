//! End-to-end checks of the component macro's core: source text is lexed
//! with `proc_macro2`, handed to the library as tokens, and the result is
//! turned back into text and compared with the expected expansion.

use std::str::FromStr;

use bevy_jsx::expand::{jsx_component, missing_prop_message_string, partial_name};
use bevy_jsx::syntax::{JsxComponentInput, PropsBinding, SpanPart};
use bevy_jsx::tokens::{Delimiter, Ident, Spacing, Token};
use bevy_jsx::{WithChildren, WithMarker};

// ── Helpers ───────────────────────────────────────────────────────────────

fn convert(ts: proc_macro2::TokenStream, next: &mut u64) -> Vec<Token> {
    let mut out = Vec::new();
    for tt in ts {
        let span = *next;
        *next += 1;
        out.push(match tt {
            proc_macro2::TokenTree::Ident(i) => Token::Ident { name: i.to_string(), span },
            proc_macro2::TokenTree::Punct(p) => Token::Punct {
                ch: p.as_char(),
                spacing: match p.spacing() {
                    proc_macro2::Spacing::Alone => Spacing::Alone,
                    proc_macro2::Spacing::Joint => Spacing::Joint,
                },
                span,
            },
            proc_macro2::TokenTree::Literal(l) => Token::Literal { text: l.to_string(), span },
            proc_macro2::TokenTree::Group(g) => Token::Group {
                delimiter: match g.delimiter() {
                    proc_macro2::Delimiter::Parenthesis => Delimiter::Parenthesis,
                    proc_macro2::Delimiter::Brace => Delimiter::Brace,
                    proc_macro2::Delimiter::Bracket => Delimiter::Bracket,
                    proc_macro2::Delimiter::None => Delimiter::Invisible,
                },
                stream: convert(g.stream(), next),
                span,
            },
        });
    }
    out
}

/// Lexes `src`; every token gets its own span handle, from 1 on, in order.
fn lex(src: &str) -> Vec<Token> {
    let mut next = 1;
    convert(proc_macro2::TokenStream::from_str(src).unwrap(), &mut next)
}

fn unlex(tokens: &[Token]) -> proc_macro2::TokenStream {
    let span = proc_macro2::Span::call_site();
    tokens
        .iter()
        .map(|t| -> proc_macro2::TokenTree {
            match t {
                Token::Ident { name, .. } => match name.strip_prefix("r#") {
                    Some(raw) => proc_macro2::Ident::new_raw(raw, span).into(),
                    None => proc_macro2::Ident::new(name, span).into(),
                },
                Token::Punct { ch, spacing, .. } => proc_macro2::Punct::new(
                    *ch,
                    match spacing {
                        Spacing::Alone => proc_macro2::Spacing::Alone,
                        Spacing::Joint => proc_macro2::Spacing::Joint,
                    },
                )
                .into(),
                Token::Literal { text, .. } => proc_macro2::Literal::from_str(text).unwrap().into(),
                Token::Str { value, .. } => proc_macro2::Literal::string(value).into(),
                Token::Group { delimiter, stream, .. } => proc_macro2::Group::new(
                    match delimiter {
                        Delimiter::Parenthesis => proc_macro2::Delimiter::Parenthesis,
                        Delimiter::Brace => proc_macro2::Delimiter::Brace,
                        Delimiter::Bracket => proc_macro2::Delimiter::Bracket,
                        Delimiter::Invisible => proc_macro2::Delimiter::None,
                    },
                    unlex(stream),
                )
                .into(),
            }
        })
        .collect()
}

fn text(tokens: &[Token]) -> String {
    unlex(tokens).to_string()
}

fn norm(src: &str) -> String {
    proc_macro2::TokenStream::from_str(src).unwrap().to_string()
}

fn expand_ok(src: &str) -> Vec<Token> {
    match jsx_component(&lex(src)) {
        Ok(out) => out,
        Err(e) => panic!("unexpected error: {} at {}", e.message, e.span),
    }
}

fn expand_err(src: &str) -> (String, u64) {
    match jsx_component(&lex(src)) {
        Ok(out) => panic!("unexpected expansion: {}", text(&out)),
        Err(e) => (e.message, e.span),
    }
}

/// The message, span and the part of the spanned token an error points at.
fn expand_err_at(src: &str) -> (String, u64, SpanPart) {
    match jsx_component(&lex(src)) {
        Ok(out) => panic!("unexpected expansion: {}", text(&out)),
        Err(e) => (e.message, e.span, e.part),
    }
}

fn parse_ok(src: &str) -> JsxComponentInput {
    match JsxComponentInput::parse(&lex(src)) {
        Ok(inp) => inp,
        Err(e) => panic!("unexpected error: {} at {}", e.message, e.span),
    }
}

fn names(ids: &[Ident]) -> Vec<String> {
    ids.iter().map(|i| i.name.clone()).collect()
}

fn span_of(t: &Token) -> u64 {
    match t {
        Token::Ident { span, .. }
        | Token::Punct { span, .. }
        | Token::Literal { span, .. }
        | Token::Str { span, .. }
        | Token::Group { span, .. } => *span,
    }
}

const PANEL: &str = r#"
    /// Destructuring form with a spread.
    Panel(PanelProps) {
        width: Val = Val::Px(100.0),
        height: Val = Val::Px(50.0),
        flex_direction: FlexDirection = FlexDirection::Column,
        row_gap: Val = Val::Auto,
        background_color: Color = Color::NONE,
    }
    |{background_color, ..props}| {
        (
            Node {
                ..props,
                ..default()
            },
            BackgroundColor(background_color),
        )
    }
"#;

const LABEL: &str = r#"
    Label(LabelProps) {
        content: String,
        font_size: f32 = 16.0,
        color: Color = Color::WHITE,
    }
    |props| {
        (
            Text::new(props.content),
            TextFont { font_size: FontSize::Px(props.font_size), ..default() },
            TextColor(props.color),
        )
    }
"#;

// ── Parsing ───────────────────────────────────────────────────────────────

#[test]
fn parses_destructuring_definition() {
    let inp = parse_ok(PANEL);
    assert_eq!(inp.name.name, "Panel");
    assert_eq!(inp.props_name.name, "PanelProps");
    let fields: Vec<String> = inp.fields.iter().map(|f| f.name.name.clone()).collect();
    assert_eq!(fields, ["width", "height", "flex_direction", "row_gap", "background_color"]);
    assert!(inp.fields.iter().all(|f| f.default.is_some()));
    assert_eq!(text(&inp.fields[0].ty), norm("Val"));
    assert_eq!(text(inp.fields[0].default.as_ref().unwrap()), norm("Val::Px(100.0)"));
    // The doc comment is the definition's one attribute: `#` and `[...]`.
    assert_eq!(inp.attrs.len(), 2);
    match &inp.binding {
        PropsBinding::Destructured { extracted, rest } => {
            assert_eq!(names(extracted), ["background_color"]);
            assert_eq!(rest.as_ref().unwrap().name, "props");
        },
        PropsBinding::Whole(_) => panic!("expected a destructuring binding"),
    }
}

#[test]
fn parses_whole_props_definition_with_required_prop() {
    let inp = parse_ok(LABEL);
    assert!(inp.fields[0].default.is_none());
    assert_eq!(text(&inp.fields[0].ty), norm("String"));
    assert_eq!(text(inp.fields[1].default.as_ref().unwrap()), norm("16.0"));
    match &inp.binding {
        PropsBinding::Whole(id) => assert_eq!(id.name, "props"),
        PropsBinding::Destructured { .. } => panic!("expected the whole-props binding"),
    }
}

#[test]
fn type_with_top_level_commas_is_one_field() {
    let inp = parse_ok("M(MProps) { map: HashMap<u8, Vec<u8>> = HashMap::new(), n: u8 } |p| ()");
    assert_eq!(inp.fields.len(), 2);
    assert_eq!(text(&inp.fields[0].ty), norm("HashMap<u8, Vec<u8>>"));
    assert_eq!(text(inp.fields[0].default.as_ref().unwrap()), norm("HashMap::new()"));
    assert_eq!(inp.fields[1].name.name, "n");
    assert!(inp.fields[1].default.is_none());
}

#[test]
fn default_with_top_level_commas_is_one_expression() {
    let inp = parse_ok("F(FProps) { f: fn(u8, u8) -> u8 = |a, b| a + b, g: u8 = 1 } |p| ()");
    assert_eq!(inp.fields.len(), 2);
    assert_eq!(text(&inp.fields[0].ty), norm("fn(u8, u8) -> u8"));
    assert_eq!(text(inp.fields[0].default.as_ref().unwrap()), norm("|a, b| a + b"));
    assert_eq!(text(inp.fields[1].default.as_ref().unwrap()), norm("1"));
}

#[test]
fn field_attributes_are_kept() {
    let inp = parse_ok("A(AProps) { #[allow(dead_code)] /// doc\n x: u8 } |p| ()");
    assert_eq!(inp.fields.len(), 1);
    assert_eq!(inp.fields[0].attrs.len(), 4);
    assert_eq!(inp.fields[0].name.name, "x");
}

#[test]
fn destructuring_without_rest() {
    let inp = parse_ok("T(TProps) { color: Color = Color::BLACK } |{color}| { (Node::default(), BackgroundColor(color)) }");
    match &inp.binding {
        PropsBinding::Destructured { extracted, rest } => {
            assert_eq!(names(extracted), ["color"]);
            assert!(rest.is_none());
        },
        PropsBinding::Whole(_) => panic!("expected a destructuring binding"),
    }
}

// ── Parse errors ──────────────────────────────────────────────────────────

#[test]
fn keyword_is_not_a_component_name() {
    let (msg, span) = expand_err("fn(P) {} |p| p");
    assert_eq!(msg, "expected identifier, found keyword `fn`");
    assert_eq!(span, 1);
}

#[test]
fn missing_parentheses() {
    let (msg, _) = expand_err("X {} |p| p");
    assert_eq!(msg, "expected parentheses");
}

#[test]
fn more_than_a_props_name_in_parentheses() {
    let (msg, span) = expand_err("Btn(BtnProps, X) {} |p| p");
    assert_eq!(msg, "expected a single props struct name, e.g. `Btn(BtnProps)`");
    // Tokens: Btn=1, (...)=2, BtnProps=3, `,`=4.
    assert_eq!(span, 4);
}

#[test]
fn missing_fields_block() {
    let (msg, _) = expand_err("X(P) |p| p");
    assert_eq!(msg, "expected curly braces");
}

#[test]
fn missing_colon_after_field_name() {
    let (msg, _) = expand_err("X(P) { a u8 } |p| p");
    assert_eq!(msg, "expected `:`");
}

#[test]
fn missing_field_type() {
    let (msg, _) = expand_err("X(P) { a: , } |p| p");
    assert_eq!(msg, "expected a type");
}

#[test]
fn missing_default_expression() {
    let (msg, _) = expand_err("X(P) { a: u8 = , } |p| p");
    assert_eq!(msg, "expected an expression");
}

#[test]
fn type_followed_by_something_else() {
    // The type is `u8`, as far as a type goes; then a `,` is missing.
    // Tokens: X=1, (P)=2, P=3, {...}=4, a=5, `:`=6, u8=7, junk=8.
    let (msg, span) = expand_err("X(P) { a: u8 junk } |p| p");
    assert_eq!(msg, "expected `,`");
    assert_eq!(span, 8);
}

#[test]
fn default_followed_by_something_else() {
    // Tokens: a=5, `:`=6, u8=7, `=`=8, 1=9, 2=10.
    let (msg, span) = expand_err("X(P) { a: u8 = 1 2 } |p| p");
    assert_eq!(msg, "expected `,`");
    assert_eq!(span, 10);
}

#[test]
fn missing_type_at_end_of_block() {
    let (msg, span, part) = expand_err_at("X(P) { a: } |p| p");
    assert_eq!(msg, "unexpected end of input, expected a type");
    assert_eq!((span, part), (4, SpanPart::Close));
}

#[test]
fn missing_default_at_end_of_block() {
    let (msg, span, part) = expand_err_at("X(P) { a: u8 = } |p| p");
    assert_eq!(msg, "unexpected end of input, expected an expression");
    assert_eq!((span, part), (4, SpanPart::Close));
}

#[test]
fn type_with_associated_type_binding() {
    let inp = parse_ok("I(IProps) { it: Box<dyn Iterator<Item = u8>>, n: u8 = 2 } |p| ()");
    assert_eq!(inp.fields.len(), 2);
    assert_eq!(text(&inp.fields[0].ty), norm("Box<dyn Iterator<Item = u8>>"));
    assert!(inp.fields[0].default.is_none());
    assert_eq!(text(inp.fields[1].default.as_ref().unwrap()), norm("2"));
}

#[test]
fn pound_without_attribute() {
    // `#` must be followed by a bracketed group; the error points at `X`.
    let (msg, span) = expand_err("# X(P) {} |p| p");
    assert_eq!(msg, "expected square brackets");
    assert_eq!(span, 2);
}

#[test]
fn missing_closure_bar() {
    let (msg, _) = expand_err("X(P) {} p| p");
    assert_eq!(msg, "expected `|`");
    let (msg, _) = expand_err("X(P) {} |p p");
    assert_eq!(msg, "expected `|`");
}

#[test]
fn pattern_needs_commas() {
    let (msg, _) = expand_err("X(P) { a: u8 = 1, b: u8 = 2 } |{a b}| ()");
    assert_eq!(msg, "expected `,`");
}

#[test]
fn rest_must_come_last() {
    let (msg, _) = expand_err("X(P) { a: u8 = 1 } |{..rest, a}| ()");
    assert_eq!(msg, "`..rest` must be the last element of the pattern");
}

#[test]
fn missing_build_expression() {
    let (msg, span) = expand_err("X(P) {} |p|");
    assert_eq!(msg, "unexpected end of input, expected a build expression after the closure pattern");
    assert_eq!(span, bevy_jsx::tokens::CALL_SITE);
}

#[test]
fn undeclared_extracted_prop_is_refused() {
    let src = "T(TintedProps) { color: Color = Color::BLACK } |{colour}| { () }";
    let toks = lex(src);
    // The extracted name is the only token of the pattern group.
    let colour_span = match &toks[4] {
        Token::Group { stream, .. } => span_of(&stream[0]),
        _ => panic!("expected the pattern group"),
    };
    let (msg, span) = expand_err(src);
    assert_eq!(msg, "`colour` is not a declared prop of `TintedProps`");
    assert_eq!(span, colour_span);
}

#[test]
fn missing_props_name_at_end_of_parentheses() {
    // Tokens: X=1, ()=2; the error is at the end of the parentheses.
    let (msg, span, part) = expand_err_at("X() {} |p| p");
    assert_eq!(msg, "unexpected end of input, expected identifier");
    assert_eq!((span, part), (2, SpanPart::Close));
}

#[test]
fn missing_colon_at_end_of_block() {
    // Tokens: X=1, (P)=2, P=3, {a}=4; no "unexpected end of input" for a
    // missing punctuation character.
    let (msg, span, part) = expand_err_at("X(P) { a } |p| p");
    assert_eq!(msg, "expected `:`");
    assert_eq!((span, part), (4, SpanPart::Close));
}

#[test]
fn error_at_a_group_points_at_its_opening_delimiter() {
    // Tokens: X=1, [P]=2.
    let (msg, span, part) = expand_err_at("X [P] {} |p| p");
    assert_eq!(msg, "expected parentheses");
    assert_eq!((span, part), (2, SpanPart::Open));
    // Tokens: Btn=1, (...)=2, BtnProps=3, [x]=4.
    let (msg, span, part) = expand_err_at("Btn(BtnProps [x]) {} |p| p");
    assert_eq!(msg, "expected a single props struct name, e.g. `Btn(BtnProps)`");
    assert_eq!((span, part), (4, SpanPart::Open));
}

#[test]
fn errors_at_tokens_and_at_the_top_point_at_the_whole_token() {
    let (_, span, part) = expand_err_at("fn(P) {} |p| p");
    assert_eq!((span, part), (1, SpanPart::Whole));
    let (msg, span, part) = expand_err_at("X(P) {} |p|");
    assert_eq!(msg, "unexpected end of input, expected a build expression after the closure pattern");
    assert_eq!((span, part), (0, SpanPart::Whole));
}

#[test]
fn keyword_in_pattern() {
    let (msg, _) = expand_err("X(P) { a: u8 = 1 } |{fn}| ()");
    assert_eq!(msg, "expected identifier, found keyword `fn`");
}

fn invisible(tokens: Vec<Token>, span: u64) -> Token {
    Token::Group { delimiter: Delimiter::Invisible, stream: tokens, span }
}

#[test]
fn names_and_patterns_are_read_through_invisible_groups() {
    // `Panel` and the pattern `{color, ..props}` arrive wrapped in invisible
    // groups, as fragments passed on by another macro do.
    let mut input = Vec::new();
    input.push(invisible(lex("Panel"), 100));
    input.extend(lex("(PanelProps) { width: Val = Val::Auto, color: Color = Color::NONE } |"));
    input.push(invisible(vec![invisible(lex("{color, ..props}"), 101)], 102));
    input.extend(lex("| { (Node { ..props, ..default() }, BackgroundColor(color)) }"));
    let inp = match JsxComponentInput::parse(&input) {
        Ok(inp) => inp,
        Err(e) => panic!("unexpected error: {} at {}", e.message, e.span),
    };
    assert_eq!(inp.name.name, "Panel");
    match &inp.binding {
        PropsBinding::Destructured { extracted, rest } => {
            assert_eq!(names(extracted), ["color"]);
            assert_eq!(rest.as_ref().unwrap().name, "props");
        },
        PropsBinding::Whole(_) => panic!("expected a destructuring binding"),
    }
    let out = jsx_component(&input).unwrap();
    assert!(text(&out).contains(&norm("Node { width: __jsx_props.width, ..default() }")));
}

#[test]
fn field_type_in_invisible_group_is_kept_whole() {
    let mut block = lex("a:");
    block.push(invisible(lex("Vec<u8>"), 200));
    block.extend(lex("= Vec::new()"));
    let mut input = lex("X(XProps)");
    input.push(Token::Group { delimiter: Delimiter::Brace, stream: block, span: 201 });
    input.extend(lex("|p| ()"));
    let inp = match JsxComponentInput::parse(&input) {
        Ok(inp) => inp,
        Err(e) => panic!("unexpected error: {} at {}", e.message, e.span),
    };
    assert_eq!(inp.fields.len(), 1);
    assert_eq!(inp.fields[0].ty.len(), 1);
    assert!(matches!(inp.fields[0].ty[0], Token::Group { delimiter: Delimiter::Invisible, .. }));
}

// ── Expansion ─────────────────────────────────────────────────────────────

#[test]
fn destructuring_definition_expands_with_spread() {
    let out = expand_ok(PANEL);
    let expected = r#"
        /// Destructuring form with a spread.
        #[derive(Debug, Clone)]
        pub struct PanelProps {
            pub width: Val,
            pub height: Val,
            pub flex_direction: FlexDirection,
            pub row_gap: Val,
            pub background_color: Color,
        }
        #[doc(hidden)]
        #[derive(Debug, Clone)]
        pub struct __JsxPartialPanelProps {
            pub width: Val,
            pub height: Val,
            pub flex_direction: FlexDirection,
            pub row_gap: Val,
            pub background_color: Color,
        }
        impl ::core::default::Default for __JsxPartialPanelProps {
            fn default() -> Self {
                Self {
                    width: Val::Px(100.0),
                    height: Val::Px(50.0),
                    flex_direction: FlexDirection::Column,
                    row_gap: Val::Auto,
                    background_color: Color::NONE,
                }
            }
        }
        impl __JsxPartialPanelProps {
            #[doc(hidden)] pub fn width(&mut self, value: Val) { self.width = value; }
            #[doc(hidden)] pub fn height(&mut self, value: Val) { self.height = value; }
            #[doc(hidden)] pub fn flex_direction(&mut self, value: FlexDirection) { self.flex_direction = value; }
            #[doc(hidden)] pub fn row_gap(&mut self, value: Val) { self.row_gap = value; }
            #[doc(hidden)] pub fn background_color(&mut self, value: Color) { self.background_color = value; }
        }
        /// Destructuring form with a spread.
        pub struct Panel;
        impl ::bevy_jsx::__JsxComponent for Panel {
            type Props = __JsxPartialPanelProps;
            #[allow(unused_variables)]
            fn build(__jsx_partial_props: Self::Props) -> impl ::bevy_jsx::Spawnable {
                let __jsx_props = PanelProps {
                    width: __jsx_partial_props.width,
                    height: __jsx_partial_props.height,
                    flex_direction: __jsx_partial_props.flex_direction,
                    row_gap: __jsx_partial_props.row_gap,
                    background_color: __jsx_partial_props.background_color,
                };
                let PanelProps { background_color, .. } = __jsx_props;
                {
                    (
                        Node {
                            width: __jsx_props.width,
                            height: __jsx_props.height,
                            flex_direction: __jsx_props.flex_direction,
                            row_gap: __jsx_props.row_gap,
                            ..default()
                        },
                        BackgroundColor(background_color),
                    )
                }
            }
        }
    "#;
    assert_eq!(text(&out), norm(expected));
}

#[test]
fn required_prop_is_optional_in_partial_props_and_checked_in_build() {
    let out = expand_ok(LABEL);
    let expected = r#"
        #[derive(Debug, Clone)]
        pub struct LabelProps { pub content: String, pub font_size: f32, pub color: Color, }
        #[doc(hidden)]
        #[derive(Debug, Clone)]
        pub struct __JsxPartialLabelProps {
            pub content: ::core::option::Option<String> ,
            pub font_size: f32,
            pub color: Color,
        }
        impl ::core::default::Default for __JsxPartialLabelProps {
            fn default() -> Self {
                Self {
                    content: ::core::option::Option::None,
                    font_size: 16.0,
                    color: Color::WHITE,
                }
            }
        }
        impl __JsxPartialLabelProps {
            #[doc(hidden)] pub fn content(&mut self, value: String) { self.content = ::core::option::Option::Some(value); }
            #[doc(hidden)] pub fn font_size(&mut self, value: f32) { self.font_size = value; }
            #[doc(hidden)] pub fn color(&mut self, value: Color) { self.color = value; }
        }
        pub struct Label;
        impl ::bevy_jsx::__JsxComponent for Label {
            type Props = __JsxPartialLabelProps;
            #[allow(unused_variables)]
            fn build(__jsx_partial_props: Self::Props) -> impl ::bevy_jsx::Spawnable {
                let props = LabelProps {
                    content: __jsx_partial_props.content.expect("missing required prop `content` for `Label`"),
                    font_size: __jsx_partial_props.font_size,
                    color: __jsx_partial_props.color,
                };
                {
                    (
                        Text::new(props.content),
                        TextFont { font_size: FontSize::Px(props.font_size), ..default() },
                        TextColor(props.color),
                    )
                }
            }
        }
    "#;
    assert_eq!(text(&out), norm(expected));
}

#[test]
fn missing_required_prop_message() {
    let out = expand_ok("Label(LabelProps) { content: String } |props| ()");
    let rendered = text(&out);
    assert!(rendered.contains("\"missing required prop `content` for `Label`\""));
    let m = missing_prop_message_string(&"content".to_string(), &"Label".to_string());
    assert_eq!(m, "missing required prop `content` for `Label`");
}

#[test]
fn destructuring_without_rest_keeps_body() {
    let out = expand_ok("Tinted(TintedProps) { color: Color = Color::BLACK } |{color}| { (Node::default(), BackgroundColor(color)) }");
    let rendered = text(&out);
    assert!(rendered.contains(&norm(
        "let TintedProps { color, .. } = __jsx_props; { (Node::default(), BackgroundColor(color)) }"
    )));
}

#[test]
fn partial_move_of_non_copy_prop() {
    let out = expand_ok(
        "TitledBox(TitledBoxProps) { title: String, width: Val = Val::Px(10.0) } |{title, ..props}| { (Node { ..props, ..default() }, Text::new(title)) }",
    );
    let rendered = text(&out);
    assert!(rendered.contains(&norm("let TitledBoxProps { title, .. } = __jsx_props;")));
    assert!(rendered.contains(&norm("Node { width: __jsx_props.width, ..default() }")));
    assert!(!rendered.contains(&norm("title: __jsx_props.title")));
}

#[test]
fn spread_with_nothing_left_disappears() {
    let out = expand_ok("C(CProps) { a: u8 = 1 } |{a, ..rest}| { S { ..rest, b: a } }");
    assert!(text(&out).contains(&norm("{ S { b: a } }")));
}

#[test]
fn spread_mixed_with_explicit_fields() {
    let out = expand_ok(
        "C(CProps) { w: Val = Val::Auto, h: Val = Val::Auto, c: Color = Color::NONE } |{c, ..props}| { Node { ..props, width: Val::Percent(100.0), ..default() } }",
    );
    assert!(text(&out).contains(&norm(
        "Node { w: __jsx_props.w, h: __jsx_props.h, width: Val::Percent(100.0), ..default() }"
    )));
}

#[test]
fn composite_body_is_copied() {
    let src = "Card(CardProps) { title: String, width: Val = Val::Px(120.0) } |{title, width}| { element! { Panel(width: width) { Label(content: title) } } }";
    let out = expand_ok(src);
    assert!(text(&out).contains(&norm(
        "{ element! { Panel(width: width) { Label(content: title) } } }"
    )));
}

#[test]
fn doc_attributes_go_onto_both_structs() {
    let out = expand_ok("/// A card.\nCard(CardProps) { t: u8 = 0 } |p| ()");
    let rendered = text(&out);
    let doc = norm("/// A card.");
    assert_eq!(rendered.matches(&doc).count(), 2);
}

#[test]
fn raw_props_name_loses_prefix_in_partial_name() {
    let props = Ident { name: "r#Props".to_string(), span: 7 };
    let partial = partial_name(&props);
    assert_eq!(partial.name, "__JsxPartialProps");
    assert_eq!(partial.span, 7);
    let plain = partial_name(&Ident { name: "BtnProps".to_string(), span: 3 });
    assert_eq!(plain.name, "__JsxPartialBtnProps");
}

#[test]
fn generated_tokens_point_at_call_site_and_copied_ones_keep_their_span() {
    let input = lex("X(XProps) { a: u8 = 1 } |p| ()");
    let out = jsx_component(&input).unwrap();
    // `#` of `#[derive(..)]` is created by the expansion.
    assert_eq!(span_of(&out[0]), bevy_jsx::tokens::CALL_SITE);
    // `pub struct XProps`: the name is the input's `XProps` (token 3).
    assert_eq!(span_of(&out[4]), 3);
}

// ── Element types ─────────────────────────────────────────────────────────

#[test]
fn element_wrappers_hold_their_parts() {
    let el = WithChildren { bundle: 1u8, spawn_children: "kids" };
    assert_eq!(el.bundle, 1);
    assert_eq!(el.spawn_children, "kids");
    let marked = WithMarker { inner: el, marker: 'm' };
    assert_eq!(marked.marker, 'm');
    assert_eq!(marked.inner.bundle, 1);
}
