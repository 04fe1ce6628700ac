use vstd::prelude::*;
use vstd::string::*;

use crate::spread::{
    lemma_free_q_equiv, lemma_rewrite_without_spread_is_identity, lemma_rewrite_leaves_no_spread, rewrite_spread, rewrite_spread_spec,
    splice_safe, spread_free,
};
use crate::syntax::{
    BindingView, ErrorView, FieldDef, FieldView, InputView, JsxComponentInput, ParseError,
    PropsBinding, SpanPart, error_at, parse_spec, view_fields,
};
use crate::tokens::{
    CALL_SITE, Delimiter, Ident, IdentView, Token, TokenView, alone, call_group, call_ident,
    copy_ident, is_joint_punct, is_punct, copy_tokens, ident_to_token, ident_token, joint, new_alone,
    new_group, new_ident, new_joint, push_all, push_token, view_idents, view_tokens,
    group_stream, is_group,
};

verus! {

// ── Names and messages ──────────────────────────────────────────────────

/// An identifier's name without its `r#` prefix, if it has one.
pub open spec fn strip_raw(n: Seq<char>) -> Seq<char> {
    if n.len() >= 2 && n[0] == 'r' && n[1] == '#' {
        n.skip(2)
    } else {
        n
    }
}

/// The hidden partial-props struct of `props`: `__JsxPartial` followed by
/// the props struct's name (without `r#`), at the props name's span.
pub open spec fn partial_ident(props: IdentView) -> IdentView {
    IdentView { name: "__JsxPartial"@ + strip_raw(props.name), span: props.span }
}

/// The panic message of `build` when the required prop `field` of the
/// component `component` was not given.
pub open spec fn missing_prop_message(field: Seq<char>, component: Seq<char>) -> Seq<char> {
    "missing required prop `"@ + field + "` for `"@ + component + "`"@
}

/// The error for an extracted name that is not a declared prop.
pub open spec fn undeclared_message(name: Seq<char>, props: Seq<char>) -> Seq<char> {
    "`"@ + name + "` is not a declared prop of `"@ + props + "`"@
}

/// The identifier that the build closure's props are bound to inside
/// `build` when the closure destructures them.
pub open spec fn hidden_arg() -> TokenView {
    call_ident("__jsx_props"@)
}

pub open spec fn str_token(value: Seq<char>) -> TokenView {
    TokenView::Str { value, span: CALL_SITE }
}

// ── Which props a destructuring leaves ──────────────────────────────────

/// A prop named `n` is declared among `fs`.
pub open spec fn is_declared(fs: Seq<FieldView>, n: Seq<char>) -> bool {
    exists|j: int| 0 <= j < fs.len() && #[trigger] fs[j].name.name == n
}

/// Some name in `xs` is `n`.
pub open spec fn names_contain(xs: Seq<IdentView>, n: Seq<char>) -> bool {
    exists|j: int| 0 <= j < xs.len() && #[trigger] xs[j].name == n
}

/// The first of `ex` that is not a declared prop.
pub open spec fn first_undeclared(ex: Seq<IdentView>, fs: Seq<FieldView>) -> Option<IdentView>
    decreases ex.len(),
{
    if ex.len() == 0 {
        None
    } else if !is_declared(fs, ex[0].name) {
        Some(ex[0])
    } else {
        first_undeclared(ex.drop_first(), fs)
    }
}

/// The names of the props that are not extracted, in declaration order.
pub open spec fn rest_fields(fs: Seq<FieldView>, ex: Seq<IdentView>) -> Seq<IdentView> {
    fs.filter_map(
        |f: FieldView|
            if names_contain(ex, f.name.name) {
                None
            } else {
                Some(f.name)
            },
    )
}

/// What a `..rest` spread stands for: `field: __jsx_props.field,` for each
/// of `rest`, in order.
pub open spec fn spread_expansion(rest: Seq<IdentView>) -> Seq<TokenView>
    decreases rest.len(),
{
    if rest.len() == 0 {
        seq![]
    } else {
        spread_expansion(rest.drop_last()) + seq![
            ident_token(rest.last()),
            alone(':'),
            hidden_arg(),
            alone('.'),
            ident_token(rest.last()),
            alone(','),
        ]
    }
}

// ── The pieces of the expansion ─────────────────────────────────────────

/// `::core::option::Option`
pub open spec fn option_path() -> Seq<TokenView> {
    seq![
        joint(':'),
        alone(':'),
        call_ident("core"@),
        joint(':'),
        alone(':'),
        call_ident("option"@),
        joint(':'),
        alone(':'),
        call_ident("Option"@),
    ]
}

/// `#[name(arg)]`
pub open spec fn attribute(name: Seq<char>, arg: Seq<TokenView>) -> Seq<TokenView> {
    seq![
        alone('#'),
        call_group(
            Delimiter::Bracket,
            seq![call_ident(name), call_group(Delimiter::Parenthesis, arg)],
        ),
    ]
}

/// `#[derive(Debug, Clone)]`
pub open spec fn derive_debug_clone() -> Seq<TokenView> {
    attribute("derive"@, seq![call_ident("Debug"@), alone(','), call_ident("Clone"@)])
}

/// `#[doc(hidden)]`
pub open spec fn doc_hidden() -> Seq<TokenView> {
    attribute("doc"@, seq![call_ident("hidden"@)])
}

/// What each prop contributes to one part of the expansion.
#[derive(Clone, Copy, Debug, PartialEq, Eq, Structural)]
pub enum FieldPart {
    /// Its field in the public props struct: `attrs pub name: Type,`.
    Decl,
    /// Its field in the partial props struct: `pub name: Type,` when it has
    /// a default, `pub name: ::core::option::Option<Type>,` when required.
    PartialDecl,
    /// Its initial value in the partial props: `name: default,`, or
    /// `name: ::core::option::Option::None,` when required.
    PartialDefault,
    /// Its setter on the partial props: `#[doc(hidden)] pub fn name(&mut
    /// self, value: Type) { self.name = value; }`, wrapping `value` in
    /// `Some` when required.
    Setter,
    /// Its resolution in `build`: `name: __jsx_partial_props.name,`,
    /// followed by `.expect("missing required prop ...")` when required.
    Resolve,
}

pub open spec fn field_part(part: FieldPart, f: FieldView, component: Seq<char>) -> Seq<TokenView> {
    let name = ident_token(f.name);
    match part {
        FieldPart::Decl => f.attrs + seq![call_ident("pub"@), name, alone(':')] + f.ty + seq![
            alone(','),
        ],
        FieldPart::PartialDecl => seq![call_ident("pub"@), name, alone(':')] + match f.default {
            Some(_) => f.ty,
            None => option_path() + seq![alone('<')] + f.ty + seq![alone('>')],
        } + seq![alone(',')],
        FieldPart::PartialDefault => seq![name, alone(':')] + match f.default {
            Some(d) => d,
            None => option_path() + seq![joint(':'), alone(':'), call_ident("None"@)],
        } + seq![alone(',')],
        FieldPart::Setter => doc_hidden() + seq![
            call_ident("pub"@),
            call_ident("fn"@),
            name,
            call_group(
                Delimiter::Parenthesis,
                seq![
                    alone('&'),
                    call_ident("mut"@),
                    call_ident("self"@),
                    alone(','),
                    call_ident("value"@),
                    alone(':'),
                ] + f.ty,
            ),
            call_group(
                Delimiter::Brace,
                seq![call_ident("self"@), alone('.'), name, alone('=')] + match f.default {
                    Some(_) => seq![call_ident("value"@)],
                    None => option_path() + seq![
                        joint(':'),
                        alone(':'),
                        call_ident("Some"@),
                        call_group(Delimiter::Parenthesis, seq![call_ident("value"@)]),
                    ],
                } + seq![alone(';')],
            ),
        ],
        FieldPart::Resolve => seq![
            name,
            alone(':'),
            call_ident("__jsx_partial_props"@),
            alone('.'),
            name,
        ] + match f.default {
            Some(_) => seq![],
            None => seq![
                alone('.'),
                call_ident("expect"@),
                call_group(
                    Delimiter::Parenthesis,
                    seq![str_token(missing_prop_message(f.name.name, component))],
                ),
            ],
        } + seq![alone(',')],
    }
}

/// The contributions of all of `fs`, in order.
pub open spec fn fields_part(part: FieldPart, fs: Seq<FieldView>, component: Seq<char>) -> Seq<
    TokenView,
>
    decreases fs.len(),
{
    if fs.len() == 0 {
        seq![]
    } else {
        fields_part(part, fs.drop_last(), component) + field_part(part, fs.last(), component)
    }
}

/// The identifier that `build` binds the resolved props struct to.
pub open spec fn arg_token(b: BindingView) -> TokenView {
    match b {
        BindingView::Whole(id) => ident_token(id),
        BindingView::Destructured { .. } => hidden_arg(),
    }
}

/// `let Props { a, b, .. } = __jsx_props;` for the extracted props, when
/// there are any.
pub open spec fn prelude(b: BindingView, props: IdentView) -> Seq<TokenView> {
    match b {
        BindingView::Destructured { extracted, .. } => if extracted.len() == 0 {
            seq![]
        } else {
            seq![
                call_ident("let"@),
                ident_token(props),
                call_group(Delimiter::Brace, names_list(extracted) + seq![joint('.'), alone('.')]),
                alone('='),
                hidden_arg(),
                alone(';'),
            ]
        },
        BindingView::Whole(_) => seq![],
    }
}

/// `a, b, ` for the names `xs`.
pub open spec fn names_list(xs: Seq<IdentView>) -> Seq<TokenView>
    decreases xs.len(),
{
    if xs.len() == 0 {
        seq![]
    } else {
        names_list(xs.drop_last()) + seq![ident_token(xs.last()), alone(',')]
    }
}

/// The build body: with a `..rest` binding, every spread `..rest` in it is
/// replaced by the props that were not extracted; otherwise as written.
pub open spec fn final_body(inp: InputView) -> Seq<TokenView> {
    match inp.binding {
        BindingView::Destructured { extracted, rest } => match rest {
            Some(r) => rewrite_spread_spec(
                inp.body,
                r.name,
                spread_expansion(rest_fields(inp.fields, extracted)),
            ),
            None => inp.body,
        },
        BindingView::Whole(_) => inp.body,
    }
}

/// `impl ::core::default::Default for Partial { fn default() -> Self {
/// Self { defaults } } }`
pub open spec fn default_impl(inp: InputView) -> Seq<TokenView> {
    seq![
        call_ident("impl"@),
        joint(':'),
        alone(':'),
        call_ident("core"@),
        joint(':'),
        alone(':'),
        call_ident("default"@),
        joint(':'),
        alone(':'),
        call_ident("Default"@),
        call_ident("for"@),
        ident_token(partial_ident(inp.props_name)),
        call_group(
            Delimiter::Brace,
            seq![
                call_ident("fn"@),
                call_ident("default"@),
                call_group(Delimiter::Parenthesis, seq![]),
                joint('-'),
                alone('>'),
                call_ident("Self"@),
                call_group(
                    Delimiter::Brace,
                    seq![
                        call_ident("Self"@),
                        call_group(
                            Delimiter::Brace,
                            fields_part(FieldPart::PartialDefault, inp.fields, inp.name.name),
                        ),
                    ],
                ),
            ],
        ),
    ]
}

/// The body of `build`: the props struct resolved from the partial props,
/// the prelude, then the build body.
pub open spec fn build_body(inp: InputView) -> Seq<TokenView> {
    seq![
        call_ident("let"@),
        arg_token(inp.binding),
        alone('='),
        ident_token(inp.props_name),
        call_group(Delimiter::Brace, fields_part(FieldPart::Resolve, inp.fields, inp.name.name)),
        alone(';'),
    ] + prelude(inp.binding, inp.props_name) + final_body(inp)
}

/// `impl ::bevy_jsx::__JsxComponent for Name { type Props = Partial;
/// #[allow(unused_variables)] fn build(__jsx_partial_props: Self::Props)
/// -> impl ::bevy_jsx::Spawnable { build body } }`
pub open spec fn component_impl(inp: InputView) -> Seq<TokenView> {
    seq![
        call_ident("impl"@),
        joint(':'),
        alone(':'),
        call_ident("bevy_jsx"@),
        joint(':'),
        alone(':'),
        call_ident("__JsxComponent"@),
        call_ident("for"@),
        ident_token(inp.name),
        call_group(
            Delimiter::Brace,
            seq![
                call_ident("type"@),
                call_ident("Props"@),
                alone('='),
                ident_token(partial_ident(inp.props_name)),
                alone(';'),
            ] + attribute("allow"@, seq![call_ident("unused_variables"@)]) + seq![
                call_ident("fn"@),
                call_ident("build"@),
                call_group(
                    Delimiter::Parenthesis,
                    seq![
                        call_ident("__jsx_partial_props"@),
                        alone(':'),
                        call_ident("Self"@),
                        joint(':'),
                        alone(':'),
                        call_ident("Props"@),
                    ],
                ),
                joint('-'),
                alone('>'),
                call_ident("impl"@),
                joint(':'),
                alone(':'),
                call_ident("bevy_jsx"@),
                joint(':'),
                alone(':'),
                call_ident("Spawnable"@),
                call_group(Delimiter::Brace, build_body(inp)),
            ],
        ),
    ]
}

/// The whole expansion of a definition whose extracted names are declared:
/// the public props struct, the hidden partial props struct with its
/// `Default` impl and setters, the component's unit struct (both structs
/// carry the definition's attributes), and its `__JsxComponent` impl.
pub open spec fn expansion(inp: InputView) -> Seq<TokenView> {
    inp.attrs + derive_debug_clone() + seq![
        call_ident("pub"@),
        call_ident("struct"@),
        ident_token(inp.props_name),
        call_group(Delimiter::Brace, fields_part(FieldPart::Decl, inp.fields, inp.name.name)),
    ] + doc_hidden() + derive_debug_clone() + seq![
        call_ident("pub"@),
        call_ident("struct"@),
        ident_token(partial_ident(inp.props_name)),
        call_group(
            Delimiter::Brace,
            fields_part(FieldPart::PartialDecl, inp.fields, inp.name.name),
        ),
    ] + default_impl(inp) + seq![
        call_ident("impl"@),
        ident_token(partial_ident(inp.props_name)),
        call_group(Delimiter::Brace, fields_part(FieldPart::Setter, inp.fields, inp.name.name)),
    ] + inp.attrs + seq![
        call_ident("pub"@),
        call_ident("struct"@),
        ident_token(inp.name),
        alone(';'),
    ] + component_impl(inp)
}

/// The expansion of a parsed definition, or the error for its first
/// extracted name that is not a declared prop.
pub open spec fn expand_spec(inp: InputView) -> Result<Seq<TokenView>, ErrorView> {
    match inp.binding {
        BindingView::Destructured { extracted, .. } => match first_undeclared(
            extracted,
            inp.fields,
        ) {
            Some(x) => Err(error_at(undeclared_message(x.name, inp.props_name.name), x.span)),
            None => Ok(expansion(inp)),
        },
        BindingView::Whole(_) => Ok(expansion(inp)),
    }
}

/// What the macro makes of its input tokens.
pub open spec fn jsx_component_spec(input: Seq<TokenView>) -> Result<Seq<TokenView>, ErrorView> {
    match parse_spec(input) {
        Err(e) => Err(e),
        Ok(inp) => expand_spec(inp),
    }
}

// ── Building the expansion ──────────────────────────────────────────────

fn option_path_tokens() -> (r: Vec<Token>)
    ensures
        view_tokens(r@) == option_path(),
{
    let v = vec![
        new_joint(':'),
        new_alone(':'),
        new_ident("core"),
        new_joint(':'),
        new_alone(':'),
        new_ident("option"),
        new_joint(':'),
        new_alone(':'),
        new_ident("Option"),
    ];
    assert(view_tokens(v@) =~= option_path());
    v
}

fn attribute_tokens(name: &str, arg: Vec<Token>) -> (r: Vec<Token>)
    ensures
        view_tokens(r@) == attribute(name@, view_tokens(arg@)),
{
    let inner = vec![new_ident(name), new_group(Delimiter::Parenthesis, arg)];
    assert(view_tokens(inner@) =~= seq![
        call_ident(name@),
        call_group(Delimiter::Parenthesis, view_tokens(arg@)),
    ]);
    let v = vec![new_alone('#'), new_group(Delimiter::Bracket, inner)];
    assert(view_tokens(v@) =~= attribute(name@, view_tokens(arg@)));
    v
}

fn derive_tokens() -> (r: Vec<Token>)
    ensures
        view_tokens(r@) == derive_debug_clone(),
{
    let arg = vec![new_ident("Debug"), new_alone(','), new_ident("Clone")];
    assert(view_tokens(arg@) =~= seq![call_ident("Debug"@), alone(','), call_ident("Clone"@)]);
    attribute_tokens("derive", arg)
}

fn doc_hidden_tokens() -> (r: Vec<Token>)
    ensures
        view_tokens(r@) == doc_hidden(),
{
    let arg = vec![new_ident("hidden")];
    assert(view_tokens(arg@) =~= seq![call_ident("hidden"@)]);
    attribute_tokens("doc", arg)
}

/// The panic message of `build` for a missing required prop.
pub fn missing_prop_message_string(field: &String, component: &String) -> (r: String)
    ensures
        r@ == missing_prop_message(field@, component@),
{
    let m = String::from_str("missing required prop `");
    let m = m.concat(field.as_str());
    let m = m.concat("` for `");
    let m = m.concat(component.as_str());
    m.concat("`")
}

/// The error message for an extracted name that is not a declared prop.
pub fn undeclared_message_string(name: &String, props: &String) -> (r: String)
    ensures
        r@ == undeclared_message(name@, props@),
{
    let m = String::from_str("`");
    let m = m.concat(name.as_str());
    let m = m.concat("` is not a declared prop of `");
    let m = m.concat(props.as_str());
    m.concat("`")
}

/// The name of the hidden partial-props struct for `props`.
pub fn partial_name(props: &Ident) -> (r: Ident)
    ensures
        r@ == partial_ident(props@),
{
    let n = props.name.as_str().unicode_len();
    let base = if n >= 2 && props.name.as_str().get_char(0) == 'r' && props.name.as_str().get_char(1)
        == '#' {
        props.name.as_str().substring_char(2, n)
    } else {
        props.name.as_str()
    };
    assert(base@ == strip_raw(props.name@));
    let name = String::from_str("__JsxPartial").concat(base);
    Ident { name, span: props.span }
}

fn field_part_tokens(part: FieldPart, f: &FieldDef, component: &String) -> (r: Vec<Token>)
    ensures
        view_tokens(r@) == field_part(part, f@, component@),
{
    let ghost fv = f@;
    match part {
        FieldPart::Decl => {
            let mut out = copy_tokens(&f.attrs);
            push_all(&mut out, vec![new_ident("pub"), ident_to_token(&f.name), new_alone(':')]);
            push_all(&mut out, copy_tokens(&f.ty));
            push_token(&mut out, new_alone(','));
            assert(view_tokens(out@) =~= field_part(part, fv, component@));
            out
        },
        FieldPart::PartialDecl => {
            let mut out = vec![new_ident("pub"), ident_to_token(&f.name), new_alone(':')];
            match &f.default {
                Some(_) => {
                    push_all(&mut out, copy_tokens(&f.ty));
                },
                None => {
                    push_all(&mut out, option_path_tokens());
                    push_token(&mut out, new_alone('<'));
                    push_all(&mut out, copy_tokens(&f.ty));
                    push_token(&mut out, new_alone('>'));
                },
            }
            push_token(&mut out, new_alone(','));
            assert(view_tokens(out@) =~= field_part(part, fv, component@));
            out
        },
        FieldPart::PartialDefault => {
            let mut out = vec![ident_to_token(&f.name), new_alone(':')];
            match &f.default {
                Some(d) => {
                    push_all(&mut out, copy_tokens(d));
                },
                None => {
                    push_all(&mut out, option_path_tokens());
                    push_all(&mut out, vec![new_joint(':'), new_alone(':'), new_ident("None")]);
                },
            }
            push_token(&mut out, new_alone(','));
            assert(view_tokens(out@) =~= field_part(part, fv, component@));
            out
        },
        FieldPart::Setter => {
            let mut params = vec![
                new_alone('&'),
                new_ident("mut"),
                new_ident("self"),
                new_alone(','),
                new_ident("value"),
                new_alone(':'),
            ];
            push_all(&mut params, copy_tokens(&f.ty));
            let mut body = vec![new_ident("self"), new_alone('.'), ident_to_token(&f.name), new_alone('=')];
            match &f.default {
                Some(_) => {
                    push_token(&mut body, new_ident("value"));
                },
                None => {
                    push_all(&mut body, option_path_tokens());
                    let arg = vec![new_ident("value")];
                    assert(view_tokens(arg@) =~= seq![call_ident("value"@)]);
                    push_all(
                        &mut body,
                        vec![
                            new_joint(':'),
                            new_alone(':'),
                            new_ident("Some"),
                            new_group(Delimiter::Parenthesis, arg),
                        ],
                    );
                },
            }
            push_token(&mut body, new_alone(';'));
            assert(view_tokens(params@) =~= seq![
                alone('&'),
                call_ident("mut"@),
                call_ident("self"@),
                alone(','),
                call_ident("value"@),
                alone(':'),
            ] + fv.ty);
            assert(view_tokens(body@) =~= seq![
                call_ident("self"@),
                alone('.'),
                ident_token(fv.name),
                alone('='),
            ] + match fv.default {
                Some(_) => seq![call_ident("value"@)],
                None => option_path() + seq![
                    joint(':'),
                    alone(':'),
                    call_ident("Some"@),
                    call_group(Delimiter::Parenthesis, seq![call_ident("value"@)]),
                ],
            } + seq![alone(';')]);
            let mut out = doc_hidden_tokens();
            push_all(
                &mut out,
                vec![
                    new_ident("pub"),
                    new_ident("fn"),
                    ident_to_token(&f.name),
                    new_group(Delimiter::Parenthesis, params),
                    new_group(Delimiter::Brace, body),
                ],
            );
            assert(view_tokens(out@) =~= field_part(part, fv, component@));
            out
        },
        FieldPart::Resolve => {
            let mut out = vec![
                ident_to_token(&f.name),
                new_alone(':'),
                new_ident("__jsx_partial_props"),
                new_alone('.'),
                ident_to_token(&f.name),
            ];
            match &f.default {
                Some(_) => {},
                None => {
                    let msg = missing_prop_message_string(&f.name.name, component);
                    let arg = vec![Token::Str { value: msg, span: CALL_SITE }];
                    assert(view_tokens(arg@) =~= seq![
                        str_token(missing_prop_message(fv.name.name, component@)),
                    ]);
                    push_all(
                        &mut out,
                        vec![
                            new_alone('.'),
                            new_ident("expect"),
                            new_group(Delimiter::Parenthesis, arg),
                        ],
                    );
                },
            }
            push_token(&mut out, new_alone(','));
            assert(view_tokens(out@) =~= field_part(part, fv, component@));
            out
        },
    }
}

/// The contributions of all `fields` to one part, in order.
pub fn fields_part_tokens(part: FieldPart, fields: &Vec<FieldDef>, component: &String) -> (r: Vec<
    Token,
>)
    ensures
        view_tokens(r@) == fields_part(part, view_fields(fields@), component@),
{
    let ghost fv = view_fields(fields@);
    let mut out: Vec<Token> = Vec::new();
    let mut i: usize = 0;
    while i < fields.len()
        invariant
            fv == view_fields(fields@),
            i <= fields@.len(),
            view_tokens(out@) == fields_part(part, fv.take(i as int), component@),
        decreases fields.len() - i,
    {
        let piece = field_part_tokens(part, &fields[i], component);
        push_all(&mut out, piece);
        assert(fv.take(i + 1).drop_last() =~= fv.take(i as int));
        assert(fv.take(i + 1).last() == fields@[i as int]@);
        i += 1;
    }
    assert(fv.take(fields@.len() as int) =~= fv);
    out
}

fn is_name_declared(fields: &Vec<FieldDef>, name: &String) -> (r: bool)
    ensures
        r == is_declared(view_fields(fields@), name@),
{
    let ghost fv = view_fields(fields@);
    let mut j: usize = 0;
    while j < fields.len()
        invariant
            fv == view_fields(fields@),
            j <= fields@.len(),
            forall|k: int| 0 <= k < j ==> fv[k].name.name != name@,
        decreases fields.len() - j,
    {
        if fields[j].name.name == *name {
            assert(fv[j as int].name.name == name@);
            return true;
        }
        j += 1;
    }
    false
}

fn names_contain_exec(xs: &Vec<Ident>, name: &String) -> (r: bool)
    ensures
        r == names_contain(view_idents(xs@), name@),
{
    let ghost xv = view_idents(xs@);
    let mut j: usize = 0;
    while j < xs.len()
        invariant
            xv == view_idents(xs@),
            j <= xs@.len(),
            forall|k: int| 0 <= k < j ==> xv[k].name != name@,
        decreases xs.len() - j,
    {
        if xs[j].name == *name {
            assert(xv[j as int].name == name@);
            return true;
        }
        j += 1;
    }
    false
}

/// The position in `ex` of the first name that is not a declared prop.
pub fn find_undeclared(ex: &Vec<Ident>, fields: &Vec<FieldDef>) -> (r: Option<usize>)
    ensures
        match r {
            Some(i) => i < ex@.len() && first_undeclared(view_idents(ex@), view_fields(fields@))
                == Some(ex@[i as int]@),
            None => first_undeclared(view_idents(ex@), view_fields(fields@)) is None,
        },
{
    let ghost xv = view_idents(ex@);
    let ghost fv = view_fields(fields@);
    let mut i: usize = 0;
    assert(xv.skip(0) =~= xv);
    while i < ex.len()
        invariant
            xv == view_idents(ex@),
            fv == view_fields(fields@),
            i <= ex@.len(),
            first_undeclared(xv, fv) == first_undeclared(xv.skip(i as int), fv),
        decreases ex.len() - i,
    {
        assert(xv.skip(i as int)[0] == xv[i as int]);
        assert(xv.skip(i as int).drop_first() =~= xv.skip(i + 1));
        if !is_name_declared(fields, &ex[i].name) {
            return Some(i);
        }
        i += 1;
    }
    assert(xv.skip(i as int).len() == 0);
    None
}

/// The names of the props that are not among `extracted`, in declaration
/// order.
pub fn rest_field_names(fields: &Vec<FieldDef>, extracted: &Vec<Ident>) -> (r: Vec<Ident>)
    ensures
        view_idents(r@) == rest_fields(view_fields(fields@), view_idents(extracted@)),
{
    let ghost fv = view_fields(fields@);
    let ghost xv = view_idents(extracted@);
    let mut out: Vec<Ident> = Vec::new();
    let mut i: usize = 0;
    while i < fields.len()
        invariant
            fv == view_fields(fields@),
            xv == view_idents(extracted@),
            i <= fields@.len(),
            view_idents(out@) == rest_fields(fv.take(i as int), xv),
        decreases fields.len() - i,
    {
        assert(fv.take(i + 1).drop_last() =~= fv.take(i as int));
        assert(fv.take(i + 1).last() == fv[i as int]);
        let ghost before = view_idents(out@);
        if !names_contain_exec(extracted, &fields[i].name.name) {
            out.push(copy_ident(&fields[i].name));
            assert(view_idents(out@) =~= before + seq![fv[i as int].name]);
        } else {
            assert(before + Seq::<IdentView>::empty() =~= before);
        }
        i += 1;
    }
    assert(fv.take(fields@.len() as int) =~= fv);
    out
}

/// `field: __jsx_props.field,` for each of `rest`, in order.
pub fn spread_expansion_tokens(rest: &Vec<Ident>) -> (r: Vec<Token>)
    ensures
        view_tokens(r@) == spread_expansion(view_idents(rest@)),
{
    let ghost rv = view_idents(rest@);
    let mut out: Vec<Token> = Vec::new();
    let mut i: usize = 0;
    while i < rest.len()
        invariant
            rv == view_idents(rest@),
            i <= rest@.len(),
            view_tokens(out@) == spread_expansion(rv.take(i as int)),
        decreases rest.len() - i,
    {
        assert(rv.take(i + 1).drop_last() =~= rv.take(i as int));
        assert(rv.take(i + 1).last() == rv[i as int]);
        let ghost before = view_tokens(out@);
        let piece = vec![
            ident_to_token(&rest[i]),
            new_alone(':'),
            new_ident("__jsx_props"),
            new_alone('.'),
            ident_to_token(&rest[i]),
            new_alone(','),
        ];
        push_all(&mut out, piece);
        assert(view_tokens(out@) =~= spread_expansion(rv.take(i + 1)));
        i += 1;
    }
    assert(rv.take(rest@.len() as int) =~= rv);
    out
}

fn names_list_tokens(xs: &Vec<Ident>) -> (r: Vec<Token>)
    ensures
        view_tokens(r@) == names_list(view_idents(xs@)),
{
    let ghost xv = view_idents(xs@);
    let mut out: Vec<Token> = Vec::new();
    let mut i: usize = 0;
    while i < xs.len()
        invariant
            xv == view_idents(xs@),
            i <= xs@.len(),
            view_tokens(out@) == names_list(xv.take(i as int)),
        decreases xs.len() - i,
    {
        assert(xv.take(i + 1).drop_last() =~= xv.take(i as int));
        assert(xv.take(i + 1).last() == xv[i as int]);
        push_all(&mut out, vec![ident_to_token(&xs[i]), new_alone(',')]);
        assert(view_tokens(out@) =~= names_list(xv.take(i + 1)));
        i += 1;
    }
    assert(xv.take(xs@.len() as int) =~= xv);
    out
}

fn arg_token_exec(b: &PropsBinding) -> (r: Token)
    ensures
        r@ == arg_token(b@),
{
    match b {
        PropsBinding::Whole(id) => ident_to_token(id),
        PropsBinding::Destructured { .. } => new_ident("__jsx_props"),
    }
}

fn prelude_tokens(b: &PropsBinding, props: &Ident) -> (r: Vec<Token>)
    ensures
        view_tokens(r@) == prelude(b@, props@),
{
    match b {
        PropsBinding::Destructured { extracted, .. } => {
            if extracted.len() == 0 {
                let v: Vec<Token> = Vec::new();
                assert(view_tokens(v@) =~= Seq::<TokenView>::empty());
                v
            } else {
                let mut inner = names_list_tokens(extracted);
                push_all(&mut inner, vec![new_joint('.'), new_alone('.')]);
                assert(view_tokens(inner@) =~= names_list(view_idents(extracted@)) + seq![
                    joint('.'),
                    alone('.'),
                ]);
                let v = vec![
                    new_ident("let"),
                    ident_to_token(props),
                    new_group(Delimiter::Brace, inner),
                    new_alone('='),
                    new_ident("__jsx_props"),
                    new_alone(';'),
                ];
                assert(view_tokens(v@) =~= prelude(b@, props@));
                v
            }
        },
        PropsBinding::Whole(_) => {
            let v: Vec<Token> = Vec::new();
            assert(view_tokens(v@) =~= Seq::<TokenView>::empty());
            v
        },
    }
}

fn final_body_tokens(inp: &JsxComponentInput) -> (r: Vec<Token>)
    ensures
        view_tokens(r@) == final_body(inp@),
{
    match &inp.binding {
        PropsBinding::Destructured { extracted, rest } => match rest {
            Some(r) => {
                let names = rest_field_names(&inp.fields, extracted);
                let exp = spread_expansion_tokens(&names);
                rewrite_spread(&inp.body, r, &exp)
            },
            None => copy_tokens(&inp.body),
        },
        PropsBinding::Whole(_) => copy_tokens(&inp.body),
    }
}

fn default_impl_tokens(inp: &JsxComponentInput, partial: &Ident) -> (r: Vec<Token>)
    requires
        partial@ == partial_ident(inp@.props_name),
    ensures
        view_tokens(r@) == default_impl(inp@),
{
    let defaults = fields_part_tokens(FieldPart::PartialDefault, &inp.fields, &inp.name.name);
    let self_lit = vec![new_ident("Self"), new_group(Delimiter::Brace, defaults)];
    assert(view_tokens(self_lit@) =~= seq![
        call_ident("Self"@),
        call_group(
            Delimiter::Brace,
            fields_part(FieldPart::PartialDefault, inp@.fields, inp@.name.name),
        ),
    ]);
    let no_params: Vec<Token> = Vec::new();
    assert(view_tokens(no_params@) =~= Seq::<TokenView>::empty());
    let func = vec![
        new_ident("fn"),
        new_ident("default"),
        new_group(Delimiter::Parenthesis, no_params),
        new_joint('-'),
        new_alone('>'),
        new_ident("Self"),
        new_group(Delimiter::Brace, self_lit),
    ];
    assert(view_tokens(func@) =~= seq![
        call_ident("fn"@),
        call_ident("default"@),
        call_group(Delimiter::Parenthesis, seq![]),
        joint('-'),
        alone('>'),
        call_ident("Self"@),
        call_group(
            Delimiter::Brace,
            seq![
                call_ident("Self"@),
                call_group(
                    Delimiter::Brace,
                    fields_part(FieldPart::PartialDefault, inp@.fields, inp@.name.name),
                ),
            ],
        ),
    ]);
    let v = vec![
        new_ident("impl"),
        new_joint(':'),
        new_alone(':'),
        new_ident("core"),
        new_joint(':'),
        new_alone(':'),
        new_ident("default"),
        new_joint(':'),
        new_alone(':'),
        new_ident("Default"),
        new_ident("for"),
        ident_to_token(partial),
        new_group(Delimiter::Brace, func),
    ];
    assert(view_tokens(v@) =~= default_impl(inp@));
    v
}

fn build_body_tokens(inp: &JsxComponentInput) -> (r: Vec<Token>)
    ensures
        view_tokens(r@) == build_body(inp@),
{
    let resolved = fields_part_tokens(FieldPart::Resolve, &inp.fields, &inp.name.name);
    let mut out = vec![
        new_ident("let"),
        arg_token_exec(&inp.binding),
        new_alone('='),
        ident_to_token(&inp.props_name),
        new_group(Delimiter::Brace, resolved),
        new_alone(';'),
    ];
    push_all(&mut out, prelude_tokens(&inp.binding, &inp.props_name));
    push_all(&mut out, final_body_tokens(inp));
    assert(view_tokens(out@) =~= build_body(inp@));
    out
}

fn component_impl_tokens(inp: &JsxComponentInput, partial: &Ident) -> (r: Vec<Token>)
    requires
        partial@ == partial_ident(inp@.props_name),
    ensures
        view_tokens(r@) == component_impl(inp@),
{
    let params = vec![
        new_ident("__jsx_partial_props"),
        new_alone(':'),
        new_ident("Self"),
        new_joint(':'),
        new_alone(':'),
        new_ident("Props"),
    ];
    assert(view_tokens(params@) =~= seq![
        call_ident("__jsx_partial_props"@),
        alone(':'),
        call_ident("Self"@),
        joint(':'),
        alone(':'),
        call_ident("Props"@),
    ]);
    let mut items = vec![
        new_ident("type"),
        new_ident("Props"),
        new_alone('='),
        ident_to_token(partial),
        new_alone(';'),
    ];
    let allow_arg = vec![new_ident("unused_variables")];
    assert(view_tokens(allow_arg@) =~= seq![call_ident("unused_variables"@)]);
    push_all(&mut items, attribute_tokens("allow", allow_arg));
    push_all(
        &mut items,
        vec![
            new_ident("fn"),
            new_ident("build"),
            new_group(Delimiter::Parenthesis, params),
            new_joint('-'),
            new_alone('>'),
            new_ident("impl"),
            new_joint(':'),
            new_alone(':'),
            new_ident("bevy_jsx"),
            new_joint(':'),
            new_alone(':'),
            new_ident("Spawnable"),
            new_group(Delimiter::Brace, build_body_tokens(inp)),
        ],
    );
    assert(view_tokens(items@) =~= seq![
        call_ident("type"@),
        call_ident("Props"@),
        alone('='),
        ident_token(partial_ident(inp@.props_name)),
        alone(';'),
    ] + attribute("allow"@, seq![call_ident("unused_variables"@)]) + seq![
        call_ident("fn"@),
        call_ident("build"@),
        call_group(
            Delimiter::Parenthesis,
            seq![
                call_ident("__jsx_partial_props"@),
                alone(':'),
                call_ident("Self"@),
                joint(':'),
                alone(':'),
                call_ident("Props"@),
            ],
        ),
        joint('-'),
        alone('>'),
        call_ident("impl"@),
        joint(':'),
        alone(':'),
        call_ident("bevy_jsx"@),
        joint(':'),
        alone(':'),
        call_ident("Spawnable"@),
        call_group(Delimiter::Brace, build_body(inp@)),
    ]);
    let v = vec![
        new_ident("impl"),
        new_joint(':'),
        new_alone(':'),
        new_ident("bevy_jsx"),
        new_joint(':'),
        new_alone(':'),
        new_ident("__JsxComponent"),
        new_ident("for"),
        ident_to_token(&inp.name),
        new_group(Delimiter::Brace, items),
    ];
    assert(view_tokens(v@) =~= component_impl(inp@));
    v
}

/// The whole expansion of a definition whose extracted names are declared.
pub fn expansion_tokens(inp: &JsxComponentInput) -> (r: Vec<Token>)
    ensures
        view_tokens(r@) == expansion(inp@),
{
    let partial = partial_name(&inp.props_name);
    let mut out = copy_tokens(&inp.attrs);
    push_all(&mut out, derive_tokens());
    push_all(
        &mut out,
        vec![
            new_ident("pub"),
            new_ident("struct"),
            ident_to_token(&inp.props_name),
            new_group(
                Delimiter::Brace,
                fields_part_tokens(FieldPart::Decl, &inp.fields, &inp.name.name),
            ),
        ],
    );
    push_all(&mut out, doc_hidden_tokens());
    push_all(&mut out, derive_tokens());
    push_all(
        &mut out,
        vec![
            new_ident("pub"),
            new_ident("struct"),
            ident_to_token(&partial),
            new_group(
                Delimiter::Brace,
                fields_part_tokens(FieldPart::PartialDecl, &inp.fields, &inp.name.name),
            ),
        ],
    );
    push_all(&mut out, default_impl_tokens(inp, &partial));
    push_all(
        &mut out,
        vec![
            new_ident("impl"),
            ident_to_token(&partial),
            new_group(
                Delimiter::Brace,
                fields_part_tokens(FieldPart::Setter, &inp.fields, &inp.name.name),
            ),
        ],
    );
    push_all(&mut out, copy_tokens(&inp.attrs));
    push_all(
        &mut out,
        vec![new_ident("pub"), new_ident("struct"), ident_to_token(&inp.name), new_alone(';')],
    );
    push_all(&mut out, component_impl_tokens(inp, &partial));
    assert(view_tokens(out@) =~= expansion(inp@));
    out
}

/// Expands a parsed definition; the error names the first extracted name
/// that is not a declared prop, at that name's span.
pub fn expand(inp: &JsxComponentInput) -> (r: Result<Vec<Token>, ParseError>)
    ensures
        match r {
            Ok(out) => expand_spec(inp@) == Ok::<Seq<TokenView>, ErrorView>(view_tokens(out@)),
            Err(e) => expand_spec(inp@) == Err::<Seq<TokenView>, ErrorView>(e@),
        },
{
    match &inp.binding {
        PropsBinding::Destructured { extracted, .. } => {
            match find_undeclared(extracted, &inp.fields) {
                Some(i) => {
                    let message = undeclared_message_string(&extracted[i].name, &inp.props_name.name);
                    return Err(ParseError { message, span: extracted[i].span, part: SpanPart::Whole });
                },
                None => {},
            }
        },
        PropsBinding::Whole(_) => {},
    }
    Ok(expansion_tokens(inp))
}

/// The macro: parses a component definition and expands it, or reports the
/// first error, exactly as [`jsx_component_spec`] states.
pub fn jsx_component(input: &Vec<Token>) -> (r: Result<Vec<Token>, ParseError>)
    ensures
        match r {
            Ok(out) => jsx_component_spec(view_tokens(input@)) == Ok::<Seq<TokenView>, ErrorView>(
                view_tokens(out@),
            ),
            Err(e) => jsx_component_spec(view_tokens(input@)) == Err::<Seq<TokenView>, ErrorView>(
                e@,
            ),
        },
{
    match JsxComponentInput::parse(input) {
        Err(e) => Err(e),
        Ok(inp) => expand(&inp),
    }
}

// ── Laws ────────────────────────────────────────────────────────────────

/// The first undeclared name exists exactly when some extracted name is not
/// a declared prop, and it is one of the extracted names that is not.
pub proof fn lemma_first_undeclared(ex: Seq<IdentView>, fs: Seq<FieldView>)
    ensures
        first_undeclared(ex, fs) is Some <==> exists|i: int|
            0 <= i < ex.len() && !is_declared(fs, #[trigger] ex[i].name),
        first_undeclared(ex, fs) matches Some(x) ==> exists|i: int|
            0 <= i < ex.len() && ex[i] == x && !is_declared(fs, #[trigger] ex[i].name),
    decreases ex.len(),
{
    if ex.len() > 0 {
        if is_declared(fs, ex[0].name) {
            let rest = ex.drop_first();
            lemma_first_undeclared(rest, fs);
            if exists|i: int| 0 <= i < ex.len() && !is_declared(fs, #[trigger] ex[i].name) {
                let i = choose|i: int| 0 <= i < ex.len() && !is_declared(fs, #[trigger] ex[i].name);
                assert(rest[i - 1] == ex[i]);
            }
            if first_undeclared(ex, fs) is Some {
                let i = choose|i: int|
                    0 <= i < rest.len() && rest[i] == first_undeclared(ex, fs)->0 && !is_declared(
                        fs,
                        #[trigger] rest[i].name,
                    );
                assert(ex[i + 1] == rest[i]);
            }
        }
    }
}

/// A definition is refused by the expansion exactly when it destructures
/// its props and one of the extracted names is not a declared prop; the
/// error then names such an extracted name, at its span.
pub proof fn lemma_expand_refuses_exactly_undeclared(inp: InputView)
    ensures
        expand_spec(inp) is Err <==> (inp.binding matches BindingView::Destructured {
            extracted,
            ..
        } && exists|i: int|
            0 <= i < extracted.len() && !is_declared(inp.fields, #[trigger] extracted[i].name)),
        expand_spec(inp) matches Err(e) ==> (inp.binding matches BindingView::Destructured {
            extracted,
            ..
        } && exists|i: int|
            0 <= i < extracted.len() && !is_declared(inp.fields, #[trigger] extracted[i].name)
                && e == error_at(
                undeclared_message(extracted[i].name, inp.props_name.name),
                extracted[i].span,
            )),
{
    if let BindingView::Destructured { extracted, .. } = inp.binding {
        lemma_first_undeclared(extracted, inp.fields);
    }
}

proof fn lemma_names_contain_concat(a: Seq<IdentView>, b: Seq<IdentView>, n: Seq<char>)
    ensures
        names_contain(a + b, n) <==> (names_contain(a, n) || names_contain(b, n)),
{
    let ab = a + b;
    if names_contain(ab, n) {
        let j = choose|j: int| 0 <= j < ab.len() && #[trigger] ab[j].name == n;
        if j < a.len() {
            assert(a[j] == ab[j]);
        } else {
            assert(b[j - a.len()] == ab[j]);
        }
    }
    if names_contain(a, n) {
        let j = choose|j: int| 0 <= j < a.len() && #[trigger] a[j].name == n;
        assert(ab[j] == a[j]);
    }
    if names_contain(b, n) {
        let j = choose|j: int| 0 <= j < b.len() && #[trigger] b[j].name == n;
        assert(ab[j + a.len()] == b[j]);
    }
}

/// The props that a `..rest` spread stands for are exactly the declared
/// props whose names were not extracted.
pub proof fn lemma_rest_fields_are_the_unextracted_props(
    fs: Seq<FieldView>,
    ex: Seq<IdentView>,
    n: Seq<char>,
)
    ensures
        names_contain(rest_fields(fs, ex), n) <==> (is_declared(fs, n) && !names_contain(ex, n)),
    decreases fs.len(),
{
    if fs.len() > 0 {
        let init = fs.drop_last();
        lemma_rest_fields_are_the_unextracted_props(init, ex, n);
        let tail: Seq<IdentView> = if names_contain(ex, fs.last().name.name) {
            seq![]
        } else {
            seq![fs.last().name]
        };
        lemma_names_contain_concat(rest_fields(init, ex), tail, n);
        if is_declared(fs, n) {
            let j = choose|j: int| 0 <= j < fs.len() && #[trigger] fs[j].name.name == n;
            if j < fs.len() - 1 {
                assert(init[j] == fs[j]);
            }
        }
        if is_declared(init, n) {
            let j = choose|j: int| 0 <= j < init.len() && #[trigger] init[j].name.name == n;
            assert(fs[j] == init[j]);
        }
        if names_contain(tail, n) {
            assert(tail[0].name == n);
        }
        if fs.last().name.name == n && !names_contain(ex, n) {
            assert(tail[0].name == n);
        }
    }
}

proof fn lemma_spread_expansion_shape(names: Seq<IdentView>)
    ensures
        spread_expansion(names).len() == 6 * names.len(),
        forall|k: int|
            0 <= k < spread_expansion(names).len() ==> !(#[trigger] spread_expansion(names)[k] is Group)
                && !is_joint_punct(spread_expansion(names)[k], '.'),
        names.len() > 0 ==> spread_expansion(names)[0] == ident_token(names[0]),
    decreases names.len(),
{
    if names.len() > 0 {
        let init = names.drop_last();
        lemma_spread_expansion_shape(init);
        let prev = spread_expansion(init);
        let exp = spread_expansion(names);
        assert forall|k: int| 0 <= k < exp.len() implies !(#[trigger] exp[k] is Group)
            && !is_joint_punct(exp[k], '.') by {
            if k < prev.len() {
                assert(exp[k] == prev[k]);
            }
        }
        if init.len() > 0 {
            assert(exp[0] == prev[0]);
            assert(init[0] == names[0]);
        }
    }
}

/// With a `..rest` binding, when some prop is left for the spread and the
/// first one left is not named like the rest binding itself, the build body
/// that the expansion holds has no `..rest` spread left at any depth.
pub proof fn lemma_final_body_has_no_spread(inp: InputView)
    requires
        inp.binding matches BindingView::Destructured { extracted, rest: Some(r) } && rest_fields(
            inp.fields,
            extracted,
        ).len() > 0 && rest_fields(inp.fields, extracted)[0].name != r.name,
    ensures
        inp.binding matches BindingView::Destructured { rest: Some(r), .. } && spread_free(
            final_body(inp),
            r.name,
        ),
{
    if let BindingView::Destructured { extracted, rest } = inp.binding {
        if let Some(r) = rest {
            let names = rest_fields(inp.fields, extracted);
            let exp = spread_expansion(names);
            lemma_spread_expansion_shape(names);
            lemma_free_q_equiv(exp, 0, r.name);
            assert(!is_punct(exp[0], '.'));
            assert(splice_safe(exp, r.name));
            lemma_rewrite_leaves_no_spread(inp.body, r.name, exp);
        }
    }
}

/// The build body is used as written when the closure takes the whole props
/// struct, when it destructures without a rest binding, and when the body
/// holds no `..rest` spread.
pub proof fn lemma_body_as_written(inp: InputView)
    requires
        match inp.binding {
            BindingView::Whole(_) => true,
            BindingView::Destructured { rest, .. } => match rest {
                Some(r) => spread_free(inp.body, r.name),
                None => true,
            },
        },
    ensures
        final_body(inp) == inp.body,
{
    if let BindingView::Destructured { extracted, rest } = inp.binding {
        if let Some(r) = rest {
            lemma_rewrite_without_spread_is_identity(
                inp.body,
                r.name,
                spread_expansion(rest_fields(inp.fields, extracted)),
            );
        }
    }
}

/// A prop without a default is resolved in `build` with
/// `.expect("missing required prop `name` for `Component`")`; a prop with a
/// default is read as it is, with no check.
pub proof fn lemma_required_props_are_checked(f: FieldView, component: Seq<char>)
    ensures
        f.default is None ==> field_part(FieldPart::Resolve, f, component).contains(
            call_group(
                Delimiter::Parenthesis,
                seq![str_token(missing_prop_message(f.name.name, component))],
            ),
        ),
        f.default is Some ==> forall|k: int|
            0 <= k < field_part(FieldPart::Resolve, f, component).len() ==> !(#[trigger] field_part(
                FieldPart::Resolve,
                f,
                component,
            )[k] is Group),
{
    let r = field_part(FieldPart::Resolve, f, component);
    if f.default is None {
        assert(r[7] == call_group(
            Delimiter::Parenthesis,
            seq![str_token(missing_prop_message(f.name.name, component))],
        ));
    }
}

/// The definition's attributes (its doc comment among them) go onto both
/// the public props struct, which the expansion starts with, and the
/// component's unit struct.
pub proof fn lemma_attributes_on_both_structs(inp: InputView)
    ensures
        expansion(inp).subrange(0, inp.attrs.len() as int) == inp.attrs,
        exists|k: int|
            0 <= k && k + inp.attrs.len() + 4 <= expansion(inp).len() && #[trigger] expansion(
                inp,
            ).subrange(k, k + inp.attrs.len() + 4) == inp.attrs + seq![
                call_ident("pub"@),
                call_ident("struct"@),
                ident_token(inp.name),
                alone(';'),
            ],
{
    let e = expansion(inp);
    let a = inp.attrs;
    let unit = a + seq![call_ident("pub"@), call_ident("struct"@), ident_token(inp.name), alone(';')];
    let before = a + derive_debug_clone() + seq![
        call_ident("pub"@),
        call_ident("struct"@),
        ident_token(inp.props_name),
        call_group(Delimiter::Brace, fields_part(FieldPart::Decl, inp.fields, inp.name.name)),
    ] + doc_hidden() + derive_debug_clone() + seq![
        call_ident("pub"@),
        call_ident("struct"@),
        ident_token(partial_ident(inp.props_name)),
        call_group(
            Delimiter::Brace,
            fields_part(FieldPart::PartialDecl, inp.fields, inp.name.name),
        ),
    ] + default_impl(inp) + seq![
        call_ident("impl"@),
        ident_token(partial_ident(inp.props_name)),
        call_group(Delimiter::Brace, fields_part(FieldPart::Setter, inp.fields, inp.name.name)),
    ];
    assert(e == before + unit + component_impl(inp));
    assert(e.subrange(0, a.len() as int) =~= a);
    let k = before.len() as int;
    assert(e.subrange(k, k + a.len() + 4) =~= unit);
}

/// The list `x1, x2, ..., xn,` names every one of `xs`, in order: the
/// `k`-th name stands at `2k`, each followed by a comma.
pub proof fn lemma_names_list_names_each(xs: Seq<IdentView>)
    ensures
        names_list(xs).len() == 2 * xs.len(),
        forall|k: int|
            0 <= k < xs.len() ==> #[trigger] names_list(xs)[2 * k] == ident_token(xs[k])
                && names_list(xs)[2 * k + 1] == alone(','),
    decreases xs.len(),
{
    if xs.len() > 0 {
        let ys = xs.drop_last();
        lemma_names_list_names_each(ys);
        assert forall|k: int| 0 <= k < xs.len() implies #[trigger] names_list(xs)[2 * k]
            == ident_token(xs[k]) && names_list(xs)[2 * k + 1] == alone(',') by {
            if k < ys.len() {
                assert(names_list(ys)[2 * k] == ident_token(ys[k]));
            }
        }
    }
}

/// With a destructuring binding that extracts `x1, ..., xn` (n > 0), the
/// build function starts with `let Props { x1, ..., xn, .. } = __jsx_props;`:
/// the pattern binds every extracted name, in order, and nothing else.
pub proof fn lemma_prelude_binds_every_extracted_name(
    extracted: Seq<IdentView>,
    rest: Option<IdentView>,
    props: IdentView,
)
    requires
        extracted.len() > 0,
    ensures
        ({
            let p = prelude(BindingView::Destructured { extracted, rest }, props);
            let pat = group_stream(p[2]);
            let n = extracted.len() as int;
            &&& p.len() == 6
            &&& p[0] == call_ident("let"@)
            &&& p[1] == ident_token(props)
            &&& is_group(p[2], Delimiter::Brace)
            &&& p[3] == alone('=')
            &&& p[4] == hidden_arg()
            &&& p[5] == alone(';')
            &&& pat.len() == 2 * n + 2
            &&& forall|k: int|
                0 <= k < n ==> #[trigger] pat[2 * k] == ident_token(extracted[k]) && pat[2 * k
                    + 1] == alone(',')
            &&& pat[2 * n] == joint('.')
            &&& pat[2 * n + 1] == alone('.')
        }),
{
    lemma_names_list_names_each(extracted);
    let p = prelude(BindingView::Destructured { extracted, rest }, props);
    let pat = group_stream(p[2]);
    let n = extracted.len() as int;
    assert(pat == names_list(extracted) + seq![joint('.'), alone('.')]);
    assert forall|k: int| 0 <= k < n implies #[trigger] pat[2 * k] == ident_token(extracted[k])
        && pat[2 * k + 1] == alone(',') by {
        assert(names_list(extracted)[2 * k] == ident_token(extracted[k]));
    }
}

/// A prop's field in the public props struct is written
/// `attrs pub name: Type,`: its attributes come first, as written, then
/// `pub`, its name, `:`, its type as written and a comma.
pub proof fn lemma_decl_field_is_attrs_pub_name_type(f: FieldView, component: Seq<char>)
    ensures
        ({
            let d = field_part(FieldPart::Decl, f, component);
            let a = f.attrs.len() as int;
            let t = f.ty.len() as int;
            &&& d.len() == a + t + 4
            &&& d.subrange(0, a) == f.attrs
            &&& d[a] == call_ident("pub"@)
            &&& d[a + 1] == ident_token(f.name)
            &&& d[a + 2] == alone(':')
            &&& d.subrange(a + 3, a + 3 + t) == f.ty
            &&& d[a + 3 + t] == alone(',')
        }),
{
    let d = field_part(FieldPart::Decl, f, component);
    let a = f.attrs.len() as int;
    let t = f.ty.len() as int;
    assert(d.subrange(0, a) =~= f.attrs);
    assert(d.subrange(a + 3, a + 3 + t) =~= f.ty);
}

/// What a run of props contributes is what each contributes, side by side
/// in declaration order: the contribution of `a + b` is that of `a`
/// followed by that of `b`, and one prop contributes its own part.
pub proof fn lemma_fields_part_in_order(
    part: FieldPart,
    a: Seq<FieldView>,
    b: Seq<FieldView>,
    component: Seq<char>,
)
    ensures
        fields_part(part, a + b, component) == fields_part(part, a, component) + fields_part(
            part,
            b,
            component,
        ),
        fields_part(part, seq![b.first()], component) == field_part(part, b.first(), component),
    decreases b.len(),
{
    assert(seq![b.first()].drop_last() =~= Seq::<FieldView>::empty());
    assert(fields_part(part, Seq::<FieldView>::empty(), component) == Seq::<TokenView>::empty());
    assert(Seq::<TokenView>::empty() + field_part(part, b.first(), component) =~= field_part(
        part,
        b.first(),
        component,
    ));
    if b.len() == 0 {
        assert(a + b =~= a);
        assert(fields_part(part, a, component) + Seq::<TokenView>::empty() =~= fields_part(
            part,
            a,
            component,
        ));
    } else {
        lemma_fields_part_in_order(part, a, b.drop_last(), component);
        assert((a + b).drop_last() =~= a + b.drop_last());
        assert((a + b).last() == b.last());
        assert(fields_part(part, a, component) + fields_part(part, b.drop_last(), component)
            + field_part(part, b.last(), component) =~= fields_part(part, a, component) + (
        fields_part(part, b.drop_last(), component) + field_part(part, b.last(), component)));
    }
}

} // verus!
