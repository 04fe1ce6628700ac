use vstd::prelude::*;
use vstd::string::*;

use crate::tokens::{
    CALL_SITE, Delimiter, Ident, IdentView, Token, TokenView, copy_range, copy_tokens, expose,
    expose_at, group_stream, is_group, is_joint_punct, is_punct, lemma_expose,
    lemma_expose_rest, lemma_rest_step, range_text, rest_weight, span_of, token_is_group,
    token_is_joint_punct, token_is_punct, token_span, tokens_text, view_idents, view_tokens,
    push_str_chars, view_token, ident_token,
};

verus! {

// ── What Rust's own grammar says, as `syn` implements it ────────────────

/// Whether `syn` parses `text` as an identifier (one that is not a keyword).
pub uninterp spec fn syn_accepts_ident(text: Seq<char>) -> bool;

/// Whether `syn` parses the whole of `text` as a Rust type.
pub uninterp spec fn syn_accepts_type(text: Seq<char>) -> bool;

/// Whether `syn` parses the whole of `text` as a Rust expression.
pub uninterp spec fn syn_accepts_expr(text: Seq<char>) -> bool;

/// Whether `syn` parses the whole of `text` as outer attributes.
pub uninterp spec fn syn_accepts_outer_attrs(text: Seq<char>) -> bool;

/// Asks `syn::parse_str::<syn::Ident>` whether `text` is an identifier; the
/// result is taken as a function of the text, nothing more is claimed.
#[verifier::external_body]
fn parses_as_ident(text: &Vec<char>) -> (r: bool)
    ensures
        r == syn_accepts_ident(text@),
{
    let s: String = text.iter().collect();
    syn::parse_str::<syn::Ident>(&s).is_ok()
}

/// Asks `syn::parse_str::<syn::Type>` whether the whole of `text` is a type;
/// the result is taken as a function of the text, nothing more is claimed.
#[verifier::external_body]
fn parses_as_type(text: &Vec<char>) -> (r: bool)
    ensures
        r == syn_accepts_type(text@),
{
    let s: String = text.iter().collect();
    syn::parse_str::<syn::Type>(&s).is_ok()
}

/// Asks `syn::parse_str::<syn::Expr>` whether the whole of `text` is an
/// expression; the result is taken as a function of the text, nothing more
/// is claimed.
#[verifier::external_body]
fn parses_as_expr(text: &Vec<char>) -> (r: bool)
    ensures
        r == syn_accepts_expr(text@),
{
    let s: String = text.iter().collect();
    syn::parse_str::<syn::Expr>(&s).is_ok()
}

/// Runs `syn::Attribute::parse_outer` on the whole of `text` and reports
/// whether it succeeds; the result is taken as a function of the text,
/// nothing more is claimed.
#[verifier::external_body]
fn parses_as_outer_attrs(text: &Vec<char>) -> (r: bool)
    ensures
        r == syn_accepts_outer_attrs(text@),
{
    let s: String = text.iter().collect();
    syn::parse::Parser::parse_str(syn::Attribute::parse_outer, &s).is_ok()
}

// ── Parsed input ────────────────────────────────────────────────────────

/// One declared prop: `#[attrs] name: Type` with an optional `= default`.
#[derive(Debug)]
pub struct FieldDef {
    pub attrs: Vec<Token>,
    pub name: Ident,
    pub ty: Vec<Token>,
    pub default: Option<Vec<Token>>,
}

pub struct FieldView {
    pub attrs: Seq<TokenView>,
    pub name: IdentView,
    pub ty: Seq<TokenView>,
    pub default: Option<Seq<TokenView>>,
}

impl View for FieldDef {
    type V = FieldView;

    open spec fn view(&self) -> FieldView {
        FieldView {
            attrs: view_tokens(self.attrs@),
            name: self.name@,
            ty: view_tokens(self.ty@),
            default: match self.default {
                Some(d) => Some(view_tokens(d@)),
                None => None,
            },
        }
    }
}

pub open spec fn view_fields(s: Seq<FieldDef>) -> Seq<FieldView> {
    s.map_values(|f: FieldDef| f@)
}

/// How the build closure binds props.
#[derive(Debug)]
pub enum PropsBinding {
    /// `|props| body`: the whole props struct under one name.
    Whole(Ident),
    /// `|{a, b, ..rest}| body`: some props taken out by name, and the others
    /// optionally kept for `..rest` spreads inside the body.
    Destructured { extracted: Vec<Ident>, rest: Option<Ident> },
}

pub enum BindingView {
    Whole(IdentView),
    Destructured { extracted: Seq<IdentView>, rest: Option<IdentView> },
}

impl View for PropsBinding {
    type V = BindingView;

    open spec fn view(&self) -> BindingView {
        match self {
            PropsBinding::Whole(id) => BindingView::Whole(id@),
            PropsBinding::Destructured { extracted, rest } => BindingView::Destructured {
                extracted: view_idents(extracted@),
                rest: match rest {
                    Some(r) => Some(r@),
                    None => None,
                },
            },
        }
    }
}

/// A parsed component definition.
#[derive(Debug)]
pub struct JsxComponentInput {
    pub attrs: Vec<Token>,
    pub name: Ident,
    pub props_name: Ident,
    pub fields: Vec<FieldDef>,
    pub binding: PropsBinding,
    pub body: Vec<Token>,
}

pub struct InputView {
    pub attrs: Seq<TokenView>,
    pub name: IdentView,
    pub props_name: IdentView,
    pub fields: Seq<FieldView>,
    pub binding: BindingView,
    pub body: Seq<TokenView>,
}

impl View for JsxComponentInput {
    type V = InputView;

    open spec fn view(&self) -> InputView {
        InputView {
            attrs: view_tokens(self.attrs@),
            name: self.name@,
            props_name: self.props_name@,
            fields: view_fields(self.fields@),
            binding: self.binding@,
            body: view_tokens(self.body@),
        }
    }
}

/// Which part of the token with a given span an error points at: the whole
/// token, or the opening or closing delimiter of a group.
#[derive(Debug, Clone, Copy, PartialEq, Eq, Structural)]
pub enum SpanPart {
    Whole,
    Open,
    Close,
}

/// A message and where it points: a part of the token with span `span`.
#[derive(Debug)]
pub struct ParseError {
    pub message: String,
    pub span: u64,
    pub part: SpanPart,
}

pub struct ErrorView {
    pub message: Seq<char>,
    pub span: u64,
    pub part: SpanPart,
}

impl View for ParseError {
    type V = ErrorView;

    open spec fn view(&self) -> ErrorView {
        ErrorView { message: self.message@, span: self.span, part: self.part }
    }
}

/// An error at the whole token with span `span`.
pub open spec fn error_at(message: Seq<char>, span: u64) -> ErrorView {
    ErrorView { message, span, part: SpanPart::Whole }
}

fn new_error(message: &str, span: u64) -> (r: ParseError)
    ensures
        r@ == error_at(message@, span),
{
    ParseError { message: String::from_str(message), span, part: SpanPart::Whole }
}

// ── The grammar ─────────────────────────────────────────────────────────
//
// A reader of the definition looks through invisible groups wherever it
// expects an identifier, a punctuation character or a delimited group: it
// reads at `i` of `expose(s, i)` and goes on with that sequence. Types,
// default values and the build body are taken as they stand.
//
// A reader reads within a scope: the contents of a group, or the whole
// input. `end` is the span of that group, or `CALL_SITE` at the top.

/// An error at the token `t`: at its opening delimiter if it is a group.
pub open spec fn error_on(message: Seq<char>, t: TokenView) -> ErrorView {
    ErrorView {
        message,
        span: span_of(t),
        part: if t is Group {
            SpanPart::Open
        } else {
            SpanPart::Whole
        },
    }
}

/// An error at the end of the scope `end`: at the closing delimiter of the
/// group, or at the call site at the top.
pub open spec fn scope_error(message: Seq<char>, end: u64) -> ErrorView {
    ErrorView {
        message,
        span: end,
        part: if end == CALL_SITE {
            SpanPart::Whole
        } else {
            SpanPart::Close
        },
    }
}

/// An error at `i` of `s`: at the token there, or at the end of the scope.
pub open spec fn error_point(message: Seq<char>, s: Seq<TokenView>, i: int, end: u64) -> ErrorView {
    if 0 <= i < s.len() {
        error_on(message, s[i])
    } else {
        scope_error(message, end)
    }
}

pub open spec fn ident_view(t: TokenView) -> IdentView {
    match t {
        TokenView::Ident { name, span } => IdentView { name, span },
        _ => IdentView { name: seq![], span: CALL_SITE },
    }
}

/// The error a reader reports at `i` of `s`: at the token there, or, at the
/// end of `s`, at the end of the scope and after "unexpected end of input, ".
pub open spec fn error_here(message: Seq<char>, s: Seq<TokenView>, i: int, end: u64) -> ErrorView {
    if 0 <= i < s.len() {
        error_on(message, s[i])
    } else {
        scope_error("unexpected end of input, "@ + message, end)
    }
}

/// The error for a missing punctuation character at `i`: at the
/// punctuation character that stands there (looking through invisible
/// groups) if there is one, otherwise at the token there, or at the end of
/// the scope.
pub open spec fn punct_error(message: Seq<char>, s: Seq<TokenView>, i: int, end: u64) -> ErrorView {
    if 0 <= i < expose(s, i).len() && (expose(s, i)[i] matches TokenView::Punct { ch, .. } && ch
        != '\'') {
        error_at(message, span_of(expose(s, i)[i]))
    } else {
        error_point(message, s, i, end)
    }
}

/// The error for a keyword where an identifier is expected.
pub open spec fn keyword_message(name: Seq<char>) -> Seq<char> {
    "expected identifier, found keyword `"@ + name + "`"@
}

/// The punctuation character `c` stands at `i`, looking through invisible
/// groups.
pub open spec fn punct_there(s: Seq<TokenView>, i: int, c: char) -> bool {
    0 <= i < expose(s, i).len() && is_punct(expose(s, i)[i], c)
}

/// The punctuation character `c`, glued to the next one, stands at `i`,
/// looking through invisible groups.
pub open spec fn joint_there(s: Seq<TokenView>, i: int, c: char) -> bool {
    0 <= i < expose(s, i).len() && is_joint_punct(expose(s, i)[i], c)
}

/// A group delimited by `d` stands at `i`, looking through invisible groups.
pub open spec fn group_there(s: Seq<TokenView>, i: int, d: Delimiter) -> bool {
    0 <= i < expose(s, i).len() && is_group(expose(s, i)[i], d)
}

/// An identifier at `i`, looking through invisible groups: one that `syn`
/// accepts, or the error for a keyword, or for anything else.
pub open spec fn ident_read(s: Seq<TokenView>, i: int, end: u64) -> Result<
    (Seq<TokenView>, IdentView),
    ErrorView,
> {
    if 0 <= i < expose(s, i).len() && expose(s, i)[i] is Ident {
        if syn_accepts_ident(ident_view(expose(s, i)[i]).name) {
            Ok((expose(s, i), ident_view(expose(s, i)[i])))
        } else {
            Err(error_point(keyword_message(ident_view(expose(s, i)[i]).name), s, i, end))
        }
    } else {
        Err(error_here("expected identifier"@, s, i, end))
    }
}

/// Outer attributes from `i` on (`end` is the span of the enclosing group):
/// while `#` stands at `j`, a bracketed group must follow and the two
/// tokens must be one outer attribute; the result is the sequence as read
/// and where the attributes end.
pub open spec fn attrs_end(s: Seq<TokenView>, i: int, end: u64) -> Result<(Seq<TokenView>, int), ErrorView>
    decreases rest_weight(s, i),
{
    if 0 <= i && punct_there(s, i, '#') {
        if !group_there(expose(s, i), i + 1, Delimiter::Bracket) {
            Err(error_here("expected square brackets"@, expose(s, i), i + 1, end))
        } else if !syn_accepts_outer_attrs(
            tokens_text(expose(expose(s, i), i + 1).subrange(i, i + 2)),
        ) {
            Err(error_at("expected an outer attribute"@, span_of(expose(s, i)[i])))
        } else {
            proof {
                lemma_expose(s, i);
                lemma_expose(expose(s, i), i + 1);
                lemma_rest_step(expose(expose(s, i), i + 1), i, i + 2);
                lemma_expose_rest(expose(s, i), i, i + 1);
                lemma_expose_rest(s, i, i);
            }
            attrs_end(expose(expose(s, i), i + 1), i + 2, end)
        }
    } else {
        Ok((s, i))
    }
}

/// The longest run `s[lo..k]`, with `k` at most `to`, whose text `syn`
/// accepts as a whole type.
pub open spec fn type_end(s: Seq<TokenView>, lo: int, to: int) -> Option<int>
    decreases to - lo,
{
    if lo < 0 || to <= lo || to > s.len() {
        None
    } else if syn_accepts_type(tokens_text(s.subrange(lo, to))) {
        Some(to)
    } else {
        type_end(s, lo, to - 1)
    }
}

/// The longest run `s[lo..k]`, with `k` at most `to`, whose text `syn`
/// accepts as a whole expression.
pub open spec fn expr_end(s: Seq<TokenView>, lo: int, to: int) -> Option<int>
    decreases to - lo,
{
    if lo < 0 || to <= lo || to > s.len() {
        None
    } else if syn_accepts_expr(tokens_text(s.subrange(lo, to))) {
        Some(to)
    } else {
        expr_end(s, lo, to - 1)
    }
}

/// What follows a field's type or default value at `m` of the block `t`:
/// the end of the block, or a `,` (looking through invisible groups) after
/// which the next field starts; the sequence as read and where that is.
pub open spec fn field_tail(t: Seq<TokenView>, m: int, end: u64) -> Result<
    (Seq<TokenView>, int),
    ErrorView,
> {
    if m >= t.len() {
        Ok((t, m))
    } else if punct_there(t, m, ',') {
        Ok((expose(t, m), m + 1))
    } else {
        Err(punct_error("expected `,`"@, t, m, end))
    }
}

/// One field `attrs name: Type [= default] [,]` at `i` of the contents `s`
/// of the fields block (whose span is `end`): the field, the sequence as
/// read, and where the next field starts. The type is the longest run of
/// tokens that is a type, and the default likewise the longest run that is
/// an expression; `=` and `,` are read looking through invisible groups.
pub open spec fn field_at(s: Seq<TokenView>, i: int, end: u64) -> Result<
    (FieldView, Seq<TokenView>, int),
    ErrorView,
> {
    match attrs_end(s, i, end) {
        Err(e) => Err(e),
        Ok((t, a)) => match ident_read(t, a, end) {
            Err(e) => Err(e),
            Ok((t1, name)) => if !punct_there(t1, a + 1, ':') {
                Err(punct_error("expected `:`"@, t1, a + 1, end))
            } else {
                let t2 = expose(t1, a + 1);
                match type_end(t2, a + 2, t2.len() as int) {
                    None => Err(error_here("expected a type"@, t2, a + 2, end)),
                    Some(k) => if punct_there(t2, k, '=') {
                        let t3 = expose(t2, k);
                        match expr_end(t3, k + 1, t3.len() as int) {
                            None => Err(error_here("expected an expression"@, t3, k + 1, end)),
                            Some(e) => match field_tail(t3, e, end) {
                                Err(x) => Err(x),
                                Ok((t4, j)) => Ok(
                                    (
                                        FieldView {
                                            attrs: t2.subrange(i, a),
                                            name,
                                            ty: t2.subrange(a + 2, k),
                                            default: Some(t3.subrange(k + 1, e)),
                                        },
                                        t4,
                                        j,
                                    ),
                                ),
                            },
                        }
                    } else {
                        match field_tail(t2, k, end) {
                            Err(x) => Err(x),
                            Ok((t4, j)) => Ok(
                                (
                                    FieldView {
                                        attrs: t2.subrange(i, a),
                                        name,
                                        ty: t2.subrange(a + 2, k),
                                        default: None,
                                    },
                                    t4,
                                    j,
                                ),
                            ),
                        }
                    },
                }
            },
        },
    }
}

/// The fields from `i` on, up to the end of the block.
pub open spec fn fields_from(s: Seq<TokenView>, i: int, end: u64) -> Result<Seq<FieldView>, ErrorView>
    decreases rest_weight(s, i),
{
    if i < 0 || i >= s.len() {
        Ok(seq![])
    } else {
        match field_at(s, i, end) {
            Err(e) => Err(e),
            Ok((f, t, j)) => {
                proof {
                    lemma_field_at_progress(s, i, end);
                }
                match fields_from(t, j, end) {
                    Ok(rest) => Ok(seq![f] + rest),
                    Err(e) => Err(e),
                }
            },
        }
    }
}

/// `..` stands at `i`, looking through invisible groups.
pub open spec fn dots_there(p: Seq<TokenView>, i: int) -> bool {
    joint_there(p, i, '.') && punct_there(expose(p, i), i + 1, '.')
}

/// The destructuring pattern `a, b, ..rest` from `i` on, in the contents
/// `p` of the braces (whose span is `end`).
pub open spec fn pattern_from(p: Seq<TokenView>, i: int, end: u64) -> Result<
    (Seq<IdentView>, Option<IdentView>),
    ErrorView,
>
    decreases rest_weight(p, i),
{
    if i < 0 || i >= p.len() {
        Ok((seq![], None))
    } else if dots_there(p, i) {
        match ident_read(expose(expose(p, i), i + 1), i + 2, end) {
            Err(e) => Err(e),
            Ok((v, r)) => if i + 3 < v.len() {
                Err(error_on("`..rest` must be the last element of the pattern"@, v[i + 3]))
            } else {
                Ok((seq![], Some(r)))
            },
        }
    } else {
        match ident_read(p, i, end) {
            Err(e) => Err(e),
            Ok((v, x)) => if i + 1 < v.len() {
                if !punct_there(v, i + 1, ',') {
                    Err(punct_error("expected `,`"@, v, i + 1, end))
                } else {
                    proof {
                        lemma_expose(p, i);
                        lemma_expose(v, i + 1);
                        lemma_rest_step(expose(v, i + 1), i, i + 2);
                        lemma_expose_rest(v, i, i + 1);
                        lemma_expose_rest(p, i, i);
                    }
                    match pattern_from(expose(v, i + 1), i + 2, end) {
                        Ok((xs, r)) => Ok((seq![x] + xs, r)),
                        Err(e) => Err(e),
                    }
                }
            } else {
                Ok((seq![x], None))
            },
        }
    }
}

/// The closure's binding at `i`: a braced destructuring pattern or one
/// identifier; the sequence as read and where the binding ends.
pub open spec fn binding_at(s: Seq<TokenView>, i: int) -> Result<
    (BindingView, Seq<TokenView>, int),
    ErrorView,
> {
    if group_there(s, i, Delimiter::Brace) {
        match pattern_from(group_stream(expose(s, i)[i]), 0, span_of(expose(s, i)[i])) {
            Err(e) => Err(e),
            Ok((extracted, rest)) => Ok(
                (BindingView::Destructured { extracted, rest }, expose(s, i), i + 1),
            ),
        }
    } else {
        match ident_read(s, i, CALL_SITE) {
            Err(e) => Err(e),
            Ok((v, id)) => Ok((BindingView::Whole(id), v, i + 1)),
        }
    }
}

/// The whole definition:
/// `attrs Name(PropsName) { fields } |binding| body`.
pub open spec fn parse_spec(s: Seq<TokenView>) -> Result<InputView, ErrorView> {
    match attrs_end(s, 0, CALL_SITE) {
        Err(e) => Err(e),
        Ok((t, a)) => match ident_read(t, a, CALL_SITE) {
            Err(e) => Err(e),
            Ok((t1, name)) => if !group_there(t1, a + 1, Delimiter::Parenthesis) {
                Err(error_here("expected parentheses"@, t1, a + 1, CALL_SITE))
            } else {
                let t2 = expose(t1, a + 1);
                match ident_read(group_stream(t2[a + 1]), 0, span_of(t2[a + 1])) {
                    Err(e) => Err(e),
                    Ok((p, props_name)) => if p.len() > 1 {
                        Err(
                            error_on(
                                "expected a single props struct name, e.g. `Btn(BtnProps)`"@,
                                p[1],
                            ),
                        )
                    } else if !group_there(t2, a + 2, Delimiter::Brace) {
                        Err(error_here("expected curly braces"@, t2, a + 2, CALL_SITE))
                    } else {
                        let t3 = expose(t2, a + 2);
                        match fields_from(group_stream(t3[a + 2]), 0, span_of(t3[a + 2])) {
                            Err(e) => Err(e),
                            Ok(fields) => if !punct_there(t3, a + 3, '|') {
                                Err(punct_error("expected `|`"@, t3, a + 3, CALL_SITE))
                            } else {
                                match binding_at(expose(t3, a + 3), a + 4) {
                                    Err(e) => Err(e),
                                    Ok((binding, t5, b)) => if !punct_there(t5, b, '|') {
                                        Err(punct_error("expected `|`"@, t5, b, CALL_SITE))
                                    } else if b + 1 >= expose(t5, b).len() {
                                        Err(
                                            scope_error(
                                                "unexpected end of input, expected a build expression after the closure pattern"@,
                                                CALL_SITE,
                                            ),
                                        )
                                    } else {
                                        Ok(
                                            InputView {
                                                attrs: expose(t5, b).subrange(0, a),
                                                name,
                                                props_name,
                                                fields,
                                                binding,
                                                body: expose(t5, b).subrange(
                                                    b + 1,
                                                    expose(t5, b).len() as int,
                                                ),
                                            },
                                        )
                                    },
                                }
                            },
                        }
                    },
                }
            },
        },
    }
}

// ── Progress of the reader ──────────────────────────────────────────────

/// The attributes end no earlier than they start, within the sequence as
/// read, and reading them never adds weight to the rest.
pub proof fn lemma_attrs_end(s: Seq<TokenView>, i: int, end: u64)
    requires
        0 <= i <= s.len(),
    ensures
        attrs_end(s, i, end) matches Ok((t, a)) ==> i <= a <= t.len() && rest_weight(t, a)
            <= rest_weight(s, i),
    decreases rest_weight(s, i),
{
    if punct_there(s, i, '#') && group_there(expose(s, i), i + 1, Delimiter::Bracket)
        && syn_accepts_outer_attrs(tokens_text(expose(expose(s, i), i + 1).subrange(i, i + 2))) {
        let t = expose(s, i);
        let u = expose(t, i + 1);
        lemma_expose(s, i);
        lemma_expose(t, i + 1);
        lemma_rest_step(u, i, i + 2);
        lemma_expose_rest(t, i, i + 1);
        lemma_expose_rest(s, i, i);
        lemma_attrs_end(u, i + 2, end);
    }
}

pub proof fn lemma_type_end_bounds(s: Seq<TokenView>, lo: int, to: int)
    ensures
        type_end(s, lo, to) matches Some(k) ==> lo < k <= to && k <= s.len(),
    decreases to - lo,
{
    if !(lo < 0 || to <= lo || to > s.len()) {
        lemma_type_end_bounds(s, lo, to - 1);
    }
}

pub proof fn lemma_expr_end_bounds(s: Seq<TokenView>, lo: int, to: int)
    ensures
        expr_end(s, lo, to) matches Some(k) ==> lo < k <= to && k <= s.len(),
    decreases to - lo,
{
    if !(lo < 0 || to <= lo || to > s.len()) {
        lemma_expr_end_bounds(s, lo, to - 1);
    }
}

/// What follows a field moves forward past `a` (where its name stands) and
/// never adds weight to the rest.
pub proof fn lemma_field_tail(t: Seq<TokenView>, a: int, m: int, end: u64)
    requires
        0 <= a < m <= t.len(),
    ensures
        field_tail(t, m, end) matches Ok((u, j)) ==> a < j <= u.len() && rest_weight(u, j)
            < rest_weight(t, a),
{
    if m >= t.len() {
        lemma_rest_step(t, a, m);
    } else if punct_there(t, m, ',') {
        let u = expose(t, m);
        lemma_expose(t, m);
        lemma_expose_rest(t, a, m);
        lemma_rest_step(u, a, m + 1);
    }
}

/// Reading a field moves forward: the rest after it weighs less than the
/// rest before it.
pub proof fn lemma_field_at_progress(s: Seq<TokenView>, i: int, end: u64)
    requires
        0 <= i < s.len(),
    ensures
        field_at(s, i, end) matches Ok((f, t, j)) ==> 0 <= j <= t.len() && rest_weight(t, j)
            < rest_weight(s, i),
{
    lemma_attrs_end(s, i, end);
    if let Ok((t, a)) = attrs_end(s, i, end) {
        if let Ok((t1, name)) = ident_read(t, a, end) {
            lemma_expose(t, a);
            if punct_there(t1, a + 1, ':') {
                let t2 = expose(t1, a + 1);
                lemma_expose(t1, a + 1);
                lemma_expose_rest(t1, a, a + 1);
                lemma_expose_rest(t, a, a);
                lemma_type_end_bounds(t2, a + 2, t2.len() as int);
                if let Some(k) = type_end(t2, a + 2, t2.len() as int) {
                    if punct_there(t2, k, '=') {
                        let t3 = expose(t2, k);
                        lemma_expose(t2, k);
                        lemma_expose_rest(t2, a, k);
                        lemma_expr_end_bounds(t3, k + 1, t3.len() as int);
                        if let Some(e) = expr_end(t3, k + 1, t3.len() as int) {
                            lemma_field_tail(t3, a, e, end);
                        }
                    } else {
                        lemma_field_tail(t2, a, k, end);
                    }
                }
            }
        }
    }
}

// ── Parsing ─────────────────────────────────────────────────────────────

/// `xs` in front of the fields of `r`, or the error of `r`.
pub open spec fn prepend_fields(xs: Seq<FieldView>, r: Result<Seq<FieldView>, ErrorView>) -> Result<
    Seq<FieldView>,
    ErrorView,
> {
    match r {
        Ok(rest) => Ok(xs + rest),
        Err(e) => Err(e),
    }
}

/// `xs` in front of the extracted names of `r`, or the error of `r`.
pub open spec fn prepend_names(
    xs: Seq<IdentView>,
    r: Result<(Seq<IdentView>, Option<IdentView>), ErrorView>,
) -> Result<(Seq<IdentView>, Option<IdentView>), ErrorView> {
    match r {
        Ok((names, rest)) => Ok((xs + names, rest)),
        Err(e) => Err(e),
    }
}


fn ident_from(t: &Token) -> (r: Ident)
    requires
        t@ is Ident,
    ensures
        r@ == ident_view(t@),
{
    match t {
        Token::Ident { name, span } => Ident { name: name.clone(), span: *span },
        _ => Ident { name: String::new(), span: CALL_SITE },
    }
}

fn error_on_exec(message: String, t: &Token) -> (r: ParseError)
    ensures
        r@ == error_on(message@, view_token(*t)),
{
    let part = match t {
        Token::Group { .. } => SpanPart::Open,
        _ => SpanPart::Whole,
    };
    ParseError { message, span: token_span(t), part }
}

fn scope_error_exec(message: String, end: u64) -> (r: ParseError)
    ensures
        r@ == scope_error(message@, end),
{
    let part = if end == CALL_SITE {
        SpanPart::Whole
    } else {
        SpanPart::Close
    };
    ParseError { message, span: end, part }
}

fn error_point_exec(message: String, s: &Vec<Token>, i: usize, end: u64) -> (r: ParseError)
    ensures
        r@ == error_point(message@, view_tokens(s@), i as int, end),
{
    if i < s.len() {
        error_on_exec(message, &s[i])
    } else {
        scope_error_exec(message, end)
    }
}

/// `s` as a reader that looks through invisible groups sees it at `i`.
fn exposed(s: &Vec<Token>, i: usize) -> (r: Vec<Token>)
    ensures
        view_tokens(r@) == expose(view_tokens(s@), i as int),
{
    let mut t = copy_tokens(s);
    expose_at(&mut t, i);
    t
}

fn punct_there_exec(s: &Vec<Token>, i: usize, c: char) -> (r: bool)
    ensures
        r == punct_there(view_tokens(s@), i as int, c),
{
    let t = exposed(s, i);
    i < t.len() && token_is_punct(&t[i], c)
}

fn group_there_exec(s: &Vec<Token>, i: usize, d: Delimiter) -> (r: bool)
    ensures
        r == group_there(view_tokens(s@), i as int, d),
{
    let t = exposed(s, i);
    i < t.len() && token_is_group(&t[i], d)
}

fn dots_there_exec(p: &Vec<Token>, i: usize) -> (r: bool)
    ensures
        r == dots_there(view_tokens(p@), i as int),
{
    let t = exposed(p, i);
    if i < t.len() && token_is_joint_punct(&t[i], '.') {
        if i + 1 <= t.len() {
            punct_there_exec(&t, i + 1, '.')
        } else {
            false
        }
    } else {
        false
    }
}

fn error_here_exec(message: &str, s: &Vec<Token>, i: usize, end: u64) -> (r: ParseError)
    ensures
        r@ == error_here(message@, view_tokens(s@), i as int, end),
{
    if i < s.len() {
        error_on_exec(String::from_str(message), &s[i])
    } else {
        scope_error_exec(String::from_str("unexpected end of input, ").concat(message), end)
    }
}

fn punct_error_exec(message: &str, s: &Vec<Token>, i: usize, end: u64) -> (r: ParseError)
    ensures
        r@ == punct_error(message@, view_tokens(s@), i as int, end),
{
    let t = exposed(s, i);
    if i < t.len() {
        match &t[i] {
            Token::Punct { ch, span, .. } => {
                if *ch != '\'' {
                    return new_error(message, *span);
                }
            },
            _ => {},
        }
    }
    error_point_exec(String::from_str(message), s, i, end)
}

fn keyword_message_string(name: &String) -> (r: String)
    ensures
        r@ == keyword_message(name@),
{
    let m = String::from_str("expected identifier, found keyword `");
    let m = m.concat(name.as_str());
    m.concat("`")
}

fn ident_accepted(name: &String) -> (r: bool)
    ensures
        r == syn_accepts_ident(name@),
{
    let mut text: Vec<char> = Vec::new();
    push_str_chars(&mut text, name);
    assert(text@ =~= name@);
    parses_as_ident(&text)
}

/// Reads an identifier at `i`, looking through invisible groups; on success
/// `s` becomes the sequence as read.
fn read_ident(s: &mut Vec<Token>, i: usize, end: u64) -> (r: Result<Ident, ParseError>)
    ensures
        match r {
            Ok(id) => ident_read(view_tokens(old(s)@), i as int, end) == Ok::<
                (Seq<TokenView>, IdentView),
                ErrorView,
            >((view_tokens(final(s)@), id@)) && i < final(s)@.len(),
            Err(e) => ident_read(view_tokens(old(s)@), i as int, end) == Err::<
                (Seq<TokenView>, IdentView),
                ErrorView,
            >(e@),
        },
{
    let here = error_here_exec("expected identifier", s, i, end);
    let at = error_point_exec(String::new(), s, i, end);
    expose_at(s, i);
    if i < s.len() {
        match &s[i] {
            Token::Ident { name, .. } => {
                if ident_accepted(name) {
                    Ok(ident_from(&s[i]))
                } else {
                    Err(ParseError { message: keyword_message_string(name), span: at.span, part: at.part })
                }
            },
            _ => Err(here),
        }
    } else {
        Err(here)
    }
}

fn parse_attrs(s: &mut Vec<Token>, start: usize, end: u64) -> (r: Result<usize, ParseError>)
    requires
        start <= old(s)@.len(),
    ensures
        match r {
            Ok(j) => attrs_end(view_tokens(old(s)@), start as int, end) == Ok::<
                (Seq<TokenView>, int),
                ErrorView,
            >((view_tokens(final(s)@), j as int)) && start <= j <= final(s)@.len(),
            Err(e) => attrs_end(view_tokens(old(s)@), start as int, end) == Err::<
                (Seq<TokenView>, int),
                ErrorView,
            >(e@),
        },
{
    let ghost s0 = view_tokens(s@);
    let mut i = start;
    loop
        invariant
            s0 == view_tokens(old(s)@),
            start <= i <= s@.len(),
            attrs_end(s0, start as int, end) == attrs_end(view_tokens(s@), i as int, end),
        decreases rest_weight(view_tokens(s@), i as int),
    {
        let ghost v = view_tokens(s@);
        if !punct_there_exec(s, i, '#') {
            return Ok(i);
        }
        proof {
            lemma_expose(v, i as int);
        }
        expose_at(s, i);
        let ghost t = view_tokens(s@);
        let n = s.len();
        assert(i < n);
        if !group_there_exec(s, i + 1, Delimiter::Bracket) {
            return Err(error_here_exec("expected square brackets", s, i + 1, end));
        }
        let pound = token_span(&s[i]);
        proof {
            lemma_expose(t, i + 1);
        }
        expose_at(s, i + 1);
        let text = range_text(s, i, i + 2);
        if !parses_as_outer_attrs(&text) {
            return Err(new_error("expected an outer attribute", pound));
        }
        assert(i + 2 <= s@.len());
        proof {
            lemma_rest_step(view_tokens(s@), i as int, i + 2);
            lemma_expose_rest(t, i as int, i + 1);
            lemma_expose_rest(v, i as int, i as int);
        }
        i = i + 2;
    }
}

fn find_type_end(s: &Vec<Token>, lo: usize) -> (r: Option<usize>)
    requires
        lo <= s@.len(),
    ensures
        match r {
            Some(k) => type_end(view_tokens(s@), lo as int, s@.len() as int) == Some(k as int) && lo
                < k <= s@.len(),
            None => type_end(view_tokens(s@), lo as int, s@.len() as int) is None,
        },
{
    let ghost v = view_tokens(s@);
    let n = s.len();
    let mut k = n;
    while k > lo
        invariant
            v == view_tokens(s@),
            n == s@.len(),
            lo <= k <= n,
            type_end(v, lo as int, n as int) == type_end(v, lo as int, k as int),
        decreases k,
    {
        let text = range_text(s, lo, k);
        if parses_as_type(&text) {
            return Some(k);
        }
        k = k - 1;
    }
    None
}

fn find_expr_end(s: &Vec<Token>, lo: usize) -> (r: Option<usize>)
    requires
        lo <= s@.len(),
    ensures
        match r {
            Some(k) => expr_end(view_tokens(s@), lo as int, s@.len() as int) == Some(k as int) && lo
                < k <= s@.len(),
            None => expr_end(view_tokens(s@), lo as int, s@.len() as int) is None,
        },
{
    let ghost v = view_tokens(s@);
    let n = s.len();
    let mut k = n;
    while k > lo
        invariant
            v == view_tokens(s@),
            n == s@.len(),
            lo <= k <= n,
            expr_end(v, lo as int, n as int) == expr_end(v, lo as int, k as int),
        decreases k,
    {
        let text = range_text(s, lo, k);
        if parses_as_expr(&text) {
            return Some(k);
        }
        k = k - 1;
    }
    None
}

/// Reads what follows a field's type or default value at `m`: the end of
/// the block or a `,`; on success `s` becomes the sequence as read.
fn read_field_tail(s: &mut Vec<Token>, m: usize, end: u64) -> (r: Result<usize, ParseError>)
    ensures
        match r {
            Ok(j) => field_tail(view_tokens(old(s)@), m as int, end) == Ok::<
                (Seq<TokenView>, int),
                ErrorView,
            >((view_tokens(final(s)@), j as int)),
            Err(e) => field_tail(view_tokens(old(s)@), m as int, end) == Err::<
                (Seq<TokenView>, int),
                ErrorView,
            >(e@),
        },
{
    if m >= s.len() {
        Ok(m)
    } else if punct_there_exec(s, m, ',') {
        expose_at(s, m);
        Ok(m + 1)
    } else {
        Err(punct_error_exec("expected `,`", s, m, end))
    }
}

fn parse_field(s: &mut Vec<Token>, i: usize, end: u64) -> (r: Result<(FieldDef, usize), ParseError>)
    requires
        i < old(s)@.len(),
    ensures
        match r {
            Ok((f, j)) => field_at(view_tokens(old(s)@), i as int, end) == Ok::<
                (FieldView, Seq<TokenView>, int),
                ErrorView,
            >((f@, view_tokens(final(s)@), j as int)),
            Err(e) => field_at(view_tokens(old(s)@), i as int, end) == Err::<
                (FieldView, Seq<TokenView>, int),
                ErrorView,
            >(e@),
        },
{
    let ghost s0 = view_tokens(s@);
    let a = match parse_attrs(s, i, end) {
        Ok(a) => a,
        Err(e) => return Err(e),
    };
    proof {
        crate::syntax::lemma_attrs_end(s0, i as int, end);
    }
    let name = match read_ident(s, a, end) {
        Ok(id) => id,
        Err(e) => return Err(e),
    };
    let n0 = s.len();
    assert(a < n0);
    if !punct_there_exec(s, a + 1, ':') {
        return Err(punct_error_exec("expected `:`", s, a + 1, end));
    }
    let ghost t1 = view_tokens(s@);
    proof {
        lemma_expose(t1, a + 1);
    }
    expose_at(s, a + 1);
    let ghost t2 = view_tokens(s@);
    let k = match find_type_end(s, a + 2) {
        Some(k) => k,
        None => return Err(error_here_exec("expected a type", s, a + 2, end)),
    };
    let attrs = copy_range(s, i, a);
    let ty = copy_range(s, a + 2, k);
    if punct_there_exec(s, k, '=') {
        proof {
            lemma_expose(t2, k as int);
        }
        expose_at(s, k);
        let n3 = s.len();
        assert(k < n3);
        let e = match find_expr_end(s, k + 1) {
            Some(e) => e,
            None => return Err(error_here_exec("expected an expression", s, k + 1, end)),
        };
        let default = copy_range(s, k + 1, e);
        let j = match read_field_tail(s, e, end) {
            Ok(j) => j,
            Err(x) => return Err(x),
        };
        Ok((FieldDef { attrs, name, ty, default: Some(default) }, j))
    } else {
        let j = match read_field_tail(s, k, end) {
            Ok(j) => j,
            Err(x) => return Err(x),
        };
        Ok((FieldDef { attrs, name, ty, default: None }, j))
    }
}

fn parse_fields(block: &Vec<Token>, end: u64) -> (r: Result<Vec<FieldDef>, ParseError>)
    ensures
        match r {
            Ok(fs) => fields_from(view_tokens(block@), 0, end) == Ok::<Seq<FieldView>, ErrorView>(
                view_fields(fs@),
            ),
            Err(e) => fields_from(view_tokens(block@), 0, end) == Err::<Seq<FieldView>, ErrorView>(
                e@,
            ),
        },
{
    let ghost s0 = view_tokens(block@);
    let mut s = copy_tokens(block);
    let mut out: Vec<FieldDef> = Vec::new();
    let mut i: usize = 0;
    while i < s.len()
        invariant
            s0 == view_tokens(block@),
            i <= s@.len(),
            fields_from(s0, 0, end) == prepend_fields(
                view_fields(out@),
                fields_from(view_tokens(s@), i as int, end),
            ),
        decreases rest_weight(view_tokens(s@), i as int),
    {
        let ghost v = view_tokens(s@);
        match parse_field(&mut s, i, end) {
            Err(e) => {
                return Err(e);
            },
            Ok((f, j)) => {
                proof {
                    lemma_field_at_progress(v, i as int, end);
                }
                let ghost fv = f@;
                let ghost before = view_fields(out@);
                out.push(f);
                assert(view_fields(out@) =~= before + seq![fv]);
                proof {
                    match fields_from(view_tokens(s@), j as int, end) {
                        Ok(rest) => {
                            assert(before + (seq![fv] + rest) =~= before + seq![fv] + rest);
                        },
                        Err(_) => {},
                    }
                }
                i = j;
            },
        }
    }
    assert(view_fields(out@) + Seq::<FieldView>::empty() =~= view_fields(out@));
    Ok(out)
}

fn parse_pattern(pattern: &Vec<Token>, end: u64) -> (r: Result<(Vec<Ident>, Option<Ident>), ParseError>)
    ensures
        match r {
            Ok((xs, rest)) => pattern_from(view_tokens(pattern@), 0, end) == Ok::<
                (Seq<IdentView>, Option<IdentView>),
                ErrorView,
            >(
                (
                    view_idents(xs@),
                    match rest {
                        Some(id) => Some(id@),
                        None => None,
                    },
                ),
            ),
            Err(e) => pattern_from(view_tokens(pattern@), 0, end) == Err::<
                (Seq<IdentView>, Option<IdentView>),
                ErrorView,
            >(e@),
        },
{
    let ghost p0 = view_tokens(pattern@);
    let mut p = copy_tokens(pattern);
    let mut out: Vec<Ident> = Vec::new();
    let mut i: usize = 0;
    while i < p.len()
        invariant
            p0 == view_tokens(pattern@),
            i <= p@.len(),
            pattern_from(p0, 0, end) == prepend_names(
                view_idents(out@),
                pattern_from(view_tokens(p@), i as int, end),
            ),
        decreases rest_weight(view_tokens(p@), i as int),
    {
        let ghost v0 = view_tokens(p@);
        if dots_there_exec(&p, i) {
            expose_at(&mut p, i);
            let n1 = p.len();
            assert(i < n1);
            expose_at(&mut p, i + 1);
            let n2 = p.len();
            assert(i + 1 < n2);
            let rest = match read_ident(&mut p, i + 2, end) {
                Ok(id) => id,
                Err(e) => return Err(e),
            };
            if i + 3 < p.len() {
                return Err(
                    error_on_exec(
                        String::from_str("`..rest` must be the last element of the pattern"),
                        &p[i + 3],
                    ),
                );
            }
            assert(view_idents(out@) + Seq::<IdentView>::empty() =~= view_idents(out@));
            return Ok((out, Some(rest)));
        }
        let id = match read_ident(&mut p, i, end) {
            Ok(id) => id,
            Err(e) => return Err(e),
        };
        let ghost v = view_tokens(p@);
        let ghost idv = id@;
        let ghost before = view_idents(out@);
        out.push(id);
        assert(view_idents(out@) =~= before + seq![idv]);
        if i + 1 < p.len() {
            if !punct_there_exec(&p, i + 1, ',') {
                return Err(punct_error_exec("expected `,`", &p, i + 1, end));
            }
            proof {
                lemma_expose(v0, i as int);
                lemma_expose(v, i + 1);
                lemma_rest_step(expose(v, i + 1), i as int, i + 2);
                lemma_expose_rest(v, i as int, i + 1);
                lemma_expose_rest(v0, i as int, i as int);
            }
            expose_at(&mut p, i + 1);
            proof {
                match pattern_from(view_tokens(p@), i + 2, end) {
                    Ok((xs, r)) => {
                        assert(before + (seq![idv] + xs) =~= before + seq![idv] + xs);
                    },
                    Err(_) => {},
                }
            }
            i = i + 2;
        } else {
            assert(view_idents(out@) + Seq::<IdentView>::empty() =~= view_idents(out@));
            return Ok((out, None));
        }
    }
    assert(view_idents(out@) + Seq::<IdentView>::empty() =~= view_idents(out@));
    Ok((out, None))
}

fn parse_binding(s: &mut Vec<Token>, i: usize) -> (r: Result<(PropsBinding, usize), ParseError>)
    ensures
        match r {
            Ok((b, j)) => binding_at(view_tokens(old(s)@), i as int) == Ok::<
                (BindingView, Seq<TokenView>, int),
                ErrorView,
            >((b@, view_tokens(final(s)@), j as int)) && j <= final(s)@.len(),
            Err(e) => binding_at(view_tokens(old(s)@), i as int) == Err::<
                (BindingView, Seq<TokenView>, int),
                ErrorView,
            >(e@),
        },
{
    if group_there_exec(s, i, Delimiter::Brace) {
        expose_at(s, i);
        let n = s.len();
        assert(i < n);
        let inner = match &s[i] {
            Token::Group { stream, .. } => copy_tokens(stream),
            _ => Vec::new(),
        };
        let span = token_span(&s[i]);
        match parse_pattern(&inner, span) {
            Err(e) => Err(e),
            Ok((extracted, rest)) => Ok((PropsBinding::Destructured { extracted, rest }, i + 1)),
        }
    } else {
        match read_ident(s, i, CALL_SITE) {
            Err(e) => Err(e),
            Ok(id) => {
                let n = s.len();
                assert(i < n);
                Ok((PropsBinding::Whole(id), i + 1))
            },
        }
    }
}

impl JsxComponentInput {
    /// Parses a component definition
    /// `attrs Name(PropsName) { fields } |binding| body`
    /// exactly as [`parse_spec`] states.
    pub fn parse(input: &Vec<Token>) -> (r: Result<JsxComponentInput, ParseError>)
        ensures
            match r {
                Ok(c) => parse_spec(view_tokens(input@)) == Ok::<InputView, ErrorView>(c@),
                Err(e) => parse_spec(view_tokens(input@)) == Err::<InputView, ErrorView>(e@),
            },
    {
        let mut s = copy_tokens(input);
        let a = match parse_attrs(&mut s, 0, CALL_SITE) {
            Ok(a) => a,
            Err(e) => return Err(e),
        };
        let name = match read_ident(&mut s, a, CALL_SITE) {
            Ok(id) => id,
            Err(e) => return Err(e),
        };
        let n0 = s.len();
        assert(a < n0);
        if !group_there_exec(&s, a + 1, Delimiter::Parenthesis) {
            return Err(error_here_exec("expected parentheses", &s, a + 1, CALL_SITE));
        }
        expose_at(&mut s, a + 1);
        let n1 = s.len();
        assert(a + 1 < n1);
        let mut p = match &s[a + 1] {
            Token::Group { stream, .. } => copy_tokens(stream),
            _ => Vec::new(),
        };
        let pspan = token_span(&s[a + 1]);
        let props_name = match read_ident(&mut p, 0, pspan) {
            Ok(id) => id,
            Err(e) => return Err(e),
        };
        if p.len() > 1 {
            return Err(
                error_on_exec(
                    String::from_str("expected a single props struct name, e.g. `Btn(BtnProps)`"),
                    &p[1],
                ),
            );
        }
        if !group_there_exec(&s, a + 2, Delimiter::Brace) {
            return Err(error_here_exec("expected curly braces", &s, a + 2, CALL_SITE));
        }
        expose_at(&mut s, a + 2);
        let n2 = s.len();
        assert(a + 2 < n2);
        let block = match &s[a + 2] {
            Token::Group { stream, .. } => copy_tokens(stream),
            _ => Vec::new(),
        };
        let bspan = token_span(&s[a + 2]);
        let fields = match parse_fields(&block, bspan) {
            Ok(fs) => fs,
            Err(e) => return Err(e),
        };
        if !punct_there_exec(&s, a + 3, '|') {
            return Err(punct_error_exec("expected `|`", &s, a + 3, CALL_SITE));
        }
        expose_at(&mut s, a + 3);
        let n3 = s.len();
        assert(a + 3 < n3);
        let (binding, b) = match parse_binding(&mut s, a + 4) {
            Ok(x) => x,
            Err(e) => return Err(e),
        };
        if !punct_there_exec(&s, b, '|') {
            return Err(punct_error_exec("expected `|`", &s, b, CALL_SITE));
        }
        expose_at(&mut s, b);
        let n = s.len();
        if b + 1 >= n {
            return Err(
                scope_error_exec(
                    String::from_str(
                        "unexpected end of input, expected a build expression after the closure pattern",
                    ),
                    CALL_SITE,
                ),
            );
        }
        let attrs = copy_range(&s, 0, a);
        let body = copy_range(&s, b + 1, n);
        Ok(JsxComponentInput { attrs, name, props_name, fields, binding, body })
    }
}

// ── Laws of the reader ──────────────────────────────────────────────────

/// No token of `p` is an invisible group (at the top level).
pub open spec fn no_invisible(p: Seq<TokenView>) -> bool {
    forall|k: int| 0 <= k < p.len() ==> !is_group(#[trigger] p[k], Delimiter::Invisible)
}

/// The destructuring pattern `x1, ..., xn[,]` or `x1, ..., xn, ..r` read
/// from `i` on: every identifier before `..` is an extracted name, in the
/// order written (the `k`-th at `i + 2k`), commas stand between them, and
/// the rest binding is the identifier after `..`, which ends the pattern.
pub proof fn lemma_pattern_names_every_identifier(p: Seq<TokenView>, i: int, end: u64)
    requires
        no_invisible(p),
        0 <= i,
    ensures
        pattern_from(p, i, end) matches Ok((xs, rest)) ==> {
            let n = xs.len() as int;
            &&& forall|k: int|
                0 <= k < n ==> i + 2 * k < p.len() && p[i + 2 * k] == ident_token(#[trigger] xs[k])
            &&& forall|k: int|
                0 <= k < n && i + 2 * k + 1 < p.len() ==> #[trigger] is_punct(p[i + 2 * k + 1], ',')
            &&& match rest {
                None => (n == 0 && p.len() <= i) || (n > 0 && (p.len() == i + 2 * n - 1 || p.len()
                    == i + 2 * n)),
                Some(r) => p.len() == i + 2 * n + 3 && is_joint_punct(p[i + 2 * n], '.')
                    && is_punct(p[i + 2 * n + 1], '.') && p[i + 2 * n + 2] == ident_token(r),
            }
        },
    decreases p.len() - i,
{
    if i < p.len() {
        assert(expose(p, i) == p);
        if dots_there(p, i) {
            assert(expose(p, i + 1) == p);
            if i + 2 < p.len() {
                assert(expose(p, i + 2) == p);
            }
        } else {
            if let Ok((v, x)) = ident_read(p, i, end) {
                assert(v == p);
                if i + 1 < p.len() && punct_there(p, i + 1, ',') {
                    assert(expose(p, i + 1) == p);
                    lemma_pattern_names_every_identifier(p, i + 2, end);
                    if let Ok((xs, rest)) = pattern_from(p, i + 2, end) {
                        let ys = seq![x] + xs;
                        assert forall|k: int| 0 <= k < ys.len() implies i + 2 * k < p.len()
                            && p[i + 2 * k] == ident_token(#[trigger] ys[k]) by {
                            if k > 0 {
                                assert(ys[k] == xs[k - 1]);
                                assert(i + 2 + 2 * (k - 1) == i + 2 * k);
                            }
                        }
                        assert forall|k: int|
                            0 <= k < ys.len() && i + 2 * k + 1 < p.len() implies #[trigger] is_punct(
                            p[i + 2 * k + 1],
                            ',',
                        ) by {
                            if k > 0 {
                                assert(i + 2 + 2 * (k - 1) + 1 == i + 2 * k + 1);
                                assert(is_punct(p[i + 2 + 2 * (k - 1) + 1], ','));
                            }
                        }
                    }
                }
            }
        }
    }
}

/// Looking through invisible groups at `p` keeps every token before `a`.
pub proof fn lemma_expose_keeps_prefix(s: Seq<TokenView>, p: int, a: int)
    requires
        0 <= a <= p,
        a <= s.len(),
    ensures
        a <= expose(s, p).len(),
        expose(s, p).take(a) == s.take(a),
{
    lemma_expose(s, p);
    if p <= s.len() {
        assert(expose(s, p).take(a) =~= expose(s, p).take(p).take(a));
        assert(s.take(a) =~= s.take(p).take(a));
    }
}

/// Outer attributes read from `i`: each is `#` followed by a bracketed
/// group, they stand side by side up to where reading stops, nothing before
/// `i` changes, and no `#` is left where reading stops.
pub proof fn lemma_attrs_end_reads_attributes(s: Seq<TokenView>, i: int, end: u64)
    requires
        0 <= i <= s.len(),
    ensures
        attrs_end(s, i, end) matches Ok((t, a)) ==> {
            &&& i <= a <= t.len()
            &&& (a - i) % 2 == 0
            &&& t.take(i) == s.take(i)
            &&& forall|k: int|
                i <= k < a && (k - i) % 2 == 0 ==> #[trigger] is_punct(t[k], '#') && is_group(
                    t[k + 1],
                    Delimiter::Bracket,
                )
            &&& !punct_there(t, a, '#')
        },
    decreases rest_weight(s, i),
{
    if punct_there(s, i, '#') && group_there(expose(s, i), i + 1, Delimiter::Bracket)
        && syn_accepts_outer_attrs(tokens_text(expose(expose(s, i), i + 1).subrange(i, i + 2))) {
        let t0 = expose(s, i);
        let u = expose(t0, i + 1);
        lemma_expose(s, i);
        lemma_expose(t0, i + 1);
        lemma_rest_step(u, i, i + 2);
        lemma_expose_rest(t0, i, i + 1);
        lemma_expose_rest(s, i, i);
        lemma_expose_keeps_prefix(t0, i + 1, i + 1);
        assert(u[i] == t0.take(i + 1)[i]);
        lemma_attrs_end_reads_attributes(u, i + 2, end);
        if let Ok((t, a)) = attrs_end(u, i + 2, end) {
            assert(t[i] == t.take(i + 2)[i]);
            assert(t[i + 1] == t.take(i + 2)[i + 1]);
            assert(t.take(i) =~= t.take(i + 2).take(i));
            assert(u.take(i) =~= u.take(i + 2).take(i));
            assert(u.take(i) =~= t0.take(i + 1).take(i));
            assert(t0.take(i) =~= t0.take(i + 1).take(i));
        }
    }
}

/// The definition keeps every outer attribute written in front of its
/// name: its attributes are exactly the tokens before the name, a run of
/// `#[...]` pairs, and no `#` is left unread before the name.
pub proof fn lemma_parse_keeps_every_attribute(s: Seq<TokenView>)
    ensures
        parse_spec(s) matches Ok(inp) ==> attrs_end(s, 0, CALL_SITE) matches Ok((t, a)) && {
            &&& inp.attrs == t.take(a)
            &&& a % 2 == 0
            &&& forall|k: int|
                0 <= k < a && k % 2 == 0 ==> #[trigger] is_punct(inp.attrs[k], '#') && is_group(
                    inp.attrs[k + 1],
                    Delimiter::Bracket,
                )
            &&& !punct_there(t, a, '#')
        },
{
    lemma_attrs_end_reads_attributes(s, 0, CALL_SITE);
    if let Ok(inp) = parse_spec(s) {
        let (t, a) = attrs_end(s, 0, CALL_SITE)->Ok_0;
        let t1 = expose(t, a);
        let t2 = expose(t1, a + 1);
        let t3 = expose(t2, a + 2);
        let t4 = expose(t3, a + 3);
        let t5 = expose(t4, a + 4);
        let t6 = expose(t5, a + 5);
        lemma_expose_keeps_prefix(t, a, a);
        lemma_expose_keeps_prefix(t1, a + 1, a);
        lemma_expose_keeps_prefix(t2, a + 2, a);
        lemma_expose_keeps_prefix(t3, a + 3, a);
        lemma_expose_keeps_prefix(t4, a + 4, a);
        lemma_expose_keeps_prefix(t5, a + 5, a);
        assert(inp.attrs == t6.subrange(0, a));
        assert(t6.subrange(0, a) =~= t6.take(a));
        assert forall|k: int| 0 <= k < a && k % 2 == 0 implies #[trigger] is_punct(
            inp.attrs[k],
            '#',
        ) && is_group(inp.attrs[k + 1], Delimiter::Bracket) by {
            assert(inp.attrs[k] == t[k]);
            assert(inp.attrs[k + 1] == t[k + 1]);
        }
    }
}

/// The tokens of a definition `Name(Props) { block } |binding| body`
/// without attributes or invisible groups around its parts.
pub open spec fn definition_tokens(
    name: IdentView,
    props: IdentView,
    pspan: u64,
    block: Seq<TokenView>,
    bspan: u64,
    bar1: TokenView,
    binding: TokenView,
    bar2: TokenView,
    body: Seq<TokenView>,
) -> Seq<TokenView> {
    seq![
        ident_token(name),
        TokenView::Group {
            delimiter: Delimiter::Parenthesis,
            stream: seq![ident_token(props)],
            span: pspan,
        },
        TokenView::Group { delimiter: Delimiter::Brace, stream: block, span: bspan },
        bar1,
        binding,
        bar2,
    ] + body
}

/// A definition whose props block reads as fields (none at all, for an
/// empty block), whose binding is an identifier or a destructuring pattern
/// that reads, and whose body is not empty, is accepted: its name, props
/// struct name, fields, binding and body are the ones written.
pub proof fn lemma_well_formed_definition_is_accepted(
    name: IdentView,
    props: IdentView,
    pspan: u64,
    block: Seq<TokenView>,
    bspan: u64,
    bar1: TokenView,
    binding: TokenView,
    bar2: TokenView,
    body: Seq<TokenView>,
)
    requires
        syn_accepts_ident(name.name),
        syn_accepts_ident(props.name),
        fields_from(block, 0, bspan) is Ok,
        is_punct(bar1, '|'),
        is_punct(bar2, '|'),
        (binding is Ident && syn_accepts_ident(ident_view(binding).name)) || (is_group(
            binding,
            Delimiter::Brace,
        ) && pattern_from(group_stream(binding), 0, span_of(binding)) is Ok),
        body.len() > 0,
    ensures
        parse_spec(definition_tokens(name, props, pspan, block, bspan, bar1, binding, bar2, body))
            == Ok::<InputView, ErrorView>(
            InputView {
                attrs: seq![],
                name,
                props_name: props,
                fields: fields_from(block, 0, bspan)->Ok_0,
                binding: if binding is Ident {
                    BindingView::Whole(ident_view(binding))
                } else {
                    BindingView::Destructured {
                        extracted: pattern_from(group_stream(binding), 0, span_of(binding))->Ok_0.0,
                        rest: pattern_from(group_stream(binding), 0, span_of(binding))->Ok_0.1,
                    }
                },
                body,
            },
        ),
{
    let s = definition_tokens(name, props, pspan, block, bspan, bar1, binding, bar2, body);
    assert(s[0] == ident_token(name));
    assert(s[1] == TokenView::Group {
        delimiter: Delimiter::Parenthesis,
        stream: seq![ident_token(props)],
        span: pspan,
    });
    assert(s[2] == TokenView::Group { delimiter: Delimiter::Brace, stream: block, span: bspan });
    assert(s[3] == bar1);
    assert(s[4] == binding);
    assert(s[5] == bar2);
    assert(expose(s, 0) == s);
    assert(expose(s, 1) == s);
    assert(expose(s, 2) == s);
    assert(expose(s, 3) == s);
    assert(expose(s, 4) == s);
    assert(expose(s, 5) == s);
    assert(attrs_end(s, 0, CALL_SITE) == Ok::<(Seq<TokenView>, int), ErrorView>((s, 0)));
    assert(ident_view(ident_token(name)) == name);
    assert(ident_view(ident_token(props)) == props);
    let ps = seq![ident_token(props)];
    assert(expose(ps, 0) == ps);
    assert(s.subrange(0, 0) =~= Seq::<TokenView>::empty());
    assert(s.subrange(6, s.len() as int) =~= body);
}

} // verus!
