use vstd::prelude::*;
use vstd::string::*;

verus! {

/// The span handle that stands for the macro's call site. Every token that
/// the expansion creates (rather than copies from its input) carries it.
pub const CALL_SITE: u64 = 0;

/// Whether a punctuation character is glued to the one that follows it.
#[derive(Clone, Copy, Debug, PartialEq, Eq, Structural)]
pub enum Spacing {
    Alone,
    Joint,
}

/// The delimiters of a token group; `Invisible` is a group without
/// delimiters, as macro expansion produces around interpolated fragments.
#[derive(Clone, Copy, Debug, PartialEq, Eq, Structural)]
pub enum Delimiter {
    Parenthesis,
    Brace,
    Bracket,
    Invisible,
}

/// One token tree. Every token carries a span handle: an opaque number that
/// the caller maps to a source location; the library only copies it.
#[derive(Debug)]
pub enum Token {
    /// An identifier, raw identifiers written with their `r#` prefix.
    Ident { name: String, span: u64 },
    /// A single punctuation character.
    Punct { ch: char, spacing: Spacing, span: u64 },
    /// A literal, as it is written in the source.
    Literal { text: String, span: u64 },
    /// A string literal given by its value; it is written out (with the
    /// escapes that the value needs) when the token is handed back.
    Str { value: String, span: u64 },
    /// A delimited group of token trees.
    Group { delimiter: Delimiter, stream: Vec<Token>, span: u64 },
}

/// The mathematical value of a [`Token`].
pub enum TokenView {
    Ident { name: Seq<char>, span: u64 },
    Punct { ch: char, spacing: Spacing, span: u64 },
    Literal { text: Seq<char>, span: u64 },
    Str { value: Seq<char>, span: u64 },
    Group { delimiter: Delimiter, stream: Seq<TokenView>, span: u64 },
}

pub open spec fn view_token(t: Token) -> TokenView
    decreases t, 1nat,
{
    match t {
        Token::Ident { name, span } => TokenView::Ident { name: name@, span },
        Token::Punct { ch, spacing, span } => TokenView::Punct { ch, spacing, span },
        Token::Literal { text, span } => TokenView::Literal { text: text@, span },
        Token::Str { value, span } => TokenView::Str { value: value@, span },
        Token::Group { delimiter, stream, span } => TokenView::Group {
            delimiter,
            stream: view_tokens(stream@),
            span,
        },
    }
}

pub open spec fn view_tokens(s: Seq<Token>) -> Seq<TokenView>
    decreases s, 0nat,
{
    Seq::new(
        s.len(),
        |i: int|
            if 0 <= i < s.len() {
                view_token(s[i])
            } else {
                TokenView::Punct { ch: ' ', spacing: Spacing::Alone, span: CALL_SITE }
            },
    )
}

impl View for Token {
    type V = TokenView;

    open spec fn view(&self) -> TokenView {
        view_token(*self)
    }
}

/// An identifier together with its span.
#[derive(Debug)]
pub struct Ident {
    pub name: String,
    pub span: u64,
}

pub struct IdentView {
    pub name: Seq<char>,
    pub span: u64,
}

impl View for Ident {
    type V = IdentView;

    open spec fn view(&self) -> IdentView {
        IdentView { name: self.name@, span: self.span }
    }
}

pub open spec fn view_idents(s: Seq<Ident>) -> Seq<IdentView> {
    s.map_values(|i: Ident| i@)
}

// ── Token shapes used by the grammar and the expansion ──────────────────

pub open spec fn is_punct(t: TokenView, c: char) -> bool {
    t matches TokenView::Punct { ch, .. } && ch == c
}

pub open spec fn is_joint_punct(t: TokenView, c: char) -> bool {
    t matches TokenView::Punct { ch, spacing, .. } && ch == c && spacing == Spacing::Joint
}

pub open spec fn is_group(t: TokenView, d: Delimiter) -> bool {
    t matches TokenView::Group { delimiter, .. } && delimiter == d
}

pub open spec fn group_stream(t: TokenView) -> Seq<TokenView> {
    match t {
        TokenView::Group { stream, .. } => stream,
        _ => seq![],
    }
}

pub open spec fn span_of(t: TokenView) -> u64 {
    match t {
        TokenView::Ident { span, .. } => span,
        TokenView::Punct { span, .. } => span,
        TokenView::Literal { span, .. } => span,
        TokenView::Str { span, .. } => span,
        TokenView::Group { span, .. } => span,
    }
}

/// An identifier token created by the expansion.
pub open spec fn call_ident(name: Seq<char>) -> TokenView {
    TokenView::Ident { name, span: CALL_SITE }
}

/// An identifier token with the name and span of `id`.
pub open spec fn ident_token(id: IdentView) -> TokenView {
    TokenView::Ident { name: id.name, span: id.span }
}

pub open spec fn alone(c: char) -> TokenView {
    TokenView::Punct { ch: c, spacing: Spacing::Alone, span: CALL_SITE }
}

pub open spec fn joint(c: char) -> TokenView {
    TokenView::Punct { ch: c, spacing: Spacing::Joint, span: CALL_SITE }
}

pub open spec fn call_group(d: Delimiter, s: Seq<TokenView>) -> TokenView {
    TokenView::Group { delimiter: d, stream: s, span: CALL_SITE }
}

// ── Executable helpers ──────────────────────────────────────────────────

pub fn copy_spacing(s: Spacing) -> (r: Spacing)
    ensures
        r == s,
{
    match s {
        Spacing::Alone => Spacing::Alone,
        Spacing::Joint => Spacing::Joint,
    }
}

pub fn copy_delimiter(d: Delimiter) -> (r: Delimiter)
    ensures
        r == d,
{
    match d {
        Delimiter::Parenthesis => Delimiter::Parenthesis,
        Delimiter::Brace => Delimiter::Brace,
        Delimiter::Bracket => Delimiter::Bracket,
        Delimiter::Invisible => Delimiter::Invisible,
    }
}

/// A deep copy of a token.
pub fn copy_token(t: &Token) -> (r: Token)
    ensures
        r@ == t@,
    decreases t,
{
    match t {
        Token::Ident { name, span } => Token::Ident { name: name.clone(), span: *span },
        Token::Punct { ch, spacing, span } => Token::Punct {
            ch: *ch,
            spacing: copy_spacing(*spacing),
            span: *span,
        },
        Token::Literal { text, span } => Token::Literal { text: text.clone(), span: *span },
        Token::Str { value, span } => Token::Str { value: value.clone(), span: *span },
        Token::Group { delimiter, stream, span } => {
            let inner = copy_tokens(stream);
            Token::Group { delimiter: copy_delimiter(*delimiter), stream: inner, span: *span }
        },
    }
}

/// A deep copy of the tokens `v[lo..hi]`.
pub fn copy_range(v: &Vec<Token>, lo: usize, hi: usize) -> (r: Vec<Token>)
    requires
        lo <= hi <= v@.len(),
    ensures
        view_tokens(r@) == view_tokens(v@).subrange(lo as int, hi as int),
    decreases v, 0nat,
{
    let mut out: Vec<Token> = Vec::new();
    let mut i: usize = lo;
    while i < hi
        invariant
            lo <= i <= hi <= v@.len(),
            out@.len() == i - lo,
            forall|j: int| 0 <= j < i - lo ==> view_token(#[trigger] out@[j]) == view_token(v@[lo + j]),
        decreases hi - i,
    {
        assert(decreases_to!(v => v@[i as int]));
        let t = copy_token(&v[i]);
        out.push(t);
        i += 1;
    }
    assert(view_tokens(out@) =~= view_tokens(v@).subrange(lo as int, hi as int));
    out
}

/// A deep copy of a token sequence.
pub fn copy_tokens(v: &Vec<Token>) -> (r: Vec<Token>)
    ensures
        view_tokens(r@) == view_tokens(v@),
    decreases v, 1nat,
{
    let r = copy_range(v, 0, v.len());
    assert(view_tokens(v@).subrange(0, v@.len() as int) =~= view_tokens(v@));
    r
}

/// Appends deep copies of `src` to `dst`.
pub fn append_copies(dst: &mut Vec<Token>, src: &Vec<Token>)
    ensures
        view_tokens(final(dst)@) == view_tokens(old(dst)@) + view_tokens(src@),
{
    let mut i: usize = 0;
    let ghost start = view_tokens(dst@);
    while i < src.len()
        invariant
            i <= src@.len(),
            view_tokens(dst@) == start + view_tokens(src@).subrange(0, i as int),
        decreases src.len() - i,
    {
        let t = copy_token(&src[i]);
        let ghost before = dst@;
        dst.push(t);
        assert(view_tokens(dst@) =~= view_tokens(before) + seq![view_token(src@[i as int])]);
        assert(view_tokens(src@).subrange(0, i + 1) =~= view_tokens(src@).subrange(0, i as int)
            + seq![view_token(src@[i as int])]);
        i += 1;
    }
    assert(view_tokens(src@).subrange(0, src@.len() as int) =~= view_tokens(src@));
}

/// Moves the tokens of `src` to the end of `dst`.
pub fn push_all(dst: &mut Vec<Token>, src: Vec<Token>)
    ensures
        view_tokens(final(dst)@) == view_tokens(old(dst)@) + view_tokens(src@),
{
    let mut src = src;
    let ghost moved = src@;
    dst.append(&mut src);
    assert(view_tokens(dst@) =~= view_tokens(old(dst)@) + view_tokens(moved));
}

/// Appends `t` to `dst`.
pub fn push_token(dst: &mut Vec<Token>, t: Token)
    ensures
        view_tokens(final(dst)@) == view_tokens(old(dst)@).push(t@),
{
    dst.push(t);
    assert(view_tokens(dst@) =~= view_tokens(old(dst)@).push(t@));
}

pub fn copy_ident(id: &Ident) -> (r: Ident)
    ensures
        r@ == id@,
{
    Ident { name: id.name.clone(), span: id.span }
}

/// The identifier `id` as a token.
pub fn ident_to_token(id: &Ident) -> (r: Token)
    ensures
        r@ == ident_token(id@),
{
    Token::Ident { name: id.name.clone(), span: id.span }
}

/// A call-site identifier token.
pub fn new_ident(name: &str) -> (r: Token)
    ensures
        r@ == call_ident(name@),
{
    Token::Ident { name: String::from_str(name), span: CALL_SITE }
}

pub fn new_alone(c: char) -> (r: Token)
    ensures
        r@ == alone(c),
{
    Token::Punct { ch: c, spacing: Spacing::Alone, span: CALL_SITE }
}

pub fn new_joint(c: char) -> (r: Token)
    ensures
        r@ == joint(c),
{
    Token::Punct { ch: c, spacing: Spacing::Joint, span: CALL_SITE }
}

pub fn new_group(d: Delimiter, stream: Vec<Token>) -> (r: Token)
    ensures
        r@ == call_group(d, view_tokens(stream@)),
{
    Token::Group { delimiter: d, stream, span: CALL_SITE }
}

/// Whether `t` is the punctuation character `c`, whatever its spacing.
pub fn token_is_punct(t: &Token, c: char) -> (r: bool)
    ensures
        r == is_punct(t@, c),
{
    match t {
        Token::Punct { ch, .. } => *ch == c,
        _ => false,
    }
}

/// Whether `t` is the punctuation character `c` glued to the next one.
pub fn token_is_joint_punct(t: &Token, c: char) -> (r: bool)
    ensures
        r == is_joint_punct(t@, c),
{
    match t {
        Token::Punct { ch, spacing, .. } => *ch == c && *spacing == Spacing::Joint,
        _ => false,
    }
}

pub fn token_is_group(t: &Token, d: Delimiter) -> (r: bool)
    ensures
        r == is_group(t@, d),
{
    match t {
        Token::Group { delimiter, .. } => *delimiter == d,
        _ => false,
    }
}

pub fn token_span(t: &Token) -> (r: u64)
    ensures
        r == span_of(t@),
{
    match t {
        Token::Ident { span, .. } => *span,
        Token::Punct { span, .. } => *span,
        Token::Literal { span, .. } => *span,
        Token::Str { span, .. } => *span,
        Token::Group { span, .. } => *span,
    }
}

// ── Source text of a token sequence ─────────────────────────────────────

pub open spec fn open_text(d: Delimiter) -> Seq<char> {
    match d {
        Delimiter::Parenthesis => seq!['('],
        Delimiter::Brace => seq!['{'],
        Delimiter::Bracket => seq!['['],
        Delimiter::Invisible => seq![],
    }
}

pub open spec fn close_text(d: Delimiter) -> Seq<char> {
    match d {
        Delimiter::Parenthesis => seq![')'],
        Delimiter::Brace => seq!['}'],
        Delimiter::Bracket => seq![']'],
        Delimiter::Invisible => seq![],
    }
}

/// What follows a token in source text: nothing after a joint punctuation
/// character, one space otherwise.
pub open spec fn separator(t: TokenView) -> Seq<char> {
    if t matches TokenView::Punct { spacing: Spacing::Joint, .. } {
        seq![]
    } else {
        seq![' ']
    }
}

/// The source text of one token: an identifier or literal as written, a
/// string value between double quotes, a punctuation character, a group's
/// delimiters around the text of its contents (an invisible group adds none).
pub open spec fn token_text(t: TokenView) -> Seq<char>
    decreases t, 1nat,
{
    match t {
        TokenView::Ident { name, .. } => name,
        TokenView::Punct { ch, .. } => seq![ch],
        TokenView::Literal { text, .. } => text,
        TokenView::Str { value, .. } => seq!['"'] + value + seq!['"'],
        TokenView::Group { delimiter, stream, .. } => open_text(delimiter) + tokens_text(stream)
            + close_text(delimiter),
    }
}

/// The source text of a token sequence: the tokens' texts, each followed by
/// its separator except the last.
pub open spec fn tokens_text(s: Seq<TokenView>) -> Seq<char>
    decreases s, 0nat,
{
    if s.len() == 0 {
        seq![]
    } else if s.len() == 1 {
        token_text(s[0])
    } else {
        token_text(s[0]) + separator(s[0]) + tokens_text(s.drop_first())
    }
}

/// Appends the characters of `s` to `out`.
pub fn push_str_chars(out: &mut Vec<char>, s: &String)
    ensures
        final(out)@ == old(out)@ + s@,
{
    let n = s.as_str().unicode_len();
    let mut i: usize = 0;
    while i < n
        invariant
            n == s@.len(),
            i <= n,
            out@ == old(out)@ + s@.subrange(0, i as int),
        decreases n - i,
    {
        let c = s.as_str().get_char(i);
        out.push(c);
        assert(s@.subrange(0, i + 1) =~= s@.subrange(0, i as int).push(c));
        i += 1;
    }
    assert(s@.subrange(0, n as int) =~= s@);
}

fn push_delim(out: &mut Vec<char>, d: Delimiter, open: bool)
    ensures
        final(out)@ == old(out)@ + (if open { open_text(d) } else { close_text(d) }),
{
    let ghost before = out@;
    match d {
        Delimiter::Parenthesis => out.push(if open { '(' } else { ')' }),
        Delimiter::Brace => out.push(if open { '{' } else { '}' }),
        Delimiter::Bracket => out.push(if open { '[' } else { ']' }),
        Delimiter::Invisible => {},
    }
    assert(out@ =~= before + (if open { open_text(d) } else { close_text(d) }));
}

/// Appends the source text of `t` to `out`.
pub fn push_token_text(out: &mut Vec<char>, t: &Token)
    ensures
        final(out)@ == old(out)@ + token_text(t@),
    decreases t,
{
    match t {
        Token::Ident { name, .. } => push_str_chars(out, name),
        Token::Punct { ch, .. } => {
            out.push(*ch);
        },
        Token::Literal { text, .. } => push_str_chars(out, text),
        Token::Str { value, .. } => {
            out.push('"');
            push_str_chars(out, value);
            out.push('"');
            assert(out@ =~= old(out)@ + token_text(t@));
        },
        Token::Group { delimiter, stream, .. } => {
            push_delim(out, *delimiter, true);
            push_range_text(out, stream, 0, stream.len());
            assert(view_tokens(stream@).subrange(0, stream@.len() as int) =~= view_tokens(stream@));
            push_delim(out, *delimiter, false);
            assert(out@ =~= old(out)@ + token_text(t@));
        },
    }
}

/// Appends the source text of `v[lo..hi]` to `out`.
pub fn push_range_text(out: &mut Vec<char>, v: &Vec<Token>, lo: usize, hi: usize)
    requires
        lo <= hi <= v@.len(),
    ensures
        final(out)@ == old(out)@ + tokens_text(view_tokens(v@).subrange(lo as int, hi as int)),
    decreases v, 0nat,
{
    let ghost s = view_tokens(v@);
    let mut i: usize = lo;
    while i < hi
        invariant
            lo <= i <= hi <= v@.len(),
            s == view_tokens(v@),
            old(out)@ + tokens_text(s.subrange(lo as int, hi as int)) == out@ + tokens_text(
                s.subrange(i as int, hi as int),
            ),
        decreases hi - i,
    {
        assert(decreases_to!(v => v@[i as int]));
        let ghost before = out@;
        push_token_text(out, &v[i]);
        let ghost rest = s.subrange(i as int, hi as int);
        assert(rest[0] == view_token(v@[i as int]));
        assert(rest.drop_first() =~= s.subrange(i + 1, hi as int));
        if i + 1 < hi {
            let joint_before = token_is_joint_punct_any(&v[i]);
            if !joint_before {
                out.push(' ');
            }
            assert(out@ =~= before + token_text(rest[0]) + separator(rest[0]));
        } else {
            assert(s.subrange(i + 1, hi as int).len() == 0);
        }
        i += 1;
    }
}

fn token_is_joint_punct_any(t: &Token) -> (r: bool)
    ensures
        r == (t@ matches TokenView::Punct { spacing: Spacing::Joint, .. }),
{
    match t {
        Token::Punct { spacing, .. } => *spacing == Spacing::Joint,
        _ => false,
    }
}

/// The source text of `v[lo..hi]`.
pub fn range_text(v: &Vec<Token>, lo: usize, hi: usize) -> (r: Vec<char>)
    requires
        lo <= hi <= v@.len(),
    ensures
        r@ == tokens_text(view_tokens(v@).subrange(lo as int, hi as int)),
{
    let mut out: Vec<char> = Vec::new();
    push_range_text(&mut out, v, lo, hi);
    assert(out@ =~= tokens_text(view_tokens(v@).subrange(lo as int, hi as int)));
    out
}

// ── Invisible groups ────────────────────────────────────────────────────

/// The number of token trees in `t`, counting a group and everything in it.
pub open spec fn weight(t: TokenView) -> nat
    decreases t, 1nat,
{
    match t {
        TokenView::Group { stream, .. } => 1 + weight_seq(stream),
        _ => 1,
    }
}

pub open spec fn weight_seq(s: Seq<TokenView>) -> nat
    decreases s, 0nat,
{
    if s.len() == 0 {
        0
    } else {
        weight(s[0]) + weight_seq(s.drop_first())
    }
}

/// The weight of `s[i..]`.
pub open spec fn rest_weight(s: Seq<TokenView>, i: int) -> nat {
    if 0 <= i <= s.len() {
        weight_seq(s.skip(i))
    } else {
        0
    }
}

pub proof fn lemma_weight_concat(a: Seq<TokenView>, b: Seq<TokenView>)
    ensures
        weight_seq(a + b) == weight_seq(a) + weight_seq(b),
    decreases a.len(),
{
    if a.len() == 0 {
        assert(a + b =~= b);
    } else {
        lemma_weight_concat(a.drop_first(), b);
        assert((a + b).drop_first() =~= a.drop_first() + b);
        assert((a + b)[0] == a[0]);
    }
}

/// `s[i..]` weighs `s[i..j]` and `s[j..]` together.
pub proof fn lemma_weight_split(s: Seq<TokenView>, i: int, j: int)
    requires
        0 <= i <= j <= s.len(),
    ensures
        rest_weight(s, i) == weight_seq(s.subrange(i, j)) + rest_weight(s, j),
{
    assert(s.skip(i) =~= s.subrange(i, j) + s.skip(j));
    lemma_weight_concat(s.subrange(i, j), s.skip(j));
}

/// Moving forward over at least one token lowers the weight of the rest.
pub proof fn lemma_rest_step(s: Seq<TokenView>, i: int, j: int)
    requires
        0 <= i < j <= s.len(),
    ensures
        rest_weight(s, j) < rest_weight(s, i),
{
    lemma_weight_split(s, i, j);
    let m = s.subrange(i, j);
    assert(weight_seq(m) >= weight(m[0]));
    assert(weight(m[0]) >= 1);
}

/// `s` with the invisible group at `i` (if there is one) replaced by its
/// contents, again and again while an invisible group stands at `i`: what a
/// reader that looks through invisible groups sees at `i`.
pub open spec fn expose(s: Seq<TokenView>, i: int) -> Seq<TokenView>
    decreases weight_seq(s),
{
    if 0 <= i < s.len() && is_group(s[i], Delimiter::Invisible) {
        proof {
            lemma_expose_step(s, i);
        }
        expose(s.take(i) + group_stream(s[i]) + s.skip(i + 1), i)
    } else {
        s
    }
}

/// Entering one invisible group at `i` lowers the weight by one and keeps `s[..i]`.
pub proof fn lemma_expose_step(s: Seq<TokenView>, i: int)
    requires
        0 <= i < s.len(),
        is_group(s[i], Delimiter::Invisible),
    ensures
        weight_seq(s.take(i) + group_stream(s[i]) + s.skip(i + 1)) + 1 == weight_seq(s),
        (s.take(i) + group_stream(s[i]) + s.skip(i + 1)).take(i) == s.take(i),
        rest_weight(s.take(i) + group_stream(s[i]) + s.skip(i + 1), i) + 1 == rest_weight(s, i),
{
    let g = group_stream(s[i]);
    let a = s.take(i);
    let b = s.skip(i + 1);
    let one = seq![s[i]];
    let n = a + g + b;
    assert(weight(s[i]) == 1 + weight_seq(g));
    assert(one.drop_first() =~= Seq::<TokenView>::empty());
    assert(weight_seq(Seq::<TokenView>::empty()) == 0);
    assert(one[0] == s[i]);
    assert(weight_seq(one) == weight(s[i]));
    lemma_weight_concat(a, g);
    lemma_weight_concat(a + g, b);
    assert(s =~= a + (one + b));
    lemma_weight_concat(a, one + b);
    lemma_weight_concat(one, b);
    assert(n.take(i) =~= a);
    assert(n.skip(i) =~= g + b);
    lemma_weight_concat(g, b);
    assert(s.skip(i) =~= one + b);
}

/// Exposing at `i` keeps `s[..i]`, never adds weight from `i` on, and leaves
/// no invisible group at `i`.
pub proof fn lemma_expose(s: Seq<TokenView>, i: int)
    requires
        0 <= i,
    ensures
        i <= s.len() ==> expose(s, i).take(i) == s.take(i),
        i <= s.len() ==> i <= expose(s, i).len(),
        rest_weight(expose(s, i), i) <= rest_weight(s, i),
        i < expose(s, i).len() ==> !is_group(expose(s, i)[i], Delimiter::Invisible),
        i < expose(s, i).len() ==> i < s.len(),
        i >= s.len() ==> expose(s, i) == s,
        !(i < s.len() && is_group(s[i], Delimiter::Invisible)) ==> expose(s, i) == s,
    decreases weight_seq(s),
{
    if 0 <= i < s.len() && is_group(s[i], Delimiter::Invisible) {
        let n = s.take(i) + group_stream(s[i]) + s.skip(i + 1);
        lemma_expose_step(s, i);
        lemma_expose(n, i);
    }
}

/// Exposing at `p` never adds weight to the rest from an earlier `i`.
pub proof fn lemma_expose_rest(s: Seq<TokenView>, i: int, p: int)
    requires
        0 <= i <= p,
    ensures
        rest_weight(expose(s, p), i) <= rest_weight(s, i),
{
    lemma_expose(s, p);
    let t = expose(s, p);
    if p <= s.len() {
        lemma_weight_split(s, i, p);
        lemma_weight_split(t, i, p);
        assert(t.subrange(i, p) =~= s.subrange(i, p)) by {
            assert(t.take(p) == s.take(p));
            assert forall|k: int| 0 <= k < p - i implies t.subrange(i, p)[k] == s.subrange(i, p)[k] by {
                assert(t.take(p)[i + k] == s.take(p)[i + k]);
            }
        }
    }
}

/// Replaces `v` by what a reader that looks through invisible groups sees
/// at `i`.
pub fn expose_at(v: &mut Vec<Token>, i: usize)
    ensures
        view_tokens(final(v)@) == expose(view_tokens(old(v)@), i as int),
{
    while i < v.len() && token_is_group(&v[i], Delimiter::Invisible)
        invariant
            expose(view_tokens(v@), i as int) == expose(view_tokens(old(v)@), i as int),
        decreases weight_seq(view_tokens(v@)),
    {
        let ghost s = view_tokens(v@);
        let inner = match &v[i] {
            Token::Group { stream, .. } => copy_tokens(stream),
            _ => Vec::new(),
        };
        assert(view_tokens(inner@) == group_stream(s[i as int]));
        let n = v.len();
        let mut nv = copy_range(v, 0, i);
        push_all(&mut nv, inner);
        push_all(&mut nv, copy_range(v, i + 1, n));
        assert(s.subrange(0, i as int) =~= s.take(i as int));
        assert(s.subrange(i + 1, n as int) =~= s.skip(i + 1));
        proof {
            lemma_expose_step(s, i as int);
        }
        *v = nv;
    }
}

} // verus!
