use vstd::prelude::*;

use crate::tokens::{
    Ident, Spacing, Token, TokenView, append_copies, copy_token, is_joint_punct, is_punct,
    push_token, token_is_joint_punct, token_is_punct, view_tokens,
};

verus! {

// ── What a spread is ────────────────────────────────────────────────────

/// A spread `..rest` starts at position `i` of `s`: a `.` glued to a second
/// `.`, which is followed by the identifier `rest`.
pub open spec fn spread_at(s: Seq<TokenView>, i: int, rest: Seq<char>) -> bool {
    &&& 0 <= i
    &&& i + 2 < s.len()
    &&& is_joint_punct(s[i], '.')
    &&& is_punct(s[i + 1], '.')
    &&& s[i + 1] matches TokenView::Punct { spacing: Spacing::Alone, .. }
    &&& s[i + 2] matches TokenView::Ident { name, .. } && name == rest
}

/// How many tokens a spread at `i` replaces: the three of `..rest`, and one
/// more when a comma follows right after.
pub open spec fn spread_len(s: Seq<TokenView>, i: int) -> int {
    if i + 3 < s.len() && is_punct(s[i + 3], ',') {
        4
    } else {
        3
    }
}

/// The rewriting of `s[i..]`: each spread is replaced by `exp` (a comma
/// right after it goes with it), each group is rewritten inside, every
/// other token stays.
pub open spec fn rewrite_from(s: Seq<TokenView>, i: int, rest: Seq<char>, exp: Seq<TokenView>) -> Seq<
    TokenView,
>
    decreases s, s.len() - i,
{
    if i < 0 || i >= s.len() {
        seq![]
    } else if spread_at(s, i, rest) {
        exp + rewrite_from(s, i + spread_len(s, i), rest, exp)
    } else {
        seq![rewrite_tree(s[i], rest, exp)] + rewrite_from(s, i + 1, rest, exp)
    }
}

/// The rewriting of one token: a group keeps its delimiter and span and has
/// its contents rewritten; any other token stays.
pub open spec fn rewrite_tree(t: TokenView, rest: Seq<char>, exp: Seq<TokenView>) -> TokenView
    decreases t, 0int,
{
    match t {
        TokenView::Group { delimiter, stream, span } => TokenView::Group {
            delimiter,
            stream: rewrite_from(stream, 0, rest, exp),
            span,
        },
        _ => t,
    }
}

/// The rewriting of the whole sequence `s`.
pub open spec fn rewrite_spread_spec(s: Seq<TokenView>, rest: Seq<char>, exp: Seq<TokenView>) -> Seq<
    TokenView,
> {
    rewrite_from(s, 0, rest, exp)
}

/// `s[i..]` holds no spread `..rest`, at any depth.
pub open spec fn spread_free_from(s: Seq<TokenView>, i: int, rest: Seq<char>) -> bool
    decreases s, s.len() - i,
{
    if i < 0 || i >= s.len() {
        true
    } else {
        &&& !spread_at(s, i, rest)
        &&& spread_free_tree(s[i], rest)
        &&& spread_free_from(s, i + 1, rest)
    }
}

/// The token `t` holds no spread `..rest`, at any depth.
pub open spec fn spread_free_tree(t: TokenView, rest: Seq<char>) -> bool
    decreases t, 0int,
{
    match t {
        TokenView::Group { stream, .. } => spread_free_from(stream, 0, rest),
        _ => true,
    }
}

pub open spec fn spread_free(s: Seq<TokenView>, rest: Seq<char>) -> bool {
    spread_free_from(s, 0, rest)
}

// ── Rewriting ───────────────────────────────────────────────────────────

fn is_alone_dot(t: &Token) -> (r: bool)
    ensures
        r == (is_punct(t@, '.') && t@ matches TokenView::Punct { spacing: Spacing::Alone, .. }),
{
    match t {
        Token::Punct { ch, spacing, .. } => *ch == '.' && *spacing == Spacing::Alone,
        _ => false,
    }
}

fn is_ident_named(t: &Token, name: &String) -> (r: bool)
    ensures
        r == (t@ matches TokenView::Ident { name: n, .. } && n == name@),
{
    match t {
        Token::Ident { name: n, .. } => *n == *name,
        _ => false,
    }
}

/// Replaces every `..rest_name` token sequence in `body`, at any depth, with
/// `expansion` (a `field: value,` list); a comma right after the spread is
/// dropped with it. Groups keep their delimiter and span.
pub fn rewrite_spread(body: &Vec<Token>, rest_name: &Ident, expansion: &Vec<Token>) -> (r: Vec<Token>)
    ensures
        view_tokens(r@) == rewrite_spread_spec(
            view_tokens(body@),
            rest_name.name@,
            view_tokens(expansion@),
        ),
    decreases body,
{
    let ghost s = view_tokens(body@);
    let ghost rest = rest_name.name@;
    let ghost exp = view_tokens(expansion@);
    let n = body.len();
    let mut out: Vec<Token> = Vec::new();
    let mut i: usize = 0;
    while i < n
        invariant
            n == body@.len(),
            s == view_tokens(body@),
            rest == rest_name.name@,
            exp == view_tokens(expansion@),
            i <= n,
            view_tokens(out@) + rewrite_from(s, i as int, rest, exp) == rewrite_from(s, 0, rest, exp),
        decreases n - i,
    {
        if n >= 3 && i < n - 2 && token_is_joint_punct(&body[i], '.') && is_alone_dot(&body[i + 1])
            && is_ident_named(&body[i + 2], &rest_name.name) {
            assert(spread_at(s, i as int, rest));
            let ghost before = view_tokens(out@);
            append_copies(&mut out, expansion);
            let ghost k = spread_len(s, i as int);
            let ghost i0 = i as int;
            i = i + 3;
            if i < n && token_is_punct(&body[i], ',') {
                i = i + 1;
            }
            assert(i == i0 + k);
            assert(view_tokens(out@) + rewrite_from(s, i as int, rest, exp) =~= before + (exp
                + rewrite_from(s, i as int, rest, exp)));
        } else {
            assert(!spread_at(s, i as int, rest));
            assert(decreases_to!(body => body@[i as int]));
            let t = match &body[i] {
                Token::Group { delimiter, stream, span } => {
                    let inner = rewrite_spread(stream, rest_name, expansion);
                    Token::Group { delimiter: *delimiter, stream: inner, span: *span }
                },
                other => copy_token(other),
            };
            assert(t@ == rewrite_tree(s[i as int], rest, exp));
            let ghost before = view_tokens(out@);
            push_token(&mut out, t);
            assert(view_tokens(out@) + rewrite_from(s, i + 1, rest, exp) =~= before + (seq![
                rewrite_tree(s[i as int], rest, exp),
            ] + rewrite_from(s, i + 1, rest, exp)));
            i = i + 1;
        }
    }
    out
}

// ── Laws ────────────────────────────────────────────────────────────────

/// A body without any `..rest` spread, at any depth, comes out of the
/// rewriting unchanged, whatever the expansion.
pub proof fn lemma_rewrite_without_spread_is_identity(
    s: Seq<TokenView>,
    rest: Seq<char>,
    exp: Seq<TokenView>,
)
    requires
        spread_free(s, rest),
    ensures
        rewrite_spread_spec(s, rest, exp) == s,
{
    lemma_free_from_identity(s, 0, rest, exp);
    assert(s.subrange(0, s.len() as int) =~= s);
}

proof fn lemma_free_from_identity(s: Seq<TokenView>, i: int, rest: Seq<char>, exp: Seq<TokenView>)
    requires
        0 <= i <= s.len(),
        spread_free_from(s, i, rest),
    ensures
        rewrite_from(s, i, rest, exp) == s.subrange(i, s.len() as int),
    decreases s, s.len() - i,
{
    if i < s.len() {
        lemma_free_tree_identity(s[i], rest, exp);
        lemma_free_from_identity(s, i + 1, rest, exp);
        assert(s.subrange(i, s.len() as int) =~= seq![s[i]] + s.subrange(i + 1, s.len() as int));
    } else {
        assert(s.subrange(i, s.len() as int) =~= Seq::<TokenView>::empty());
    }
}

proof fn lemma_free_tree_identity(t: TokenView, rest: Seq<char>, exp: Seq<TokenView>)
    requires
        spread_free_tree(t, rest),
    ensures
        rewrite_tree(t, rest, exp) == t,
    decreases t, 0int,
{
    if let TokenView::Group { delimiter, stream, span } = t {
        lemma_free_from_identity(stream, 0, rest, exp);
        assert(stream.subrange(0, stream.len() as int) =~= stream);
    }
}

/// `s` holds no spread `..rest` starting at any of its positions from `i`
/// on, and none inside any of those tokens.
pub open spec fn spread_free_q(s: Seq<TokenView>, i: int, rest: Seq<char>) -> bool {
    forall|k: int| i <= k < s.len() ==> !spread_at(s, k, rest) && spread_free_tree(#[trigger] s[k], rest)
}

/// The recursive and the quantified statement that no spread is left agree.
pub proof fn lemma_free_q_equiv(s: Seq<TokenView>, i: int, rest: Seq<char>)
    requires
        0 <= i,
    ensures
        spread_free_from(s, i, rest) <==> spread_free_q(s, i, rest),
    decreases s.len() - i,
{
    if i < s.len() {
        lemma_free_q_equiv(s, i + 1, rest);
        if spread_free_q(s, i, rest) {
            assert(spread_free_tree(s[i], rest));
            assert(spread_free_q(s, i + 1, rest));
        }
        if spread_free_from(s, i, rest) {
            assert forall|k: int| i <= k < s.len() implies !spread_at(s, k, rest)
                && spread_free_tree(#[trigger] s[k], rest) by {
                if k > i {
                    assert(spread_free_q(s, i + 1, rest));
                }
            }
        }
    }
}

/// The expansion is safe to splice: not empty; it begins with neither a
/// `.` nor the identifier `rest`; no `.` at its top level is glued to the
/// next token; it holds no spread `..rest` itself.
pub open spec fn splice_safe(exp: Seq<TokenView>, rest: Seq<char>) -> bool {
    &&& exp.len() > 0
    &&& !is_punct(exp[0], '.')
    &&& !(exp[0] matches TokenView::Ident { name, .. } && name == rest)
    &&& forall|k: int| 0 <= k < exp.len() ==> !is_joint_punct(#[trigger] exp[k], '.')
    &&& spread_free(exp, rest)
}

proof fn lemma_rewrite_from_head(s: Seq<TokenView>, i: int, rest: Seq<char>, exp: Seq<TokenView>)
    requires
        0 <= i < s.len(),
        exp.len() > 0,
    ensures
        spread_at(s, i, rest) ==> rewrite_from(s, i, rest, exp)[0] == exp[0],
        !spread_at(s, i, rest) ==> rewrite_from(s, i, rest, exp)[0] == rewrite_tree(s[i], rest, exp)
            && rewrite_from(s, i, rest, exp).drop_first() =~= rewrite_from(s, i + 1, rest, exp),
{
}

proof fn lemma_rewrite_from_free(s: Seq<TokenView>, i: int, rest: Seq<char>, exp: Seq<TokenView>)
    requires
        0 <= i,
        splice_safe(exp, rest),
    ensures
        spread_free_q(rewrite_from(s, i, rest, exp), 0, rest),
    decreases s, s.len() - i,
{
    lemma_free_q_equiv(exp, 0, rest);
    if i < s.len() {
        if spread_at(s, i, rest) {
            let j = i + spread_len(s, i);
            lemma_rewrite_from_free(s, j, rest, exp);
            let tail = rewrite_from(s, j, rest, exp);
            let out = exp + tail;
            assert(out == rewrite_from(s, i, rest, exp));
            assert forall|k: int| 0 <= k < out.len() implies !spread_at(out, k, rest)
                && spread_free_tree(#[trigger] out[k], rest) by {
                if k < exp.len() {
                    assert(out[k] == exp[k]);
                    assert(!is_joint_punct(exp[k], '.'));
                } else {
                    assert(out[k] == tail[k - exp.len()]);
                    if spread_at(out, k, rest) {
                        assert(tail[k - exp.len() + 1] == out[k + 1]);
                        assert(tail[k - exp.len() + 2] == out[k + 2]);
                        assert(spread_at(tail, k - exp.len(), rest));
                    }
                }
            }
        } else {
            lemma_rewrite_from_free(s, i + 1, rest, exp);
            lemma_rewrite_tree_free(s[i], rest, exp);
            let t = rewrite_tree(s[i], rest, exp);
            let tail = rewrite_from(s, i + 1, rest, exp);
            let out = seq![t] + tail;
            assert(out == rewrite_from(s, i, rest, exp));
            assert forall|k: int| 0 <= k < out.len() implies !spread_at(out, k, rest)
                && spread_free_tree(#[trigger] out[k], rest) by {
                if k == 0 {
                    assert(out[0] == t);
                    if spread_at(out, 0, rest) {
                        // `t` is a joint `.`, so it is `s[i]` itself.
                        assert(t == s[i]);
                        assert(out[1] == tail[0]);
                        assert(i + 1 < s.len());
                        lemma_rewrite_from_head(s, i + 1, rest, exp);
                        assert(!spread_at(s, i + 1, rest));
                        assert(tail[0] == s[i + 1]);
                        assert(out[2] == tail[1]);
                        assert(i + 2 < s.len());
                        lemma_rewrite_from_head(s, i + 2, rest, exp);
                        assert(tail[1] == rewrite_from(s, i + 2, rest, exp)[0]);
                        assert(!spread_at(s, i + 2, rest));
                        assert(tail[1] == s[i + 2]);
                        assert(spread_at(s, i, rest));
                    }
                } else {
                    assert(out[k] == tail[k - 1]);
                    if spread_at(out, k, rest) {
                        assert(tail[k] == out[k + 1]);
                        assert(tail[k + 1] == out[k + 2]);
                        assert(spread_at(tail, k - 1, rest));
                    }
                }
            }
        }
    }
}

proof fn lemma_rewrite_tree_free(t: TokenView, rest: Seq<char>, exp: Seq<TokenView>)
    requires
        splice_safe(exp, rest),
    ensures
        spread_free_tree(rewrite_tree(t, rest, exp), rest),
    decreases t, 0int,
{
    if let TokenView::Group { delimiter, stream, span } = t {
        lemma_rewrite_from_free(stream, 0, rest, exp);
        lemma_free_q_equiv(rewrite_from(stream, 0, rest, exp), 0, rest);
    }
}

/// When the expansion is safe to splice, no spread `..rest` is left in the
/// rewritten body, at any depth: every one of them was replaced.
pub proof fn lemma_rewrite_leaves_no_spread(s: Seq<TokenView>, rest: Seq<char>, exp: Seq<TokenView>)
    requires
        splice_safe(exp, rest),
    ensures
        spread_free(rewrite_spread_spec(s, rest, exp), rest),
{
    lemma_rewrite_from_free(s, 0, rest, exp);
    lemma_free_q_equiv(rewrite_spread_spec(s, rest, exp), 0, rest);
}

} // verus!
