use vstd::prelude::*;

use crate::item::transform_item;
use crate::rewrite::{
    is_brace_group, is_directive, is_punct, lemma_prepend_assoc, prepend, rewrite, rewrite_from,
    unwrap_call, Mode, TransformError,
};
use crate::token::{Delimiter, Spacing, TokenV};

verus! {

/// `p` holds at every position `j >= i` of `s`, and at every position of every
/// group nested in those tokens, at any depth.
pub open spec fn everywhere(s: Seq<TokenV>, i: int, p: spec_fn(Seq<TokenV>, int) -> bool) -> bool
    decreases s, s.len() - i,
{
    if i < 0 || i >= s.len() {
        true
    } else {
        &&& p(s, i)
        &&& (s[i] is Group ==> everywhere(s[i]->Group_1, 0, p))
        &&& everywhere(s, i + 1, p)
    }
}

/// The position holds no `?`.
pub open spec fn not_request() -> spec_fn(Seq<TokenV>, int) -> bool {
    |q: Seq<TokenV>, j: int| !is_punct(q[j], '?')
}

/// A `#` at the position is not directly followed by the directive group.
pub open spec fn not_directive() -> spec_fn(Seq<TokenV>, int) -> bool {
    |q: Seq<TokenV>, j: int| is_punct(q[j], '#') && j + 1 < q.len() ==> !is_directive(q[j + 1])
}

/// A `#` at the position is not the last token of its sequence.
pub open spec fn not_dangling() -> spec_fn(Seq<TokenV>, int) -> bool {
    |q: Seq<TokenV>, j: int| is_punct(q[j], '#') ==> j + 1 < q.len()
}

/// No `?` anywhere in `s`, at any depth.
pub open spec fn no_unwrap_requests(s: Seq<TokenV>) -> bool {
    everywhere(s, 0, not_request())
}

/// No `#` anywhere in `s`, at any depth, is directly followed by the directive
/// group.
pub open spec fn no_directives(s: Seq<TokenV>) -> bool {
    everywhere(s, 0, not_directive())
}

/// No `#` anywhere in `s`, at any depth, stands last in its sequence.
pub open spec fn no_dangling_marker(s: Seq<TokenV>) -> bool {
    everywhere(s, 0, not_dangling())
}

proof fn lemma_plain_from(s: Seq<TokenV>, i: int)
    requires
        0 <= i <= s.len(),
        everywhere(s, i, not_request()),
        everywhere(s, i, not_directive()),
        everywhere(s, i, not_dangling()),
    ensures
        rewrite_from(s, i, Mode::Active) == Ok::<Seq<TokenV>, TransformError>(
            s.subrange(i, s.len() as int),
        ),
    decreases s, s.len() - i,
{
    if i < s.len() {
        lemma_plain_from(s, i + 1);
        let t = s[i];
        if let TokenV::Group(d, c) = t {
            lemma_plain_from(c, 0);
            assert(c.subrange(0, c.len() as int) =~= c);
        }
        assert(s.subrange(i, s.len() as int) =~= seq![t] + s.subrange(i + 1, s.len() as int));
    } else {
        assert(s.subrange(i, s.len() as int) =~= Seq::<TokenV>::empty());
    }
}

/// What `everywhere` says of one position `k` at or after `i`.
proof fn lemma_everywhere_at(
    s: Seq<TokenV>,
    i: int,
    k: int,
    p: spec_fn(Seq<TokenV>, int) -> bool,
)
    requires
        0 <= i <= k < s.len(),
        everywhere(s, i, p),
    ensures
        p(s, k),
        s[k] is Group ==> everywhere(s[k]->Group_1, 0, p),
    decreases k - i,
{
    if i < k {
        lemma_everywhere_at(s, i + 1, k, p);
    }
}

/// A sequence with no `?`, no directive and no `#` standing last in its
/// sequence, at any depth, is rewritten to itself.
pub proof fn lemma_plain_unchanged(s: Seq<TokenV>)
    requires
        no_unwrap_requests(s),
        no_directives(s),
        no_dangling_marker(s),
    ensures
        rewrite(s) == Ok::<Seq<TokenV>, TransformError>(s),
{
    lemma_plain_from(s, 0);
    assert(s.subrange(0, s.len() as int) =~= s);
}

/// Running the transform again on an item that it produced, when that item
/// holds no `?`, no directive and no `#` standing last in its sequence, gives
/// the same item back.
pub proof fn lemma_transform_idempotent(s: Seq<TokenV>, r: Seq<TokenV>)
    requires
        transform_item(s) == Ok::<Seq<TokenV>, TransformError>(r),
        no_unwrap_requests(r),
        no_directives(r),
        no_dangling_marker(r),
    ensures
        transform_item(r) == Ok::<Seq<TokenV>, TransformError>(r),
{
    let k = r.len() - 1;
    assert(r[k] == r.last());
    lemma_everywhere_at(r, 0, k, not_request());
    lemma_everywhere_at(r, 0, k, not_directive());
    lemma_everywhere_at(r, 0, k, not_dangling());
    let body = r.last()->Group_1;
    lemma_plain_unchanged(body);
    assert(r.drop_last().push(TokenV::Group(Delimiter::Brace, body)) =~= r);
}

/// A `?` met in the active mode is replaced, at its own position, by the
/// three tokens `.`, `unwrap` and an empty parenthesis group; rewriting goes
/// on in the active mode after it.
pub proof fn lemma_unwrap_request_replaced(s: Seq<TokenV>, i: int)
    requires
        0 <= i < s.len(),
        is_punct(s[i], '?'),
    ensures
        rewrite_from(s, i, Mode::Active) == prepend(
            unwrap_call(),
            rewrite_from(s, i + 1, Mode::Active),
        ),
        unwrap_call() == seq![
            TokenV::Punct('.', Spacing::Alone),
            TokenV::Ident("unwrap"@),
            TokenV::Group(Delimiter::Parenthesis, Seq::empty()),
        ],
{
}

/// Tokens before position `i` that hold no `?` and no `#`, at any depth, are
/// kept as they are, so whatever the rewriting puts at `i` stands right
/// after them.
pub proof fn lemma_plain_prefix_kept(s: Seq<TokenV>, i: int)
    requires
        0 <= i <= s.len(),
        forall|k: int| 0 <= k < i ==> !is_punct(#[trigger] s[k], '?') && !is_punct(s[k], '#') && (s[k] is Group ==> {
            &&& no_unwrap_requests(s[k]->Group_1)
            &&& no_directives(s[k]->Group_1)
            &&& no_dangling_marker(s[k]->Group_1)
        }),
    ensures
        rewrite(s) == prepend(s.subrange(0, i), rewrite_from(s, i, Mode::Active)),
{
    lemma_plain_prefix_from(s, 0, i);
}

proof fn lemma_plain_prefix_from(s: Seq<TokenV>, j: int, i: int)
    requires
        0 <= j <= i <= s.len(),
        forall|k: int| 0 <= k < i ==> !is_punct(#[trigger] s[k], '?') && !is_punct(s[k], '#') && (s[k] is Group ==> {
            &&& no_unwrap_requests(s[k]->Group_1)
            &&& no_directives(s[k]->Group_1)
            &&& no_dangling_marker(s[k]->Group_1)
        }),
    ensures
        rewrite_from(s, j, Mode::Active) == prepend(s.subrange(j, i), rewrite_from(s, i, Mode::Active)),
    decreases i - j,
{
    if j == i {
        assert(s.subrange(j, i) =~= Seq::<TokenV>::empty());
        if let Ok(x) = rewrite_from(s, i, Mode::Active) {
            assert(Seq::<TokenV>::empty() + x =~= x);
        }
    } else {
        lemma_plain_prefix_from(s, j + 1, i);
        let t = s[j];
        if let TokenV::Group(d, c) = t {
            lemma_plain_unchanged(c);
        }
        assert(s.subrange(j, i) =~= seq![t] + s.subrange(j + 1, i));
        lemma_prepend_assoc(seq![t], s.subrange(j + 1, i), rewrite_from(s, i, Mode::Active));
    }
}

/// After `#` and the directive group at positions `i` and `i + 1`, the tokens
/// up to and including the next brace-delimited group, at `j`, are emitted
/// exactly as they are, the content of that group included; the directive
/// itself is dropped, and rewriting goes on in the active mode after `j`.
pub proof fn lemma_directive_protects(s: Seq<TokenV>, i: int, j: int)
    requires
        0 <= i,
        i + 2 <= j < s.len(),
        is_punct(s[i], '#'),
        is_directive(s[i + 1]),
        is_brace_group(s[j]),
        forall|k: int| i + 2 <= k < j ==> !is_brace_group(#[trigger] s[k]),
    ensures
        rewrite_from(s, i, Mode::Active) == prepend(
            s.subrange(i + 2, j + 1),
            rewrite_from(s, j + 1, Mode::Active),
        ),
{
    lemma_suppressed_span(s, i + 2, j);
}

proof fn lemma_suppressed_span(s: Seq<TokenV>, k: int, j: int)
    requires
        0 <= k <= j < s.len(),
        is_brace_group(s[j]),
        forall|m: int| k <= m < j ==> !is_brace_group(#[trigger] s[m]),
    ensures
        rewrite_from(s, k, Mode::Suppressed) == prepend(
            s.subrange(k, j + 1),
            rewrite_from(s, j + 1, Mode::Active),
        ),
    decreases j - k,
{
    if k == j {
        assert(s.subrange(k, j + 1) =~= seq![s[k]]);
    } else {
        lemma_suppressed_span(s, k + 1, j);
        assert(s.subrange(k, j + 1) =~= seq![s[k]] + s.subrange(k + 1, j + 1));
        lemma_prepend_assoc(seq![s[k]], s.subrange(k + 1, j + 1), rewrite_from(s, j + 1, Mode::Active));
    }
}

/// After `#` and the directive group at positions `i` and `i + 1`, when no
/// brace-delimited group follows, every later token is emitted exactly as it
/// is.
pub proof fn lemma_directive_protects_to_end(s: Seq<TokenV>, i: int)
    requires
        0 <= i,
        i + 1 < s.len(),
        is_punct(s[i], '#'),
        is_directive(s[i + 1]),
        forall|k: int| i + 2 <= k < s.len() ==> !is_brace_group(#[trigger] s[k]),
    ensures
        rewrite_from(s, i, Mode::Active) == Ok::<Seq<TokenV>, TransformError>(
            s.subrange(i + 2, s.len() as int),
        ),
{
    lemma_suppressed_to_end(s, i + 2);
}

proof fn lemma_suppressed_to_end(s: Seq<TokenV>, k: int)
    requires
        0 <= k <= s.len(),
        forall|m: int| k <= m < s.len() ==> !is_brace_group(#[trigger] s[m]),
    ensures
        rewrite_from(s, k, Mode::Suppressed) == Ok::<Seq<TokenV>, TransformError>(
            s.subrange(k, s.len() as int),
        ),
    decreases s.len() - k,
{
    if k == s.len() {
        assert(s.subrange(k, s.len() as int) =~= Seq::<TokenV>::empty());
    } else {
        lemma_suppressed_to_end(s, k + 1);
        assert(s.subrange(k, s.len() as int) =~= seq![s[k]] + s.subrange(k + 1, s.len() as int));
    }
}

/// A group met in the active mode is replaced by a group with the same
/// delimiter whose content is rewritten in turn.
pub proof fn lemma_nested_group_rewritten(s: Seq<TokenV>, i: int)
    requires
        0 <= i < s.len(),
        s[i] is Group,
    ensures
        rewrite_from(s, i, Mode::Active) == match rewrite(s[i]->Group_1) {
            Ok(inner) => prepend(
                seq![TokenV::Group(s[i]->Group_0, inner)],
                rewrite_from(s, i + 1, Mode::Active),
            ),
            Err(e) => Err(e),
        },
{
}

} // verus!
