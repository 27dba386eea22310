use vstd::prelude::*;

use crate::rewrite::{
    is_brace_group, result_tokens, rewrite, unwrap_inner, TransformError,
};
use crate::token::{lemma_view_tokens, push_token, tokens_of, Delimiter, Token, TokenV};

verus! {

/// The transform of a whole item: the tokens before the last one are kept,
/// and the last one, which must be a brace-delimited body, has its content
/// rewritten.
pub open spec fn transform_item(s: Seq<TokenV>) -> Result<Seq<TokenV>, TransformError> {
    if s.len() == 0 || !is_brace_group(s.last()) {
        Err(TransformError::InvalidItemShape)
    } else {
        match rewrite(s.last()->Group_1) {
            Ok(body) => Ok(s.drop_last().push(TokenV::Group(Delimiter::Brace, body))),
            Err(e) => Err(e),
        }
    }
}

/// Replaces every `?` in the body of an item by `.unwrap()`, except in the
/// spans that a `#[skip_auto_unwrap]` directive protects. The attribute's own
/// argument tokens are ignored.
pub fn auto_unwrap(_args: &Vec<Token>, input: &Vec<Token>) -> (r: Result<
    Vec<Token>,
    TransformError,
>)
    ensures
        result_tokens(&r) == transform_item(tokens_of(input)),
{
    let ghost s = tokens_of(input);
    proof {
        lemma_view_tokens(input@);
    }
    let n = input.len();
    if n == 0 {
        return Err(TransformError::InvalidItemShape);
    }
    match &input[n - 1] {
        Token::Group(Delimiter::Brace, children) => {
            let body = match unwrap_inner(children) {
                Ok(body) => body,
                Err(e) => {
                    return Err(e);
                },
            };
            let mut out: Vec<Token> = Vec::new();
            let mut i: usize = 0;
            while i < n - 1
                invariant
                    n == input.len(),
                    0 < n,
                    i <= n - 1,
                    s == tokens_of(input),
                    s.len() == n,
                    forall|k: int| 0 <= k < n ==> #[trigger] s[k] == input@[k]@,
                    tokens_of(&out) == s.subrange(0, i as int),
                decreases n - 1 - i,
            {
                let t = input[i].duplicate();
                push_token(&mut out, t);
                i = i + 1;
                assert(tokens_of(&out) =~= s.subrange(0, i as int));
            }
            let ghost b = tokens_of(&body);
            push_token(&mut out, Token::Group(Delimiter::Brace, body));
            assert(tokens_of(&out) =~= s.drop_last().push(TokenV::Group(Delimiter::Brace, b)));
            Ok(out)
        },
        _ => Err(TransformError::InvalidItemShape),
    }
}

} // verus!
