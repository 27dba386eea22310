use vstd::prelude::*;

use crate::token::{
    lemma_view_tokens, push_token, tokens_of, Delimiter, Spacing, Token, TokenV,
};

verus! {

/// The identifier that, written as `#[skip_auto_unwrap]`, protects the tokens
/// that follow it, up to and including the next brace-delimited group.
pub const SKIP_DIRECTIVE: &'static str = "skip_auto_unwrap";

/// Why a token sequence cannot be rewritten.
#[derive(Clone, Copy, Debug, PartialEq, Eq, Structural)]
pub enum TransformError {
    /// A `#` stands last in its sequence, with no token after it to inspect.
    MalformedInput,
    /// The item is empty, or its last token is not a brace-delimited group.
    InvalidItemShape,
}

/// Whether substitution is on (`Active`) or switched off by a directive
/// (`Suppressed`).
#[derive(Clone, Copy, Debug, PartialEq, Eq, Structural)]
pub enum Mode {
    Active,
    Suppressed,
}

/// The three tokens `. unwrap ()` that replace a `?`.
pub open spec fn unwrap_call() -> Seq<TokenV> {
    seq![
        TokenV::Punct('.', Spacing::Alone),
        TokenV::Ident("unwrap"@),
        TokenV::Group(Delimiter::Parenthesis, Seq::empty()),
    ]
}

/// A punctuation token of the character `c`, whatever its spacing.
pub open spec fn is_punct(t: TokenV, c: char) -> bool {
    t is Punct && t->Punct_0 == c
}

/// A bracket group whose content is exactly the directive identifier.
pub open spec fn is_directive(t: TokenV) -> bool {
    t == TokenV::Group(Delimiter::Bracket, seq![TokenV::Ident(SKIP_DIRECTIVE@)])
}

/// A brace-delimited group.
pub open spec fn is_brace_group(t: TokenV) -> bool {
    t is Group && t->Group_0 == Delimiter::Brace
}

/// `p` followed by the output of `r`, or the error of `r`.
pub open spec fn prepend(p: Seq<TokenV>, r: Result<Seq<TokenV>, TransformError>) -> Result<
    Seq<TokenV>,
    TransformError,
> {
    match r {
        Ok(x) => Ok(p + x),
        Err(e) => Err(e),
    }
}

/// The rewriting of the tokens of `s` from position `i` on, in the given mode.
pub open spec fn rewrite_from(s: Seq<TokenV>, i: int, mode: Mode) -> Result<
    Seq<TokenV>,
    TransformError,
>
    decreases s, s.len() - i,
{
    if i < 0 || i >= s.len() {
        Ok(Seq::empty())
    } else {
        let t = s[i];
        match mode {
            Mode::Suppressed => {
                let next = if is_brace_group(t) {
                    Mode::Active
                } else {
                    Mode::Suppressed
                };
                prepend(seq![t], rewrite_from(s, i + 1, next))
            },
            Mode::Active => match t {
                TokenV::Punct(c, _) => {
                    if c == '?' {
                        prepend(unwrap_call(), rewrite_from(s, i + 1, Mode::Active))
                    } else if c == '#' {
                        if i + 1 == s.len() {
                            Err(TransformError::MalformedInput)
                        } else if is_directive(s[i + 1]) {
                            rewrite_from(s, i + 2, Mode::Suppressed)
                        } else {
                            prepend(seq![t], rewrite_from(s, i + 1, Mode::Active))
                        }
                    } else {
                        prepend(seq![t], rewrite_from(s, i + 1, Mode::Active))
                    }
                },
                TokenV::Group(d, c) => match rewrite_from(c, 0, Mode::Active) {
                    Ok(inner) => prepend(
                        seq![TokenV::Group(d, inner)],
                        rewrite_from(s, i + 1, Mode::Active),
                    ),
                    Err(e) => Err(e),
                },
                _ => prepend(seq![t], rewrite_from(s, i + 1, Mode::Active)),
            },
        }
    }
}

/// The rewriting of a whole token sequence, which starts in the active mode.
pub open spec fn rewrite(s: Seq<TokenV>) -> Result<Seq<TokenV>, TransformError> {
    rewrite_from(s, 0, Mode::Active)
}

/// The model of an executable result that holds tokens.
pub open spec fn result_tokens(r: &Result<Vec<Token>, TransformError>) -> Result<
    Seq<TokenV>,
    TransformError,
> {
    match r {
        Ok(v) => Ok(tokens_of(v)),
        Err(e) => Err(*e),
    }
}

/// Prepending `a` to the result of prepending `b` prepends `a + b`.
pub proof fn lemma_prepend_assoc(a: Seq<TokenV>, b: Seq<TokenV>, r: Result<Seq<TokenV>, TransformError>)
    ensures
        prepend(a, prepend(b, r)) == prepend(a + b, r),
{
    if let Ok(x) = r {
        assert(a + (b + x) =~= (a + b) + x);
    }
}

/// Whether a token is the directive group `[skip_auto_unwrap]`.
pub fn is_directive_token(t: &Token) -> (r: bool)
    ensures
        r == is_directive(t@),
{
    match t {
        Token::Group(d, children) => {
            proof {
                lemma_view_tokens(children@);
                let expected = seq![TokenV::Ident(SKIP_DIRECTIVE@)];
                if is_directive(t@) {
                    assert(tokens_of(children)[0] == expected[0]);
                }
            }
            if *d == Delimiter::Bracket && children.len() == 1 {
                match &children[0] {
                    Token::Ident(name) => {
                        let r = *name == SKIP_DIRECTIVE.to_owned();
                        proof {
                            if r {
                                assert(tokens_of(children) =~= seq![TokenV::Ident(SKIP_DIRECTIVE@)]);
                            }
                        }
                        r
                    },
                    _ => false,
                }
            } else {
                false
            }
        },
        _ => false,
    }
}

/// Inspects the token after the `#` at position `i`: `Ok(true)` when it is the
/// directive group, `Ok(false)` when it is any other token, and
/// `MalformedInput` when the `#` is the last token.
pub fn is_skip(tokens: &Vec<Token>, i: usize) -> (r: Result<bool, TransformError>)
    requires
        i < tokens.len(),
    ensures
        i + 1 == tokens.len() ==> r == Err::<bool, TransformError>(TransformError::MalformedInput),
        i + 1 < tokens.len() ==> r == Ok::<bool, TransformError>(
            is_directive(tokens_of(tokens)[i + 1]),
        ),
{
    proof {
        lemma_view_tokens(tokens@);
    }
    if i + 1 == tokens.len() {
        Err(TransformError::MalformedInput)
    } else {
        Ok(is_directive_token(&tokens[i + 1]))
    }
}

/// Rewrites a token sequence: every `?` met in the active mode becomes
/// `. unwrap ()`, groups are rewritten recursively, and a
/// `#[skip_auto_unwrap]` directive is dropped and switches substitution off
/// until the next brace-delimited group, which is passed through unchanged.
pub fn unwrap_inner(input: &Vec<Token>) -> (r: Result<Vec<Token>, TransformError>)
    ensures
        result_tokens(&r) == rewrite(tokens_of(input)),
    decreases input,
{
    let ghost s = tokens_of(input);
    proof {
        lemma_view_tokens(input@);
    }
    let mut out: Vec<Token> = Vec::new();
    let mut mode = Mode::Active;
    let mut i: usize = 0;
    assert(tokens_of(&out) =~= Seq::<TokenV>::empty());
    assert(prepend(tokens_of(&out), rewrite(s)) == rewrite(s)) by {
        if let Ok(x) = rewrite(s) {
            assert(tokens_of(&out) + x =~= x);
        }
    }
    while i < input.len()
        invariant
            i <= input.len(),
            s == tokens_of(input),
            s.len() == input.len(),
            forall|k: int| 0 <= k < input.len() ==> #[trigger] s[k] == input@[k]@,
            rewrite(s) == prepend(tokens_of(&out), rewrite_from(s, i as int, mode)),
        decreases input.len() - i,
    {
        let ghost before = tokens_of(&out);
        let ghost at = i as int;
        match mode {
            Mode::Suppressed => {
                let t = input[i].duplicate();
                if let Token::Group(Delimiter::Brace, _) = &t {
                    mode = Mode::Active;
                }
                push_token(&mut out, t);
                i = i + 1;
                proof {
                    assert(tokens_of(&out) =~= before + seq![s[at]]);
                    lemma_prepend_assoc(before, seq![s[at]], rewrite_from(s, i as int, mode));
                }
            },
            Mode::Active => {
                match &input[i] {
                    Token::Punct(c, _) => {
                        if *c == '?' {
                            push_token(&mut out, Token::Punct('.', Spacing::Alone));
                            push_token(&mut out, Token::Ident("unwrap".to_owned()));
                            let empty: Vec<Token> = Vec::new();
                            assert(tokens_of(&empty) =~= Seq::<TokenV>::empty());
                            push_token(&mut out, Token::Group(Delimiter::Parenthesis, empty));
                            i = i + 1;
                            proof {
                                assert(tokens_of(&out) =~= before + unwrap_call());
                                lemma_prepend_assoc(before, unwrap_call(), rewrite_from(s, i as int, mode));
                            }
                        } else if *c == '#' {
                            match is_skip(input, i) {
                                Err(e) => {
                                    return Err(e);
                                },
                                Ok(true) => {
                                    mode = Mode::Suppressed;
                                    i = i + 2;
                                },
                                Ok(false) => {
                                    push_token(&mut out, input[i].duplicate());
                                    i = i + 1;
                                    proof {
                                        assert(tokens_of(&out) =~= before + seq![s[at]]);
                                        lemma_prepend_assoc(before, seq![s[at]], rewrite_from(s, i as int, mode));
                                    }
                                },
                            }
                        } else {
                            push_token(&mut out, input[i].duplicate());
                            i = i + 1;
                            proof {
                                assert(tokens_of(&out) =~= before + seq![s[at]]);
                                lemma_prepend_assoc(before, seq![s[at]], rewrite_from(s, i as int, mode));
                            }
                        }
                    },
                    Token::Group(d, children) => {
                        proof {
                            lemma_view_tokens(children@);
                        }
                        match unwrap_inner(children) {
                            Err(e) => {
                                return Err(e);
                            },
                            Ok(inner) => {
                                let ghost g = TokenV::Group(*d, tokens_of(&inner));
                                push_token(&mut out, Token::Group(*d, inner));
                                i = i + 1;
                                proof {
                                    assert(tokens_of(&out) =~= before + seq![g]);
                                    lemma_prepend_assoc(before, seq![g], rewrite_from(s, i as int, mode));
                                }
                            },
                        }
                    },
                    other => {
                        let t = other.duplicate();
                        push_token(&mut out, t);
                        i = i + 1;
                        proof {
                            assert(tokens_of(&out) =~= before + seq![s[at]]);
                            lemma_prepend_assoc(before, seq![s[at]], rewrite_from(s, i as int, mode));
                        }
                    },
                }
            },
        }
    }
    assert(tokens_of(&out) + Seq::<TokenV>::empty() =~= tokens_of(&out));
    Ok(out)
}

} // verus!
