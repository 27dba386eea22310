use vstd::prelude::*;

verus! {

/// The bracket kind that encloses a group of tokens.
#[derive(Clone, Copy, Debug, PartialEq, Eq, Structural)]
pub enum Delimiter {
    /// `( ... )`
    Parenthesis,
    /// `[ ... ]`
    Bracket,
    /// `{ ... }`
    Brace,
    /// A group without visible delimiters.
    Invisible,
}

/// Whether a punctuation character is glued to the punctuation character
/// that follows it (as the first `=` of `==`).
#[derive(Clone, Copy, Debug, PartialEq, Eq, Structural)]
pub enum Spacing {
    Alone,
    Joint,
}

/// A lexical token: a leaf (identifier, punctuation character, literal) or a
/// delimited group that owns an ordered sequence of tokens.
#[derive(Debug, PartialEq, Eq)]
pub enum Token {
    Ident(String),
    Punct(char, Spacing),
    Literal(String),
    Group(Delimiter, Vec<Token>),
}

/// The mathematical model of a token.
pub ghost enum TokenV {
    Ident(Seq<char>),
    Punct(char, Spacing),
    Literal(Seq<char>),
    Group(Delimiter, Seq<TokenV>),
}

/// The model of a sequence of tokens, element by element.
pub open spec fn view_tokens(s: Seq<Token>) -> Seq<TokenV>
    decreases s,
{
    if s.len() == 0 {
        Seq::empty()
    } else {
        view_tokens(s.drop_last()).push(s.last().view())
    }
}

impl View for Token {
    type V = TokenV;

    open spec fn view(&self) -> TokenV
        decreases self,
    {
        match self {
            Token::Ident(t) => TokenV::Ident(t@),
            Token::Punct(c, sp) => TokenV::Punct(*c, *sp),
            Token::Literal(t) => TokenV::Literal(t@),
            Token::Group(d, c) => TokenV::Group(*d, view_tokens(c@)),
        }
    }
}

/// The model of a sequence of tokens has one entry per token, each the model
/// of the token at the same position.
pub proof fn lemma_view_tokens(s: Seq<Token>)
    ensures
        view_tokens(s).len() == s.len(),
        forall|i: int| 0 <= i < s.len() ==> #[trigger] view_tokens(s)[i] == s[i]@,
    decreases s.len(),
{
    if s.len() > 0 {
        let prefix = s.drop_last();
        lemma_view_tokens(prefix);
        assert(view_tokens(s) == view_tokens(prefix).push(s.last()@));
        assert forall|i: int| 0 <= i < s.len() implies #[trigger] view_tokens(s)[i] == s[i]@ by {
            if i < s.len() - 1 {
                assert(prefix[i] == s[i]);
            }
        }
    }
}

/// Appending a token appends its model.
pub proof fn lemma_view_tokens_push(s: Seq<Token>, t: Token)
    ensures
        view_tokens(s.push(t)) == view_tokens(s).push(t@),
{
    assert(s.push(t).drop_last() =~= s);
}

/// Views of a vector of tokens.
pub open spec fn tokens_of(v: &Vec<Token>) -> Seq<TokenV> {
    view_tokens(v@)
}

/// Appends a token to `out`.
pub fn push_token(out: &mut Vec<Token>, t: Token)
    ensures
        tokens_of(final(out)) == tokens_of(old(out)).push(t@),
{
    proof {
        lemma_view_tokens_push(old(out)@, t);
    }
    out.push(t);
}

impl Token {
    /// A deep copy of the token.
    pub fn duplicate(&self) -> (r: Token)
        ensures
            r@ == self@,
        decreases self,
    {
        match self {
            Token::Ident(t) => Token::Ident(t.clone()),
            Token::Punct(c, sp) => Token::Punct(*c, *sp),
            Token::Literal(t) => Token::Literal(t.clone()),
            Token::Group(d, children) => {
                let copied = duplicate_all(children);
                Token::Group(*d, copied)
            },
        }
    }
}

/// A deep copy of every token of a vector, in order.
pub fn duplicate_all(v: &Vec<Token>) -> (r: Vec<Token>)
    ensures
        tokens_of(&r) == tokens_of(v),
    decreases v,
{
    let mut out: Vec<Token> = Vec::new();
    let mut i: usize = 0;
    while i < v.len()
        invariant
            i <= v.len(),
            out@.len() == i,
            forall|k: int| 0 <= k < i ==> #[trigger] out@[k]@ == v@[k]@,
        decreases v.len() - i,
    {
        let t = v[i].duplicate();
        out.push(t);
        i = i + 1;
    }
    proof {
        lemma_view_tokens(out@);
        lemma_view_tokens(v@);
        assert(tokens_of(&out) =~= tokens_of(v));
    }
    out
}

} // verus!
