//! The lexical token model: a token is an identifier, a punctuation
//! character, a literal, or a delimited group of nested tokens.

use vstd::prelude::*;

verus! {

/// The delimiter of a group token.
#[derive(Clone, Copy, Debug, PartialEq, Eq, Structural)]
pub enum Delim {
    /// `( ... )`
    Paren,
    /// `{ ... }`
    Brace,
    /// `[ ... ]`
    Bracket,
}

/// One lexical token of a declaration.
///
/// Identifiers and literals carry their text; a group carries its
/// delimiter and the ordered sequence of tokens inside it.
#[derive(Debug, PartialEq, Eq)]
pub enum Token {
    /// An identifier, as its text.
    Ident(String),
    /// A single punctuation character.
    Punct(char),
    /// A literal, as its text.
    Literal(String),
    /// A delimited group of nested tokens.
    Group(Delim, Vec<Token>),
}

/// The mathematical model of a token: text becomes `Seq<char>` and a
/// group's contents become a `Seq` of models.
#[verifier::ext_equal]
pub ghost enum TokenModel {
    /// Model of [`Token::Ident`].
    Ident(Seq<char>),
    /// Model of [`Token::Punct`].
    Punct(char),
    /// Model of [`Token::Literal`].
    Literal(Seq<char>),
    /// Model of [`Token::Group`].
    Group(Delim, Seq<TokenModel>),
}

/// The model of a single token.
pub open spec fn token_view(t: Token) -> TokenModel
    decreases t,
{
    match t {
        Token::Ident(s) => TokenModel::Ident(s@),
        Token::Punct(c) => TokenModel::Punct(c),
        Token::Literal(s) => TokenModel::Literal(s@),
        Token::Group(d, inner) => TokenModel::Group(d, tokens_view(inner@)),
    }
}

/// The model of a sequence of tokens, elementwise.
pub open spec fn tokens_view(ts: Seq<Token>) -> Seq<TokenModel>
    decreases ts,
{
    if ts.len() == 0 {
        Seq::empty()
    } else {
        tokens_view(ts.drop_last()).push(token_view(ts.last()))
    }
}

/// `tokens_view` maps elementwise: it keeps the length and models each
/// position independently.
pub proof fn lemma_tokens_view_len(ts: Seq<Token>)
    ensures
        tokens_view(ts).len() == ts.len(),
    decreases ts.len(),
{
    if ts.len() > 0 {
        lemma_tokens_view_len(ts.drop_last());
    }
}

/// The model of position `i` is the model of the token at position `i`.
pub proof fn lemma_tokens_view_index(ts: Seq<Token>, i: int)
    requires
        0 <= i < ts.len(),
    ensures
        tokens_view(ts).len() == ts.len(),
        tokens_view(ts)[i] == token_view(ts[i]),
    decreases ts.len(),
{
    lemma_tokens_view_len(ts);
    if i < ts.len() - 1 {
        lemma_tokens_view_index(ts.drop_last(), i);
    }
}

impl Clone for Token {
    /// A clone has the same model as the value it was cloned from.
    fn clone(&self) -> (res: Token)
        ensures
            token_view(res) == token_view(*self),
        decreases *self,
    {
        match self {
            Token::Ident(s) => Token::Ident(s.clone()),
            Token::Punct(c) => Token::Punct(*c),
            Token::Literal(s) => Token::Literal(s.clone()),
            Token::Group(d, inner) => {
                let mut v: Vec<Token> = Vec::new();
                let mut k: usize = 0;
                while k < inner.len()
                    invariant
                        *self == Token::Group(*d, *inner),
                        k <= inner.len(),
                        v.len() == k,
                        forall|j: int|
                            0 <= j < k ==> token_view(#[trigger] v@[j]) == token_view(inner@[j]),
                    decreases inner.len() - k,
                {
                    proof {
                        assert(decreases_to!(*self => self->Group_1));
                        assert(decreases_to!(self->Group_1 => self->Group_1@));
                        assert(decreases_to!(self->Group_1@ => self->Group_1@[k as int]));
                        assert(self->Group_1@ == inner@);
                    }
                    v.push(inner[k].clone());
                    k = k + 1;
                }
                proof {
                    assert forall|j: int| 0 <= j < inner@.len() implies tokens_view(v@)[j]
                        == tokens_view(inner@)[j] by {
                        lemma_tokens_view_index(v@, j);
                        lemma_tokens_view_index(inner@, j);
                    }
                    lemma_tokens_view_len(v@);
                    lemma_tokens_view_len(inner@);
                    assert(tokens_view(v@) =~= tokens_view(inner@));
                }
                Token::Group(*d, v)
            },
        }
    }
}

} // verus!
