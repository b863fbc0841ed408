//! The parse result: the structured description of one type declaration,
//! and the views derived from it on demand.

use vstd::prelude::*;
use vstd::string::StringExecFns;
use crate::token::{Delim, Token, TokenModel, token_view, tokens_view, lemma_tokens_view_index,
    lemma_tokens_view_len};
use crate::visibility::Visibility;

verus! {

/// Relies on std's `String::push`: it appends the given character to the
/// end of the string.
pub assume_specification[ String::push ](s: &mut String, ch: char)
    ensures
        final(s)@ == old(s)@.push(ch),
;

/// The opening character of a delimiter.
pub open spec fn open_char(d: Delim) -> char {
    match d {
        Delim::Paren => '(',
        Delim::Brace => '{',
        Delim::Bracket => '[',
    }
}

/// The closing character of a delimiter.
pub open spec fn close_char(d: Delim) -> char {
    match d {
        Delim::Paren => ')',
        Delim::Brace => '}',
        Delim::Bracket => ']',
    }
}

/// The textual form of a token: an identifier or literal is its text, a
/// punctuation token is its character, and a group is its delimiter pair
/// around the concatenated texts of its contents.
pub open spec fn token_text(m: TokenModel) -> Seq<char>
    decreases m,
{
    match m {
        TokenModel::Ident(s) => s,
        TokenModel::Punct(c) => seq![c],
        TokenModel::Literal(s) => s,
        TokenModel::Group(d, inner) => seq![open_char(d)] + texts_concat(inner) + seq![
            close_char(d),
        ],
    }
}

/// The concatenated textual forms of a sequence of tokens.
pub open spec fn texts_concat(ms: Seq<TokenModel>) -> Seq<char>
    decreases ms,
{
    if ms.len() == 0 {
        Seq::empty()
    } else {
        texts_concat(ms.drop_last()) + token_text(ms.last())
    }
}

/// Whether a token is the `'` punctuation that introduces a lifetime
/// parameter.
pub open spec fn is_quote(m: TokenModel) -> bool {
    m matches TokenModel::Punct(c) && c == '\''
}

/// The lifetime-parameter names among the first `n` generics tokens: the
/// text of each identifier that immediately follows a `'` punctuation
/// token, in order.
pub open spec fn lifetime_names_upto(g: Seq<TokenModel>, n: int) -> Seq<Seq<char>>
    decreases n,
{
    if n <= 0 {
        Seq::empty()
    } else {
        lifetime_names_upto(g, n - 1) + (if n - 2 >= 0 && is_quote(g[n - 2]) && (g[n - 1] is Ident) {
            seq![g[n - 1]->Ident_0]
        } else {
            Seq::empty()
        })
    }
}

/// The lifetime-parameter names of a generics token sequence.
pub open spec fn lifetime_names(g: Seq<TokenModel>) -> Seq<Seq<char>> {
    lifetime_names_upto(g, g.len() as int)
}

/// The head token of each member group, in order; an empty group
/// contributes no head.
pub open spec fn member_heads(gs: Seq<Seq<TokenModel>>) -> Seq<TokenModel>
    decreases gs,
{
    if gs.len() == 0 {
        Seq::empty()
    } else {
        member_heads(gs.drop_last()) + (if gs.last().len() > 0 {
            seq![gs.last()[0]]
        } else {
            Seq::empty()
        })
    }
}

/// The structured description of one type declaration.
///
/// `generics` is `None` unless a `<...>` span was found after the
/// declaration keyword; `data` is `None` unless a delimited body group was
/// encountered.
#[derive(Debug, PartialEq, Eq)]
pub struct ParsedTokenStream {
    /// The declared visibility; `Private` when no marker was present.
    pub visibility: Visibility,
    /// The text of the declaration's name.
    pub name: String,
    /// The raw tokens between the `<` and the `>` after the name, if any.
    pub generics: Option<Vec<Token>>,
    /// The member groups of the delimited body, split on top-level
    /// separator commas, if a body was found.
    pub data: Option<Vec<Vec<Token>>>,
}

impl ParsedTokenStream {
    /// The model of the stored generics tokens.
    pub open spec fn generics_model(&self) -> Option<Seq<TokenModel>> {
        match self.generics {
            Some(g) => Some(tokens_view(g@)),
            None => None,
        }
    }

    /// The model of the stored member groups.
    pub open spec fn members_model(&self) -> Option<Seq<Seq<TokenModel>>> {
        match self.data {
            Some(d) => Some(d@.map_values(|g: Vec<Token>| tokens_view(g@))),
            None => None,
        }
    }

    /// The declaration's name.
    pub fn name(&self) -> (r: String)
        ensures
            r@ == self.name@,
    {
        self.name.clone()
    }

    /// The concatenated text of the generics tokens, or nothing when no
    /// generic list appeared.
    pub fn generics(&self) -> (r: Option<String>)
        ensures
            match self.generics_model() {
                Some(g) => r matches Some(s) && s@ == texts_concat(g),
                None => r is None,
            },
    {
        match &self.generics {
            Some(g) => {
                let ghost ms = tokens_view(g@);
                proof {
                    lemma_tokens_view_len(g@);
                }
                let mut out = String::new();
                let mut k: usize = 0;
                while k < g.len()
                    invariant
                        k <= g.len(),
                        ms == tokens_view(g@),
                        ms.len() == g@.len(),
                        out@ == texts_concat(ms.take(k as int)),
                    decreases g.len() - k,
                {
                    let piece = render_token(&g[k]);
                    out.append(piece.as_str());
                    proof {
                        lemma_tokens_view_index(g@, k as int);
                        assert(ms.take(k as int + 1).drop_last() =~= ms.take(k as int));
                        assert(ms.take(k as int + 1).last() == ms[k as int]);
                    }
                    k = k + 1;
                }
                proof {
                    assert(ms.take(ms.len() as int) =~= ms);
                }
                Some(out)
            },
            None => None,
        }
    }

    /// The lifetime-parameter names found in the generics tokens, or
    /// nothing when no generic list appeared.
    pub fn lifetime(&self) -> (r: Option<Vec<String>>)
        ensures
            match self.generics_model() {
                Some(g) => r matches Some(v) && v@.map_values(|s: String| s@) == lifetime_names(
                    g,
                ),
                None => r is None,
            },
    {
        match &self.generics {
            Some(g) => {
                let ghost ms = tokens_view(g@);
                proof {
                    lemma_tokens_view_len(g@);
                }
                let mut out: Vec<String> = Vec::new();
                let mut k: usize = 0;
                while k < g.len()
                    invariant
                        k <= g.len(),
                        ms == tokens_view(g@),
                        ms.len() == g@.len(),
                        out@.map_values(|s: String| s@) == lifetime_names_upto(ms, k as int),
                    decreases g.len() - k,
                {
                    proof {
                        lemma_tokens_view_index(g@, k as int);
                        if k >= 1 {
                            lemma_tokens_view_index(g@, k as int - 1);
                        }
                    }
                    let ghost pre = out@;
                    if k >= 1 && is_quote_token(&g[k - 1]) {
                        match &g[k] {
                            Token::Ident(n) => {
                                out.push(n.clone());
                                proof {
                                    assert(out@.map_values(|s: String| s@) =~= pre.map_values(
                                        |s: String| s@).push(n@));
                                }
                            },
                            _ => {},
                        }
                    }
                    k = k + 1;
                }
                Some(out)
            },
            None => None,
        }
    }

    /// The head token of each member group, or nothing when no body was
    /// found.
    pub fn fields(&self) -> (r: Option<Vec<Token>>)
        ensures
            match self.members_model() {
                Some(gs) => r matches Some(v) && tokens_view(v@) == member_heads(gs),
                None => r is None,
            },
    {
        match &self.data {
            Some(d) => {
                let ghost gs = d@.map_values(|g: Vec<Token>| tokens_view(g@));
                let mut out: Vec<Token> = Vec::new();
                let mut k: usize = 0;
                while k < d.len()
                    invariant
                        k <= d.len(),
                        gs == d@.map_values(|g: Vec<Token>| tokens_view(g@)),
                        gs.len() == d@.len(),
                        tokens_view(out@) == member_heads(gs.take(k as int)),
                    decreases d.len() - k,
                {
                    let ghost pre = out@;
                    proof {
                        lemma_tokens_view_len(d@[k as int]@);
                        assert(gs.take(k as int + 1).drop_last() =~= gs.take(k as int));
                        assert(gs.take(k as int + 1).last() == gs[k as int]);
                    }
                    if d[k].len() > 0 {
                        let head = d[k][0].clone();
                        out.push(head);
                        proof {
                            lemma_tokens_view_index(d@[k as int]@, 0);
                            assert(out@.drop_last() =~= pre);
                            assert(tokens_view(out@) == tokens_view(pre).push(
                                token_view(out@.last())));
                        }
                    }
                    k = k + 1;
                }
                proof {
                    assert(gs.take(gs.len() as int) =~= gs);
                }
                Some(out)
            },
            None => None,
        }
    }
}

/// Whether a token is the `'` punctuation.
fn is_quote_token(t: &Token) -> (r: bool)
    ensures
        r == is_quote(token_view(*t)),
{
    match t {
        Token::Punct(c) => *c == '\'',
        _ => false,
    }
}

/// The opening character of a delimiter.
fn open_delim_char(d: Delim) -> (c: char)
    ensures
        c == open_char(d),
{
    match d {
        Delim::Paren => '(',
        Delim::Brace => '{',
        Delim::Bracket => '[',
    }
}

/// The closing character of a delimiter.
fn close_delim_char(d: Delim) -> (c: char)
    ensures
        c == close_char(d),
{
    match d {
        Delim::Paren => ')',
        Delim::Brace => '}',
        Delim::Bracket => ']',
    }
}

/// The textual form of a token.
pub fn render_token(t: &Token) -> (r: String)
    ensures
        r@ == token_text(token_view(*t)),
    decreases *t,
{
    match t {
        Token::Ident(s) => s.clone(),
        Token::Literal(s) => s.clone(),
        Token::Punct(c) => {
            let mut out = String::new();
            out.push(*c);
            proof {
                assert(out@ =~= seq![*c]);
            }
            out
        },
        Token::Group(d, inner) => {
            let ghost ms = tokens_view(inner@);
            proof {
                lemma_tokens_view_len(inner@);
            }
            let mut out = String::new();
            out.push(open_delim_char(*d));
            let mut k: usize = 0;
            while k < inner.len()
                invariant
                    *t == Token::Group(*d, *inner),
                    k <= inner.len(),
                    ms == tokens_view(inner@),
                    ms.len() == inner@.len(),
                    out@ == seq![open_char(*d)] + texts_concat(ms.take(k as int)),
                decreases inner.len() - k,
            {
                proof {
                    assert(decreases_to!(*t => t->Group_1));
                    assert(decreases_to!(t->Group_1 => t->Group_1@));
                    assert(decreases_to!(t->Group_1@ => t->Group_1@[k as int]));
                    assert(t->Group_1@ == inner@);
                }
                let piece = render_token(&inner[k]);
                out.append(piece.as_str());
                proof {
                    lemma_tokens_view_index(inner@, k as int);
                    assert(ms.take(k as int + 1).drop_last() =~= ms.take(k as int));
                    assert(ms.take(k as int + 1).last() == ms[k as int]);
                }
                k = k + 1;
            }
            out.push(close_delim_char(*d));
            proof {
                assert(ms.take(ms.len() as int) =~= ms);
                assert(out@ =~= seq![open_char(*d)] + texts_concat(ms) + seq![close_char(*d)]);
            }
            out
        },
    }
}

} // verus!
