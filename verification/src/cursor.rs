//! The single-pass token scanner: one left-to-right pass over a flat
//! token sequence, recognizing visibility, name, generic list, and
//! member-group tokens.

use vstd::prelude::*;
use crate::parsed::ParsedTokenStream;
use crate::token::{Delim, Token, TokenModel, token_view, tokens_view, lemma_tokens_view_index,
    lemma_tokens_view_len};
use crate::visibility::Visibility;

verus! {

/// The parse failure: no declaration name could be located. Every other
/// incompletely matched construct degrades silently instead of failing.
#[derive(Clone, Copy, Debug, PartialEq, Eq, Structural)]
pub enum ParseError {
    /// No type-introducing keyword followed by an identifier was found.
    IdentNotFound,
}

/// The accumulator state of the scan: what has been recognized so far.
pub ghost struct ScanState {
    /// The visibility recognized so far; `Private` until a marker is seen.
    pub visibility: Visibility,
    /// The text of the name, once captured.
    pub name: Option<Seq<char>>,
    /// The tokens of the generic list, once captured.
    pub generics: Option<Seq<TokenModel>>,
    /// The member groups of the body, once captured.
    pub members: Option<Seq<Seq<TokenModel>>>,
}

/// The state before any token has been scanned.
pub open spec fn init_state() -> ScanState {
    ScanState { visibility: Visibility::Private, name: None, generics: None, members: None }
}

/// Whether a token is a top-level separator comma.
pub open spec fn is_comma(m: TokenModel) -> bool {
    m matches TokenModel::Punct(c) && c == ','
}

/// Whether a token is the `>` punctuation closing a generic list.
pub open spec fn is_close_angle(m: TokenModel) -> bool {
    m matches TokenModel::Punct(c) && c == '>'
}

/// Whether a token is the visibility keyword.
pub open spec fn is_pub_marker(m: TokenModel) -> bool {
    m matches TokenModel::Ident(s) && s == "pub"@
}

/// Whether a token is a type-introducing keyword (record or
/// tagged-union).
pub open spec fn is_type_keyword(m: TokenModel) -> bool {
    m matches TokenModel::Ident(s) && (s == "struct"@ || s == "enum"@)
}

/// The member groups of a body: its token sequence split on separator
/// commas at the body's own level (commas inside nested groups are not at
/// that level, but commas inside a `<...>` span are, a documented
/// limitation of the split). Splitting always yields one more group than
/// there are commas; empty content yields one empty group.
pub open spec fn split_on_commas_spec(ts: Seq<TokenModel>) -> Seq<Seq<TokenModel>> {
    split_from(ts, 0, 0)
}

/// The groups from position `i` on, the current group having started at
/// `start`.
pub open spec fn split_from(ts: Seq<TokenModel>, start: int, i: int) -> Seq<Seq<TokenModel>>
    decreases ts.len() - i,
{
    if i < 0 || i >= ts.len() {
        seq![ts.subrange(start, ts.len() as int)]
    } else if is_comma(ts[i]) {
        seq![ts.subrange(start, i)] + split_from(ts, i + 1, i + 1)
    } else {
        split_from(ts, start, i + 1)
    }
}

/// The position of the first `>` punctuation token at or after `i`, if
/// any.
pub open spec fn find_close_angle(ts: Seq<TokenModel>, i: int) -> Option<int>
    decreases ts.len() - i,
{
    if i < 0 || i >= ts.len() {
        None
    } else if is_close_angle(ts[i]) {
        Some(i)
    } else {
        find_close_angle(ts, i + 1)
    }
}

/// The visibility read from the contents of a parenthesized group after
/// the visibility keyword: `crate` gives `PubCrate`, `super` gives
/// `PubSuper`, and any other content leaves the prior value.
pub open spec fn vis_of_paren(inner: Seq<TokenModel>, prior: Visibility) -> Visibility
    decreases inner.len(),
{
    if inner.len() == 0 {
        prior
    } else {
        let updated = match inner[0] {
            TokenModel::Ident(s) => if s == "crate"@ {
                Visibility::PubCrate
            } else if s == "super"@ {
                Visibility::PubSuper
            } else {
                prior
            },
            _ => prior,
        };
        vis_of_paren(inner.drop_first(), updated)
    }
}

/// The visibility after the visibility keyword, read from the token that
/// follows it: a parenthesized group is inspected; anything else, or no
/// token at all, means plain `Pub`.
pub open spec fn visibility_after(next: Option<TokenModel>, prior: Visibility) -> Visibility {
    match next {
        Some(TokenModel::Group(d, g)) => if d == Delim::Paren {
            vis_of_paren(g, prior)
        } else {
            Visibility::Pub
        },
        _ => Visibility::Pub,
    }
}

/// One left-to-right pass from position `i` with accumulator `st`:
///
///   - a group token becomes the body, overwriting any previous one;
///   - the visibility keyword sets the visibility from the next token
///     (which is not consumed);
///   - a type-introducing keyword captures the following identifier as
///     the name and consumes it, or silently skips ahead;
///   - a `<` punctuation captures the tokens up to the first following
///     `>` as the generic list, or is skipped when no `>` follows;
///   - every other token has no effect.
pub open spec fn scan(ts: Seq<TokenModel>, i: int, st: ScanState) -> ScanState
    decreases ts.len() - i,
{
    if i < 0 || i >= ts.len() {
        st
    } else {
        match ts[i] {
            TokenModel::Group(d, inner) => scan(
                ts,
                i + 1,
                ScanState { members: Some(split_on_commas_spec(inner)), ..st },
            ),
            TokenModel::Ident(s) => {
                if s == "pub"@ {
                    let next = if i + 1 < ts.len() {
                        Some(ts[i + 1])
                    } else {
                        None
                    };
                    scan(
                        ts,
                        i + 1,
                        ScanState { visibility: visibility_after(next, st.visibility), ..st },
                    )
                } else if s == "struct"@ || s == "enum"@ {
                    if i + 1 < ts.len() && ts[i + 1] is Ident {
                        scan(ts, i + 2, ScanState { name: Some(ts[i + 1]->Ident_0), ..st })
                    } else {
                        scan(ts, i + 1, st)
                    }
                } else {
                    scan(ts, i + 1, st)
                }
            },
            TokenModel::Punct(c) => {
                if c == '<' {
                    match find_close_angle(ts, i) {
                        Some(j) => scan(
                            ts,
                            i + 1,
                            ScanState { generics: Some(ts.subrange(i + 1, j)), ..st },
                        ),
                        None => scan(ts, i + 1, st),
                    }
                } else {
                    scan(ts, i + 1, st)
                }
            },
            TokenModel::Literal(_) => scan(ts, i + 1, st),
        }
    }
}

/// The state after scanning a whole token sequence from the beginning.
pub open spec fn scan_all(ts: Seq<TokenModel>) -> ScanState {
    scan(ts, 0, init_state())
}

/// The scan state that the exec accumulator variables stand for.
pub open spec fn state_of(
    v: Visibility,
    name: Option<String>,
    generics: Option<Vec<Token>>,
    data: Option<Vec<Vec<Token>>>,
) -> ScanState {
    ScanState {
        visibility: v,
        name: match name {
            Some(s) => Some(s@),
            None => None,
        },
        generics: match generics {
            Some(g) => Some(tokens_view(g@)),
            None => None,
        },
        members: match data {
            Some(d) => Some(d@.map_values(|g: Vec<Token>| tokens_view(g@))),
            None => None,
        },
    }
}

/// How a parse result reflects a final scan state.
pub open spec fn reflects_state(p: ParsedTokenStream, st: ScanState) -> bool {
    &&& st.name == Some(p.name@)
    &&& p.visibility == st.visibility
    &&& p.generics_model() == st.generics
    &&& p.members_model() == st.members
}

/// What parsing a whole token sequence returns: the populated description
/// when a name was captured, and `IdentNotFound` when none was.
pub open spec fn parse_obeys(
    ts: Seq<TokenModel>,
    r: Result<ParsedTokenStream, ParseError>,
) -> bool {
    let st = scan_all(ts);
    match r {
        Ok(p) => st.name is Some && reflects_state(p, st),
        Err(e) => st.name is None && e == ParseError::IdentNotFound,
    }
}

/// Whether an identifier's text equals the given keyword.
fn text_is(s: &String, w: &str) -> (r: bool)
    ensures
        r == (s@ == w@),
{
    let other: String = w.to_owned();
    *s == other
}

/// Whether a token is a top-level separator comma.
fn is_comma_token(t: &Token) -> (r: bool)
    ensures
        r == is_comma(token_view(*t)),
{
    match t {
        Token::Punct(c) => *c == ',',
        _ => false,
    }
}

/// Whether a token is the `>` punctuation.
fn is_close_angle_token(t: &Token) -> (r: bool)
    ensures
        r == is_close_angle(token_view(*t)),
{
    match t {
        Token::Punct(c) => *c == '>',
        _ => false,
    }
}

/// Split a body's token sequence into member groups on separator commas.
fn split_on_commas(inner: &Vec<Token>) -> (r: Vec<Vec<Token>>)
    ensures
        r@.map_values(|g: Vec<Token>| tokens_view(g@)) == split_on_commas_spec(
            tokens_view(inner@),
        ),
{
    let ghost m = tokens_view(inner@);
    proof {
        lemma_tokens_view_len(inner@);
    }
    let mut r: Vec<Vec<Token>> = Vec::new();
    let mut cur: Vec<Token> = Vec::new();
    let ghost mut start: int = 0;
    let mut i: usize = 0;
    while i < inner.len()
        invariant
            0 <= start <= i as int <= inner.len(),
            m == tokens_view(inner@),
            m.len() == inner@.len(),
            tokens_view(cur@) == m.subrange(start, i as int),
            split_on_commas_spec(m) == r@.map_values(|g: Vec<Token>| tokens_view(g@))
                + split_from(m, start, i as int),
        decreases inner.len() - i,
    {
        let ghost r_pre = r@;
        let ghost cur_pre = cur@;
        proof {
            lemma_tokens_view_index(inner@, i as int);
        }
        if is_comma_token(&inner[i]) {
            r.push(cur);
            cur = Vec::new();
            proof {
                assert(r@.map_values(|g: Vec<Token>| tokens_view(g@)) =~= r_pre.map_values(
                    |g: Vec<Token>| tokens_view(g@)).push(m.subrange(start, i as int)));
                assert(tokens_view(cur@) =~= m.subrange(i as int + 1, i as int + 1));
            }
            proof {
                start = i as int + 1;
            }
        } else {
            let tok = inner[i].clone();
            cur.push(tok);
            proof {
                assert(cur@.drop_last() =~= cur_pre);
                assert(tokens_view(cur@) == tokens_view(cur_pre).push(token_view(cur@.last())));
                assert(tokens_view(cur@) =~= m.subrange(start, i as int + 1));
            }
        }
        i = i + 1;
    }
    let ghost r_pre = r@;
    r.push(cur);
    proof {
        assert(r@.map_values(|g: Vec<Token>| tokens_view(g@)) =~= r_pre.map_values(
            |g: Vec<Token>| tokens_view(g@)).push(m.subrange(start, m.len() as int)));
    }
    r
}

/// Find the first `>` punctuation token at or after `from`.
fn find_close_angle_from(buffer: &Vec<Token>, from: usize) -> (r: Option<usize>)
    ensures
        ({
            let m = tokens_view(buffer@);
            match r {
                Some(j) => from <= j < buffer.len() && find_close_angle(m, from as int) == Some(
                    j as int,
                ),
                None => find_close_angle(m, from as int) is None,
            }
        }),
{
    let ghost m = tokens_view(buffer@);
    proof {
        lemma_tokens_view_len(buffer@);
    }
    let mut j: usize = from;
    while j < buffer.len()
        invariant
            from <= j,
            m == tokens_view(buffer@),
            m.len() == buffer@.len(),
            find_close_angle(m, from as int) == find_close_angle(m, j as int),
        decreases buffer.len() - j,
    {
        proof {
            lemma_tokens_view_index(buffer@, j as int);
        }
        if is_close_angle_token(&buffer[j]) {
            return Some(j);
        }
        j = j + 1;
    }
    None
}

/// Read the visibility from the contents of a parenthesized group.
fn vis_of_paren_group(inner: &Vec<Token>, prior: Visibility) -> (r: Visibility)
    ensures
        r == vis_of_paren(tokens_view(inner@), prior),
{
    let ghost m = tokens_view(inner@);
    proof {
        lemma_tokens_view_len(inner@);
    }
    let mut cur = prior;
    let mut i: usize = 0;
    proof {
        assert(m.skip(0) =~= m);
    }
    while i < inner.len()
        invariant
            i <= inner.len(),
            m == tokens_view(inner@),
            m.len() == inner@.len(),
            vis_of_paren(m, prior) == vis_of_paren(m.skip(i as int), cur),
        decreases inner.len() - i,
    {
        let ghost cur_pre = cur;
        proof {
            lemma_tokens_view_index(inner@, i as int);
        }
        match &inner[i] {
            Token::Ident(s) => {
                if text_is(s, "crate") {
                    cur = Visibility::PubCrate;
                } else if text_is(s, "super") {
                    cur = Visibility::PubSuper;
                }
            },
            _ => {},
        }
        proof {
            assert(m.skip(i as int).drop_first() =~= m.skip(i as int + 1));
            assert(m.skip(i as int)[0] == m[i as int]);
            assert(vis_of_paren(m.skip(i as int), cur_pre) == vis_of_paren(
                m.skip(i as int + 1), cur));
        }
        i = i + 1;
    }
    proof {
        assert(m.skip(m.len() as int) =~= Seq::<TokenModel>::empty());
    }
    cur
}

/// Clone the tokens of `buffer` between positions `from` and `to`.
fn clone_range(buffer: &Vec<Token>, from: usize, to: usize) -> (r: Vec<Token>)
    requires
        from <= to <= buffer.len(),
    ensures
        tokens_view(r@) == tokens_view(buffer@).subrange(from as int, to as int),
{
    let mut r: Vec<Token> = Vec::new();
    let mut k: usize = from;
    while k < to
        invariant
            from <= k <= to <= buffer.len(),
            r.len() == k - from,
            forall|j: int|
                0 <= j < r.len() ==> token_view(#[trigger] r@[j]) == token_view(
                    buffer@[from + j]),
        decreases to - k,
    {
        let tok = buffer[k].clone();
        r.push(tok);
        k = k + 1;
    }
    proof {
        lemma_tokens_view_len(r@);
        lemma_tokens_view_len(buffer@);
        assert forall|j: int| 0 <= j < r@.len() implies tokens_view(r@)[j] == tokens_view(
            buffer@).subrange(from as int, to as int)[j] by {
            lemma_tokens_view_index(r@, j);
            lemma_tokens_view_index(buffer@, from + j);
        }
        assert(tokens_view(r@) =~= tokens_view(buffer@).subrange(from as int, to as int));
    }
    r
}

/// The scanner: the token buffer of one declaration and the scan offset
/// into it.
pub struct Cursor {
    /// The flat token sequence being scanned.
    pub buffer: Vec<Token>,
    /// The current scan position.
    pub offset: usize,
}

impl Cursor {
    /// A cursor at the start of the given token sequence.
    pub fn new(tokens: Vec<Token>) -> (c: Cursor)
        ensures
            c.buffer == tokens,
            c.offset == 0,
    {
        Cursor { buffer: tokens, offset: 0 }
    }

    /// Scan the whole buffer from the current offset and return the
    /// structured description, or `IdentNotFound` when no name could be
    /// located.
    #[verifier::loop_isolation(false)]
    pub fn parse(&mut self) -> (r: Result<ParsedTokenStream, ParseError>)
        ensures
            final(self).buffer == old(self).buffer,
            old(self).offset <= old(self).buffer.len() ==> final(self).offset == old(
                self).buffer.len(),
            ({
                let st = scan(
                    tokens_view(old(self).buffer@),
                    old(self).offset as int,
                    init_state(),
                );
                match r {
                    Ok(p) => st.name is Some && reflects_state(p, st),
                    Err(e) => st.name is None && e == ParseError::IdentNotFound,
                }
            }),
            old(self).offset == 0 ==> parse_obeys(tokens_view(old(self).buffer@), r),
    {
        let ghost m = tokens_view(self.buffer@);
        let ghost start_i = self.offset as int;
        proof {
            lemma_tokens_view_len(self.buffer@);
        }
        let mut visibility = Visibility::Private;
        let mut name: Option<String> = None;
        let mut generics: Option<Vec<Token>> = None;
        let mut data: Option<Vec<Vec<Token>>> = None;
        let mut i: usize = self.offset;

        while i < self.buffer.len()
            invariant
                start_i <= i as int,
                start_i <= self.buffer.len() ==> i <= self.buffer.len(),
                scan(m, start_i, init_state()) == scan(
                    m,
                    i as int,
                    state_of(visibility, name, generics, data),
                ),
            decreases self.buffer.len() - i,
        {
            let ghost st_pre = state_of(visibility, name, generics, data);
            proof {
                lemma_tokens_view_index(self.buffer@, i as int);
            }
            match &self.buffer[i] {
                Token::Group(_, inner) => {
                    let groups = split_on_commas(inner);
                    data = Some(groups);
                    proof {
                        assert(scan(m, i as int, st_pre) == scan(
                            m,
                            i as int + 1,
                            state_of(visibility, name, generics, data),
                        ));
                    }
                    i = i + 1;
                },
                Token::Ident(s) => {
                    if text_is(s, "pub") {
                        if i + 1 < self.buffer.len() {
                            proof {
                                lemma_tokens_view_index(self.buffer@, i as int + 1);
                            }
                            match &self.buffer[i + 1] {
                                Token::Group(d2, g) => {
                                    if *d2 == Delim::Paren {
                                        visibility = vis_of_paren_group(g, visibility);
                                    } else {
                                        visibility = Visibility::Pub;
                                    }
                                },
                                _ => {
                                    visibility = Visibility::Pub;
                                },
                            }
                        } else {
                            visibility = Visibility::Pub;
                        }
                        proof {
                            assert(scan(m, i as int, st_pre) == scan(
                                m,
                                i as int + 1,
                                state_of(visibility, name, generics, data),
                            ));
                        }
                        i = i + 1;
                    } else if text_is(s, "struct") || text_is(s, "enum") {
                        let mut advanced: usize = 1;
                        if i + 1 < self.buffer.len() {
                            proof {
                                lemma_tokens_view_index(self.buffer@, i as int + 1);
                            }
                            match &self.buffer[i + 1] {
                                Token::Ident(n) => {
                                    name = Some(n.clone());
                                    advanced = 2;
                                },
                                _ => {},
                            }
                        }
                        proof {
                            assert(scan(m, i as int, st_pre) == scan(
                                m,
                                i as int + advanced as int,
                                state_of(visibility, name, generics, data),
                            ));
                        }
                        i = i + advanced;
                    } else {
                        proof {
                            assert(scan(m, i as int, st_pre) == scan(
                                m,
                                i as int + 1,
                                state_of(visibility, name, generics, data),
                            ));
                        }
                        i = i + 1;
                    }
                },
                Token::Punct(c) => {
                    if *c == '<' {
                        proof {
                            assert(find_close_angle(m, i as int) == find_close_angle(
                                m, i as int + 1));
                        }
                        match find_close_angle_from(&self.buffer, i + 1) {
                            Some(j) => {
                                generics = Some(clone_range(&self.buffer, i + 1, j));
                            },
                            None => {},
                        }
                        proof {
                            assert(scan(m, i as int, st_pre) == scan(
                                m,
                                i as int + 1,
                                state_of(visibility, name, generics, data),
                            ));
                        }
                        i = i + 1;
                    } else {
                        proof {
                            assert(scan(m, i as int, st_pre) == scan(
                                m,
                                i as int + 1,
                                state_of(visibility, name, generics, data),
                            ));
                        }
                        i = i + 1;
                    }
                },
                Token::Literal(_) => {
                    proof {
                        assert(scan(m, i as int, st_pre) == scan(
                            m,
                            i as int + 1,
                            state_of(visibility, name, generics, data),
                        ));
                    }
                    i = i + 1;
                },
            }
        }
        self.offset = i;

        let name_val = match name {
            Some(n) => n,
            None => {
                return Err(ParseError::IdentNotFound);
            },
        };

        Ok(ParsedTokenStream { visibility, name: name_val, generics, data })
    }
}

} // verus!
