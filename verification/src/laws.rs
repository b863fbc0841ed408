//! Properties of the scan that hold for all token sequences.

use vstd::prelude::*;
use crate::cursor::{ParseError, ScanState, init_state, is_pub_marker, is_type_keyword, parse_obeys,
    scan, scan_all};
use crate::parsed::ParsedTokenStream;
use crate::token::TokenModel;
use crate::visibility::Visibility;

verus! {

/// Whether the scan would capture a name at position `j`: a
/// type-introducing keyword immediately followed by an identifier.
pub open spec fn name_settable_at(ts: Seq<TokenModel>, j: int) -> bool {
    is_type_keyword(ts[j]) && j + 1 < ts.len() && ts[j + 1] is Ident
}

/// A scan over tokens without the visibility keyword leaves the
/// visibility of its accumulator untouched.
proof fn lemma_scan_visibility_unchanged(ts: Seq<TokenModel>, i: int, st: ScanState)
    requires
        forall|j: int| i <= j < ts.len() ==> !is_pub_marker(#[trigger] ts[j]),
    ensures
        scan(ts, i, st).visibility == st.visibility,
    decreases ts.len() - i,
{
    if 0 <= i < ts.len() {
        match ts[i] {
            TokenModel::Group(d, inner) => {
                lemma_scan_visibility_unchanged(
                    ts,
                    i + 1,
                    ScanState {
                        members: Some(crate::cursor::split_on_commas_spec(inner)),
                        ..st
                    },
                );
            },
            TokenModel::Ident(s) => {
                if s == "pub"@ {
                    assert(is_pub_marker(ts[i]));
                } else if (s == "struct"@ || s == "enum"@) && i + 1 < ts.len() && ts[i + 1]
                    is Ident {
                    lemma_scan_visibility_unchanged(
                        ts,
                        i + 2,
                        ScanState { name: Some(ts[i + 1]->Ident_0), ..st },
                    );
                } else {
                    lemma_scan_visibility_unchanged(ts, i + 1, st);
                }
            },
            TokenModel::Punct(c) => {
                if c == '<' {
                    match crate::cursor::find_close_angle(ts, i) {
                        Some(j) => {
                            lemma_scan_visibility_unchanged(
                                ts,
                                i + 1,
                                ScanState { generics: Some(ts.subrange(i + 1, j)), ..st },
                            );
                        },
                        None => {
                            lemma_scan_visibility_unchanged(ts, i + 1, st);
                        },
                    }
                } else {
                    lemma_scan_visibility_unchanged(ts, i + 1, st);
                }
            },
            TokenModel::Literal(_) => {
                lemma_scan_visibility_unchanged(ts, i + 1, st);
            },
        }
    }
}

/// A scan over tokens in which no type-introducing keyword is immediately
/// followed by an identifier leaves the name of its accumulator
/// untouched.
proof fn lemma_scan_name_unchanged(ts: Seq<TokenModel>, i: int, st: ScanState)
    requires
        forall|j: int| i <= j < ts.len() ==> !name_settable_at(ts, j),
    ensures
        scan(ts, i, st).name == st.name,
    decreases ts.len() - i,
{
    if 0 <= i < ts.len() {
        match ts[i] {
            TokenModel::Group(d, inner) => {
                lemma_scan_name_unchanged(
                    ts,
                    i + 1,
                    ScanState {
                        members: Some(crate::cursor::split_on_commas_spec(inner)),
                        ..st
                    },
                );
            },
            TokenModel::Ident(s) => {
                if s == "pub"@ {
                    let next = if i + 1 < ts.len() {
                        Some(ts[i + 1])
                    } else {
                        None
                    };
                    lemma_scan_name_unchanged(
                        ts,
                        i + 1,
                        ScanState {
                            visibility: crate::cursor::visibility_after(next, st.visibility),
                            ..st
                        },
                    );
                } else if s == "struct"@ || s == "enum"@ {
                    assert(!name_settable_at(ts, i));
                    lemma_scan_name_unchanged(ts, i + 1, st);
                } else {
                    lemma_scan_name_unchanged(ts, i + 1, st);
                }
            },
            TokenModel::Punct(c) => {
                if c == '<' {
                    match crate::cursor::find_close_angle(ts, i) {
                        Some(j) => {
                            lemma_scan_name_unchanged(
                                ts,
                                i + 1,
                                ScanState { generics: Some(ts.subrange(i + 1, j)), ..st },
                            );
                        },
                        None => {
                            lemma_scan_name_unchanged(ts, i + 1, st);
                        },
                    }
                } else {
                    lemma_scan_name_unchanged(ts, i + 1, st);
                }
            },
            TokenModel::Literal(_) => {
                lemma_scan_name_unchanged(ts, i + 1, st);
            },
        }
    }
}

/// LAW: for a token sequence with no visibility marker, the scan resolves
/// the visibility to `Private` — the variant whose rendering
/// (`Visibility::to_str`) is absent.
pub proof fn lemma_no_marker_gives_private(ts: Seq<TokenModel>)
    requires
        forall|j: int| 0 <= j < ts.len() ==> !is_pub_marker(#[trigger] ts[j]),
    ensures
        scan_all(ts).visibility == Visibility::Private,
{
    lemma_scan_visibility_unchanged(ts, 0, init_state());
}

/// LAW: for a token sequence with no type-introducing keyword followed by
/// an identifier anywhere, parsing fails with `IdentNotFound`.
pub proof fn lemma_no_keyword_ident_fails(
    ts: Seq<TokenModel>,
    r: Result<ParsedTokenStream, ParseError>,
)
    requires
        parse_obeys(ts, r),
        forall|j: int| 0 <= j < ts.len() ==> !name_settable_at(ts, j),
    ensures
        r matches Err(e) && e == ParseError::IdentNotFound,
{
    lemma_scan_name_unchanged(ts, 0, init_state());
}

/// A scan whose accumulator already holds a name keeps holding one.
proof fn lemma_scan_name_monotone(ts: Seq<TokenModel>, i: int, st: ScanState)
    requires
        st.name is Some,
    ensures
        scan(ts, i, st).name is Some,
    decreases ts.len() - i,
{
    if 0 <= i < ts.len() {
        match ts[i] {
            TokenModel::Group(d, inner) => {
                lemma_scan_name_monotone(
                    ts,
                    i + 1,
                    ScanState {
                        members: Some(crate::cursor::split_on_commas_spec(inner)),
                        ..st
                    },
                );
            },
            TokenModel::Ident(s) => {
                if s == "pub"@ {
                    let next = if i + 1 < ts.len() {
                        Some(ts[i + 1])
                    } else {
                        None
                    };
                    lemma_scan_name_monotone(
                        ts,
                        i + 1,
                        ScanState {
                            visibility: crate::cursor::visibility_after(next, st.visibility),
                            ..st
                        },
                    );
                } else if (s == "struct"@ || s == "enum"@) && i + 1 < ts.len() && ts[i + 1]
                    is Ident {
                    lemma_scan_name_monotone(
                        ts,
                        i + 2,
                        ScanState { name: Some(ts[i + 1]->Ident_0), ..st },
                    );
                } else {
                    lemma_scan_name_monotone(ts, i + 1, st);
                }
            },
            TokenModel::Punct(c) => {
                if c == '<' {
                    match crate::cursor::find_close_angle(ts, i) {
                        Some(j) => {
                            lemma_scan_name_monotone(
                                ts,
                                i + 1,
                                ScanState { generics: Some(ts.subrange(i + 1, j)), ..st },
                            );
                        },
                        None => {
                            lemma_scan_name_monotone(ts, i + 1, st);
                        },
                    }
                } else {
                    lemma_scan_name_monotone(ts, i + 1, st);
                }
            },
            TokenModel::Literal(_) => {
                lemma_scan_name_monotone(ts, i + 1, st);
            },
        }
    }
}

/// A scan that still has a type-introducing keyword immediately followed
/// by an identifier ahead of it ends with a name captured.
proof fn lemma_scan_finds_name(ts: Seq<TokenModel>, i: int, st: ScanState)
    requires
        0 <= i,
        exists|j: int| i <= j < ts.len() && name_settable_at(ts, j),
    ensures
        scan(ts, i, st).name is Some,
    decreases ts.len() - i,
{
    let j = choose|j: int| i <= j < ts.len() && name_settable_at(ts, j);
    if name_settable_at(ts, i) {
        reveal_strlit("pub");
        reveal_strlit("struct");
        reveal_strlit("enum");
        assert("pub"@.len() == 3);
        assert("struct"@.len() == 6);
        assert("enum"@.len() == 4);
        lemma_scan_name_monotone(
            ts,
            i + 2,
            ScanState { name: Some(ts[i + 1]->Ident_0), ..st },
        );
    } else {
        assert(i + 1 <= j);
        match ts[i] {
            TokenModel::Group(d, inner) => {
                lemma_scan_finds_name(
                    ts,
                    i + 1,
                    ScanState {
                        members: Some(crate::cursor::split_on_commas_spec(inner)),
                        ..st
                    },
                );
            },
            TokenModel::Ident(s) => {
                if s == "pub"@ {
                    let next = if i + 1 < ts.len() {
                        Some(ts[i + 1])
                    } else {
                        None
                    };
                    lemma_scan_finds_name(
                        ts,
                        i + 1,
                        ScanState {
                            visibility: crate::cursor::visibility_after(next, st.visibility),
                            ..st
                        },
                    );
                } else {
                    lemma_scan_finds_name(ts, i + 1, st);
                }
            },
            TokenModel::Punct(c) => {
                if c == '<' {
                    match crate::cursor::find_close_angle(ts, i) {
                        Some(jj) => {
                            lemma_scan_finds_name(
                                ts,
                                i + 1,
                                ScanState { generics: Some(ts.subrange(i + 1, jj)), ..st },
                            );
                        },
                        None => {
                            lemma_scan_finds_name(ts, i + 1, st);
                        },
                    }
                } else {
                    lemma_scan_finds_name(ts, i + 1, st);
                }
            },
            TokenModel::Literal(_) => {
                lemma_scan_finds_name(ts, i + 1, st);
            },
        }
    }
}

/// LAW: parsing succeeds whenever some type-introducing keyword is
/// immediately followed by an identifier — together with
/// `lemma_no_keyword_ident_fails`, parsing succeeds exactly on such
/// sequences.
pub proof fn lemma_keyword_ident_succeeds(
    ts: Seq<TokenModel>,
    r: Result<ParsedTokenStream, ParseError>,
)
    requires
        parse_obeys(ts, r),
        exists|j: int| 0 <= j < ts.len() && name_settable_at(ts, j),
    ensures
        r is Ok,
{
    lemma_scan_finds_name(ts, 0, init_state());
}

/// A scan that has not yet reached the only type-introducing keyword, at
/// position `k` and immediately followed by an identifier, captures that
/// identifier's text as the name.
proof fn lemma_scan_reaches_keyword(ts: Seq<TokenModel>, i: int, k: int, st: ScanState)
    requires
        0 <= i <= k,
        k + 1 < ts.len(),
        is_type_keyword(ts[k]),
        ts[k + 1] is Ident,
        forall|j: int| 0 <= j < ts.len() && j != k ==> !is_type_keyword(#[trigger] ts[j]),
    ensures
        scan(ts, i, st).name == Some(ts[k + 1]->Ident_0),
    decreases k - i,
{
    if i == k {
        reveal_strlit("pub");
        reveal_strlit("struct");
        reveal_strlit("enum");
        let st2 = ScanState { name: Some(ts[k + 1]->Ident_0), ..st };
        assert("pub"@.len() == 3);
        assert("struct"@.len() == 6);
        assert("enum"@.len() == 4);
        assert(ts[i]->Ident_0 != "pub"@);
        assert(scan(ts, i, st) == scan(ts, k + 2, st2));
        assert forall|j: int| k + 2 <= j < ts.len() implies !name_settable_at(ts, j) by {
            assert(!is_type_keyword(ts[j]));
        }
        lemma_scan_name_unchanged(ts, k + 2, st2);
    } else {
        assert(!is_type_keyword(ts[i]));
        match ts[i] {
            TokenModel::Group(d, inner) => {
                lemma_scan_reaches_keyword(
                    ts,
                    i + 1,
                    k,
                    ScanState {
                        members: Some(crate::cursor::split_on_commas_spec(inner)),
                        ..st
                    },
                );
            },
            TokenModel::Ident(s) => {
                if s == "pub"@ {
                    let next = if i + 1 < ts.len() {
                        Some(ts[i + 1])
                    } else {
                        None
                    };
                    lemma_scan_reaches_keyword(
                        ts,
                        i + 1,
                        k,
                        ScanState {
                            visibility: crate::cursor::visibility_after(next, st.visibility),
                            ..st
                        },
                    );
                } else {
                    lemma_scan_reaches_keyword(ts, i + 1, k, st);
                }
            },
            TokenModel::Punct(c) => {
                if c == '<' {
                    match crate::cursor::find_close_angle(ts, i) {
                        Some(j) => {
                            lemma_scan_reaches_keyword(
                                ts,
                                i + 1,
                                k,
                                ScanState { generics: Some(ts.subrange(i + 1, j)), ..st },
                            );
                        },
                        None => {
                            lemma_scan_reaches_keyword(ts, i + 1, k, st);
                        },
                    }
                } else {
                    lemma_scan_reaches_keyword(ts, i + 1, k, st);
                }
            },
            TokenModel::Literal(_) => {
                lemma_scan_reaches_keyword(ts, i + 1, k, st);
            },
        }
    }
}

/// LAW: for a token sequence whose only type-introducing keyword stands
/// at position `k` and is immediately followed by an identifier, parsing
/// succeeds and the name equals that identifier's text.
///
/// The restriction to a single keyword occurrence is necessary: with
/// several, a keyword can itself be captured as the name of the one
/// before it and be skipped as a keyword, so the identifier after it is
/// not the one kept.
pub proof fn lemma_keyword_ident_names(
    ts: Seq<TokenModel>,
    k: int,
    r: Result<ParsedTokenStream, ParseError>,
)
    requires
        parse_obeys(ts, r),
        0 <= k,
        k + 1 < ts.len(),
        is_type_keyword(ts[k]),
        ts[k + 1] is Ident,
        forall|j: int| 0 <= j < ts.len() && j != k ==> !is_type_keyword(#[trigger] ts[j]),
    ensures
        r matches Ok(p) && p.name@ == ts[k + 1]->Ident_0,
{
    lemma_scan_reaches_keyword(ts, 0, k, init_state());
}

/// LAW: parsing is deterministic — two parse results for the same token
/// sequence are structurally identical: same outcome, and on success the
/// same name, visibility, generics model and member-group model.
pub proof fn lemma_parse_deterministic(
    ts: Seq<TokenModel>,
    r1: Result<ParsedTokenStream, ParseError>,
    r2: Result<ParsedTokenStream, ParseError>,
)
    requires
        parse_obeys(ts, r1),
        parse_obeys(ts, r2),
    ensures
        match (r1, r2) {
            (Ok(p1), Ok(p2)) => p1.name@ == p2.name@ && p1.visibility == p2.visibility
                && p1.generics_model() == p2.generics_model() && p1.members_model()
                == p2.members_model(),
            (Err(e1), Err(e2)) => e1 == e2,
            _ => false,
        },
{
}

} // verus!
