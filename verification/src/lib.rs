//! Structural metadata extraction from the token sequence of a type
//! declaration.
//!
//! Given the flat sequence of lexical tokens that make up a record or
//! tagged-union declaration (visibility marker, keyword, name, optional
//! generic parameter list, delimited body), the scanner in [`cursor`]
//! produces a [`parsed::ParsedTokenStream`]: declared visibility, name,
//! generic parameter tokens, and the list of member-group tokens.

pub mod cursor;
pub mod laws;
pub mod parsed;
pub mod token;
pub mod visibility;
