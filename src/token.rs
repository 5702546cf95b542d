//! The token model that declarations are scanned from.

use vstd::prelude::*;

verus! {

/// One tree of a token stream: a leaf, or a delimited group of trees.
pub enum TokenTree {
    /// An identifier or keyword, by its text.
    Ident(String),
    /// A single punctuation character.
    Punct(char),
    /// A literal, by its source text.
    Literal(String),
    /// A delimited group and the trees inside it.
    Group(Vec<TokenTree>),
}

/// How an endpoint carries its arguments.
#[derive(Clone, Copy, Debug, PartialEq, Eq, Structural)]
pub enum Style {
    /// Arguments travel one by one in the request path or its query string.
    Query,
    /// Arguments travel together in one structured request body.
    Body,
}

} // verus!
