//! Typed placeholders for catalog-resolved column accesses: kept as real
//! types for a later resolution pass, not yet driven by current parsing.

use vstd::prelude::*;

verus! {

/// A plain owned name.
#[derive(Debug, PartialEq, Clone)]
pub struct Ident {
    pub value: String,
}

/// A projected column under its catalog name, plus an optional alias.
#[derive(Debug, PartialEq, Clone)]
pub struct ColumnAccess {
    pub column: Ident,
    pub alias: Option<Ident>,
}

} // verus!
