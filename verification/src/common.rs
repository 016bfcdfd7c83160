//! How a function describes itself to the engine: the types of its arguments
//! and the fields of the record in which its partial state travels.

use vstd::prelude::*;

verus! {

/// The type of a scalar in a signature or in a field of a partial state.
#[derive(Clone, Copy, Debug, PartialEq, Eq, Hash, Structural)]
pub enum ScalarKind {
    /// Signed integer of 64 bits.
    Int64,
    /// Unsigned integer of 64 bits.
    UInt64,
    /// Binary floating point number of 64 bits.
    Float64,
    /// Text.
    Utf8,
    /// List of signed integers of 64 bits.
    Int64List,
    /// List of unsigned integers of 64 bits.
    UInt64List,
}

/// How the result of a function depends on when it is evaluated.
#[derive(Clone, Copy, Debug, PartialEq, Eq, Hash, Structural)]
pub enum Volatility {
    /// The same arguments always give the same result.
    Immutable,
    /// The same arguments give the same result within one query.
    Stable,
    /// The result may change from one row to the next.
    Volatile,
}

/// The arguments that a function takes: exactly these types, in this order.
#[derive(Debug, PartialEq, Eq, Hash)]
pub struct Signature {
    pub arguments: Vec<ScalarKind>,
    pub volatility: Volatility,
}

/// One field of the record in which a partial state travels.
#[derive(Clone, Copy, Debug, PartialEq, Eq, Hash)]
pub struct StateField {
    pub name: &'static str,
    pub kind: ScalarKind,
    pub nullable: bool,
}

} // verus!
