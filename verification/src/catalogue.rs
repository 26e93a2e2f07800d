//! Catalogues of types.
//!
//! A catalogue of types answers, about an object identifier, which type has it. The answer
//! `Ok(None)` is that it stands for no type and the server is to infer one; an error is
//! that no supported type has it. The library asks such a catalogue, and hands the types
//! on as it got them.
use vstd::prelude::*;

verus! {

/// A catalogue as a mathematical function: its answer about each object identifier, or
/// `None` where it has an error for one.
pub type Catalogue<T> = spec_fn(u32) -> Option<Option<T>>;

/// `lookup` gives the answers of `catalogue`.
pub open spec fn computes<T, E, F: Fn(u32) -> Result<Option<T>, E>>(
    lookup: F,
    catalogue: Catalogue<T>,
) -> bool {
    forall|oid: u32, answer: Result<Option<T>, E>| #[trigger]
        lookup.ensures((oid,), answer) ==> catalogue(oid) == match answer {
            Ok(found) => Some(found),
            Err(_) => None,
        }
}

/// `lookup`, asked about the identifiers in their order, answered with these types, and
/// had an error for the identifier behind them, if there is one.
pub open spec fn looked_up<T, E, F: Fn(u32) -> Result<Option<T>, E>>(
    lookup: F,
    oids: Seq<u32>,
    types: Seq<Option<T>>,
) -> bool {
    &&& types.len() <= oids.len()
    &&& forall|i: int|
        0 <= i < types.len() ==> lookup.ensures(
            (oids[i],),
            Ok::<Option<T>, E>(#[trigger] types[i]),
        )
    &&& types.len() < oids.len() ==> exists|error: E|
        lookup.ensures((oids[types.len() as int],), Err::<Option<T>, E>(error))
}

} // verus!
