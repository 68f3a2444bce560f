//! Identifier newtypes used as map keys across the wire schema.

use std::collections::HashMap;

use vstd::prelude::*;

verus! {

/// A region/server identifier, such as `de-frankfurt`.
#[derive(Debug, Clone, PartialEq, Eq, Hash)]
pub struct ServerCode(pub String);

/// A two-letter country identifier.
#[derive(Debug, Clone, PartialEq, Eq, Hash)]
pub struct CountryCode(pub String);

/// A map keyed by region codes.
pub type ServerMap<T> = HashMap<ServerCode, T>;

/// A map keyed by country codes.
pub type CountryMap<T> = HashMap<CountryCode, T>;

} // verus!
