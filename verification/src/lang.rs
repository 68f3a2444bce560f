//! Display-name registry scaffolding for localized region names.

use std::collections::HashMap;

use vstd::prelude::*;

use crate::util::ServerCode;

verus! {

/// The display names known for one language.
pub struct LanguageRegistry {
    /// The language these names belong to.
    pub code: LanguageCode,
    /// Display names by region code.
    pub server_displays: HashMap<ServerCode, ServerDisplay>,
}

/// How one region is displayed.
pub struct ServerDisplay {
    /// The region's display name.
    pub name: String,
    /// A prefix shown before the name, if any.
    pub prefix: Option<String>,
}

/// A language tag such as `en-US`.
#[derive(Debug, Clone, PartialEq, Eq, Hash)]
pub struct LanguageCode(pub String);

} // verus!
