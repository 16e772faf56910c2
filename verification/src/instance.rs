//! The product-line instance descriptor.

use vstd::prelude::*;

verus! {

/// Declares exactly which product-line instance ran an election: the casting
/// model, cryptographic suite, and enabled features. It is embedded in the
/// signed election configuration.
#[derive(Debug, Clone, PartialEq, Eq)]
pub struct InstanceDescriptor {
    /// Schema version of this artifact.
    pub schema_version: String,
    /// Product identifier, e.g. `"bmvs"`.
    pub product: String,
    /// Casting model, e.g. `"bmvs"` (ballot-marking + tabulator).
    pub mode: String,
    /// Cryptographic suite identifier, e.g. `"ristretto255-ed25519-sha3"`.
    pub crypto_suite: String,
    /// Enabled product-line features, by feature-catalog identifier.
    pub features: Vec<String>,
    /// Minimum anonymity-set size for published per-group results.
    pub anonymity_floor: u32,
}

} // verus!
