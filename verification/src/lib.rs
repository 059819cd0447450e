//! Typed models for the Kubernetes metrics APIs, together with the numeric
//! codecs they rely on: resource-quantity strings (`"1848836Ki"`,
//! `"196382978n"`), Go-style duration strings (`"23.5s"`), and the JSON wire
//! form of node, pod, custom and external metric values.

use vstd::prelude::*;

pub mod codec;
pub mod custom_metrics;
pub mod decimal;
pub mod duration;
pub mod external_metrics;
pub mod identity;
pub mod json;
pub mod meta;
pub mod quantity;
pub mod v1beta1;

pub use quantity::QuantityParseError;

verus! {

/// Builds a default value; a small convenience shared by constructors.
pub fn default<T: Default>() -> (r: T)
    ensures
        call_ensures(T::default, (), r),
{
    T::default()
}

} // verus!
