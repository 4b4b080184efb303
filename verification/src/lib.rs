/// Shared arithmetic: spec-level division, powers of ten, and digit counts.
pub mod algorithms;
/// Some balanced [`Decimal`] variants.
pub mod aliases;
/// The scale constants derived from the digit count.
pub mod cheats;
/// Core decimal type & operations.
pub mod decimal;
/// Canonical decimal text: formatting and parsing.
pub mod display;
/// Widening conversions between the balanced variants.
pub mod from;
/// Full multiplication implementations for underlying integers.
pub mod full_mul_div;
/// Trait definition for underlying integers.
pub mod integer;

pub use aliases::{Int128_18, Int64_9, Uint128_18, Uint64_9};
pub use cheats::Cheats;
pub use decimal::Decimal;
pub use display::ParseDecimalError;
pub use full_mul_div::FullMulDiv;
pub use integer::{Primitive, ScaledInteger, SignedScaledInteger};
