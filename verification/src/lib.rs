//! Expansion of enumeration declarations that carry range members.
//!
//! A declaration lists literal members and range members. Each range member
//! stands for one member per integer between its bounds; its members are named
//! from a template and may come with a membership check over the enumeration's
//! numeric representation.
//!
//! - [`model`]: the declarations, the expanded members, the checks, and the
//!   view of each;
//! - [`expand`]: the expansion, and what it is in mathematical terms;
//! - [`template`] and [`decimal`]: the names of the members of a range;
//! - [`repr`]: the choice of the numeric representation;
//! - [`laws`] and [`placeholders`]: what is proved of every expansion and of
//!   every name.

pub mod decimal;
pub mod expand;
pub mod laws;
pub mod model;
pub mod placeholders;
pub mod repr;
pub mod template;
