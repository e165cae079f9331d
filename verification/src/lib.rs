//! The schema model behind the `WireView` and `WireBuilder` derives: how a
//! declared struct, bitfield or selector enum is read into a physical layout,
//! and the rules that layout must obey before any code is generated.

pub mod bytes;
pub mod text;
pub mod syntax;
pub mod scalar;
pub mod sizes;
pub mod errors;
pub mod model;
pub mod attributes;
pub mod controller;
pub mod normalization;
pub mod computed;
pub mod validation;
pub mod schema;
pub mod messages;
pub mod naming;
pub mod recursive;
pub mod recursive_object;
pub mod recursive_demand;
pub mod bitfield;
pub mod enumeration;
pub mod builder;
pub mod dispatch;
pub mod frame;
pub mod geometry;
