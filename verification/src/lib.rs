//! A schema language for JSON-like data and a validator for it.
//!
//! A schema takes exactly one of eight forms. [`Schema::from_serde`] builds a
//! checked schema from its wire representation, [`Schema::into_serde`] goes
//! back, and [`Validator::validate`] lists where an instance departs from a
//! schema.
//!
//! Every function is verified against a model of its data: `model` and
//! `json` hold the values of schemas and instances, `wire` says what the
//! conversions compute, `semantics` what a validation run finds, and `laws`
//! what holds of the conversions whatever the input. Maps are lists of
//! entries, so that the order in which errors are found is part of what is
//! stated.
pub mod errors;
pub mod json;
pub mod laws;
pub mod model;
pub mod pointer;
pub mod schema;
pub mod semantics;
pub mod timestamp;
pub mod validator;
pub mod wire;

pub use errors::JddfError;
pub use json::{Json, Number};
pub use schema::{Form, Schema, Serde, SerdeDiscriminator, Type};
pub use validator::{Config, Token, ValidationError, Validator};
