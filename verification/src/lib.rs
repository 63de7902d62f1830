//! Conformance guard for data-product responses.
//!
//! A response of a data product is held to the field contract that governs it in
//! the catalog. Every divergence is a drift: a field that is not in the contract,
//! a required field that is absent, a field of another type than declared, a
//! sensitive field that is present. By the action set for its kind a drift is
//! ignored, logged, reported, repaired by stripping the field, or reason to
//! withhold the response.
//!
//! - [`conformance`] finds the drifts of a record and decides on them;
//!   [`records`] and [`envelope`] find the records of a response and write them
//!   back; [`guard`] puts the three together; [`request`] says which requests
//!   are guarded.
//! - [`cache`] and [`fetch`] look up a contract, one operation at a time, and
//!   [`catalog`] builds it from what the catalog says. The caller performs the
//!   operations.
//! - [`json`], [`text`], [`field_set`], [`timing`], [`config`] and [`cdgc`] hold
//!   what these work with.
//! - [`laws`] states what holds across them; [`decision_laws`], [`document_laws`],
//!   [`response_laws`], [`request_laws`], [`catalog_laws`], [`fetch_laws`] and
//!   [`view_laws`] say of each operation, and of each model, what it must satisfy.

pub mod cache;
pub mod catalog;
pub mod catalog_laws;
pub mod cdgc;
pub mod config;
pub mod conformance;
pub mod decision_laws;
pub mod document_laws;
pub mod envelope;
pub mod fetch;
pub mod fetch_laws;
pub mod field_set;
pub mod guard;
pub mod json;
pub mod laws;
pub mod records;
pub mod request;
pub mod request_laws;
pub mod response_laws;
pub mod text;
pub mod timing;
pub mod view_laws;
