//! A local-first volunteer-session log: a validated entry model, a
//! single-slot persistence store, and two export formats (a structured,
//! round-trippable text form, which is also the persisted form, and a
//! tabular form with quoted, escaped fields).

pub mod codec;
pub mod model;
pub mod session;
pub mod store;
pub mod tabular;
pub mod text;
