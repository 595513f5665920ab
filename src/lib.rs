//! Plot and formula execution: the data model of formulae and plots, the
//! `kind:payload` encodings of mounts and inputs, plot graph validation and
//! traversal, and the lowering of a formula into container parameters.

pub mod error;
pub mod model;
pub mod text;
pub mod stringoid;
pub mod lowering;
pub mod ordered;
pub mod formula;
pub mod graph;
pub mod plot;
pub mod validate;
