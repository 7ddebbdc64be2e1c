//! A read-only view of a directory in which Jupyter notebooks are transformed on the fly.
//!
//! Every file of the directory shows as it is, but for the notebooks among them, which show
//! either without their outputs or as Python scripts. `transform` says what a notebook turns
//! into, `fs` what the view answers to the requests of a file system, and `laws` what holds
//! across requests.

pub mod attr;
pub mod fs;
pub mod json;
pub mod laws;
pub mod path;
pub mod session;
pub mod text;
pub mod transfer;
pub mod transform;
