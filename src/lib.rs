//! Newton fractal core: polynomials with integer coefficients, the order in
//! which a square field is sampled, the decisions of Newton's iteration, the
//! layout of per-sample colours into an image and its encoding, and the
//! reading of request parameters.
pub mod decimal;
pub mod field;
pub mod newton;
pub mod polynomial;
pub mod rendering;
pub mod server;
