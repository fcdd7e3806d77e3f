//! Constant-time Base64 encoding and decoding, with a small DER encoder that
//! can embed Base64 payloads.
pub mod ct;
pub mod variant;
pub mod length;
pub mod errors;
pub mod model;
pub mod block;
pub mod encoding;
pub mod laws;
pub mod der;
pub mod values;
pub mod time;
