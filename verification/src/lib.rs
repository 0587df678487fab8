//! Decoders and encoders for a family of binary game-asset container
//! formats: bucketed-hash archive indexes (BHD), sequential binders (BND,
//! BHF), flat archives (DAT), compressed containers (DCX) and the
//! self-describing tabular record pair (PARAM + PARAMDEF).
pub mod bhd;
pub mod bhf;
pub mod bits;
pub mod bnd;
pub mod common;
pub mod dat;
pub mod dcx;
pub mod errors;
pub mod name_hashes;
pub mod param;
pub mod paramdef;
pub mod strutil;

pub use bits::has_flag;
pub use bits::mask;
pub use bits::pad;
