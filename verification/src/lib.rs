//! Codec for the SSPM binary rhythm-map container and the PHXM archive
//! variant: typed little-endian cursors over in-memory byte streams, a
//! closed tagged value model with a per-file schema registry, and verified
//! decode/encode passes that tolerate truncated or corrupt input.

pub mod error;
pub mod fbits;
pub mod io;
pub mod laws;
pub mod le;
pub mod map;
pub mod phxm;
pub mod sspm;
pub mod value;
