//! LBRY-shaped blob handling for a download superpeer: stream descriptors,
//! SHA-384 blob identities, AES-256-CBC content blobs, the request/response
//! framing spoken over a bidirectional stream, and pasteable tickets.

pub mod hexcodec;
pub mod digest;
pub mod text;
pub mod aescbc;
pub mod lbry_blob;
pub mod sd_json;
pub mod pack;
pub mod fetch;
pub mod protocol;
pub mod ticket;
pub mod media;
