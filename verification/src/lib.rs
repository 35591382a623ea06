//! Decoder for hex-text-encoded BER-TLV data elements, as found in
//! smart-card (ICC) payloads: tag recognition with the two-byte tag
//! extension rule, short- and long-form length decoding, value
//! extraction, and registry-driven validation.

pub mod decode;
pub mod error;
pub mod hex;
pub mod laws;
pub mod output;
pub mod registry;

pub use decode::decode_with_registry;
pub use decode::parse_icc;
pub use decode::unhexify_length;
pub use error::IccError;
pub use output::OutputMap;
pub use hex::upper_string;
pub use registry::get_tag_data;
pub use registry::Registry;
pub use registry::TagData;
