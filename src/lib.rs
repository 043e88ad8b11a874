//! Builds and reads the multipart MIME messages that cloud-init takes as user data.
//!
//! `make_mime` encodes named fragments, each tagged with a content kind, as one message:
//! an envelope that declares a boundary, then one base64 part per fragment whose kind the
//! `registry` knows. `read_mime` splits such a message back into fragments. Both are
//! specified over the line model in `mime`; `round_trip` proves that reading an encoded
//! message gives the fragments back. `store`, `tooling` and `cloud_config` hold the smaller
//! pieces of logic around the codec.

pub mod text;
pub mod base64_text;
pub mod mime;
pub mod registry;
pub mod boundary;
pub mod cloud_config;
pub mod make_mime;
pub mod read_mime;
pub mod round_trip;
pub mod store;
pub mod tooling;
