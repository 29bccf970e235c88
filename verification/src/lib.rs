//! Sigma-protocol proof trees over a discrete-logarithm group: the group
//! element and scalar encodings, the proposition tree, the verifier-side
//! unchecked proof tree, and the codec between proof bytes and that tree.

pub mod bytes;
pub mod challenge;
pub mod codec_proofs;
pub mod dlog_group;
pub mod global_vars;
pub mod serialization;
pub mod sig_serializer;
pub mod sigma_boolean;
pub mod unchecked_tree;
pub mod val_def;
