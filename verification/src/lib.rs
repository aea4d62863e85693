//! Reconciles the OneCRL revocation list with the keys of a local
//! `cert_storage` database: the key codec, the record model and the set logic.

pub mod cert_storage;
pub mod codec;
pub mod diagnostics;
pub mod gathering;
pub mod one_crl;
pub mod reconcile;
pub mod record;
pub mod revocation_set;
pub mod transport;
