//! Recovery of obfuscated credentials from the memory of a running
//! target application.
//!
//! The crate is organised around three verified pieces: a keyed byte-wise
//! cipher ([`cipher`]), a credential decoder that combines standard base64
//! with that cipher ([`decryption`]), and a record locator that searches raw
//! memory snapshots for credential records and brute-force-splits them into
//! fields ([`parser`]). The walk over a process's virtual address space is
//! modelled in [`scanner`]; the operating-system calls themselves live with
//! the caller, which feeds their results back through the scan cursor.
//! Picking the target process out of an enumeration is decided in
//! [`discovery`], and the byte-pattern search both of them lean on is in
//! [`search`].

pub mod cipher;
pub mod decryption;
pub mod discovery;
pub mod parser;
pub mod scanner;
pub mod search;
