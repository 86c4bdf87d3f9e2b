//! A verified domain-name registry and registrar.
//!
//! The crate models the registry state machine of a name service: name
//! validation, rent pricing through a cached exchange rate, the
//! register/renew/expire/grace lifecycle, ownership certificates, subdomains,
//! legacy-name reservations with a time-boxed migration window, and exact
//! settlement of payments.
//!
//! The hosting environment (storage, payment transport, the asynchronous
//! oracle round trip and the certificate token subsystem) stays outside: every
//! entry point takes the caller, the current time and the tendered payments as
//! plain values, and the asynchronous exchange-rate refresh is modelled as a
//! two-phase operation through a pending-request table.

pub mod assoc;
pub mod constants;
pub mod data;
pub mod fees;
pub mod laws;
pub mod lifecycle;
pub mod metadata;
pub mod name;
pub mod registry;
pub mod settlement;
