//! Verified core of a client for FINEID smart cards.
pub mod apdu;
pub mod ascii;
pub mod atr;
pub mod auth;
pub mod backend;
pub mod ber;
pub mod bytes;
pub mod can;
pub mod card_access;
pub mod cert_state;
pub mod crl;
pub mod crypto;
pub mod der;
pub mod identity;
pub mod ocsp;
pub mod oid;
pub mod pace;
pub mod pin;
pub mod pin_cache;
pub mod pin_retry_risk;
pub mod pkcs15;
pub mod reader;
pub mod render;
pub mod revocation;
pub mod rng;
pub mod secure_messaging;
pub mod sign;
pub mod signing_session;
pub mod t0;
pub mod text;
pub mod transport;
pub mod trust_roots;
pub mod x509;
