//! Core of a file-sharing service: the identity and session lifecycle
//! (stateless bearer-token issuance, verification, and one-time
//! invalidation) and the sharing-link access-control rules (ownership,
//! expiry, password gating), verified against the collaborator contracts
//! in [`repository`].
//!
//! The identity codec serializes and parses signed session tokens itself
//! ([`b64`], [`digits`], [`claims`], [`identity`]); only the HMAC
//! computation is delegated, behind the trusted boundary in [`jwt`].
//! The services ([`customer_service`], [`file_service`]) orchestrate the
//! stores; [`memory`] provides verified in-memory stores to run them on.
pub mod b64;
pub mod claims;
pub mod customer;
pub mod customer_service;
pub mod digits;
pub mod dto;
pub mod errors;
pub mod file_meta;
pub mod file_service;
pub mod identity;
pub mod jwt;
pub mod memory;
pub mod repository;
pub mod text;
pub mod uid;
