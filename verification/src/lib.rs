//! Verified core of an account-authentication service: session-token issue
//! and verification, request interception with role-based authorization, and
//! the email-verification-code lifecycle.

pub mod account;
pub mod admin;
pub mod b64;
pub mod claims;
pub mod codes;
pub mod config;
pub mod email;
pub mod interceptor;
pub mod jsonc;
pub mod schema;
pub mod service;
pub mod strutil;
pub mod token;
