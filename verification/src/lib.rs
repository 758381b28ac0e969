//! Authentication of location telemetry: a fixed-profile HMAC-SHA256 token
//! scheme — structural parsing from raw bytes, signature verification,
//! temporal bounds, anti-replay — together with the offline PIN-based
//! key-provisioning workflow that produces the shared secret.
//!
//! The pipeline lives in [`token`], built on the segment codec
//! [`base64url`], the flat JSON reader [`jsonflat`], the claim rules in
//! [`claims`], the constant-time signature check in [`sigverify`], the
//! clock rules in [`temporal`] and the identifier set in [`replay`].
//! Provisioning lives in [`provision`] and [`secret`], on the hex codec
//! [`hexcodec`]. Coordinates and times are held as plain integers —
//! millionths of a degree, whole seconds — so that every rule about them
//! is stated and checked exactly.

pub mod base64url;
pub mod claims;
pub mod daemon_config;
pub mod errors;
pub mod hexcodec;
pub mod jsonflat;
pub mod provision;
pub mod replay;
pub mod response;
pub mod secret;
pub mod sigverify;
pub mod temporal;
pub mod token;
pub mod webmisc;
