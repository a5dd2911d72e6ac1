//! Verified core of a login service: e-mail normalisation, request field
//! selection, brute-force risk control, refresh-token rotation and the
//! decisions of the login, refresh and current-user endpoints.

pub mod auth;
pub mod encoding;
pub mod endpoints;
pub mod fields;
pub mod responses;
pub mod risk;
pub mod startup;
pub mod text;
