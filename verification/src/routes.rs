pub mod auth;
pub mod challenge;
pub mod quiz;
