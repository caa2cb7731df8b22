pub mod user;
pub mod quiz;
pub mod challenge;
