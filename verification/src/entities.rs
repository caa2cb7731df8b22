pub mod challenge;
pub mod quiz;
