pub mod fault;
pub mod text;
pub mod security;
pub mod entities;
pub mod store;
pub mod codec;
pub mod ops;
pub mod routes;
