pub mod mapper;
pub mod registry;
