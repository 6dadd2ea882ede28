pub mod text;
pub mod repository;
pub mod forge;
pub mod remote_grammar;
