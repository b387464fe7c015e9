pub mod change;
pub mod db;
pub mod embed;
pub mod embedding;
pub mod error;
pub mod indexing;
pub mod json;
pub mod order;
pub mod paths;
pub mod search;
pub mod sql;
pub mod text;
