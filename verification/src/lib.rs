pub mod bolt;
pub mod db;
pub mod errors;
pub mod pages;
pub mod query;

pub use db::{AnclaOptions, Bucket, DbItem, Info, KeyValue, PageInfo, PageType, DB};
pub use errors::{DatabaseError, Error};
