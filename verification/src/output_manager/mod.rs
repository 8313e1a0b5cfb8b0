//! The wallet's output manager storage: outputs partitioned by where they
//! stand in their life, the bundles of in-flight transactions, and the key
//! manager's counter.

pub mod clock;
pub mod consistency;
pub mod database;
pub mod error;
pub mod memory_db;
pub mod store_laws;
pub mod store_state;
