//! What holds of the library as a whole, beyond what single functions promise.

pub mod arranged;
pub mod counted;
pub mod grouped;
pub mod lineage;
pub mod selected;
pub mod session;
pub mod shown;
pub mod viewed;
pub mod warned;
