pub mod store;
pub mod tags;
pub mod invalidate;
pub mod laws;
