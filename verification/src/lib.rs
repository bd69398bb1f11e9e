pub mod basics;
pub mod laws;
pub mod search;
