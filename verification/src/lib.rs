pub mod shape;
pub mod rotate;
pub mod cutting;
pub mod stack;
pub mod search;
pub mod types;
