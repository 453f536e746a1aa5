pub mod assoc;
pub mod holder;
pub mod laws;
pub mod payload;
pub mod search;
pub mod segment;
pub mod tls;
pub mod topk;
pub mod types;
pub mod update;
