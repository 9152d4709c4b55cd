//! What holds of a chain as a whole.

pub mod decisions;
pub mod durability;
pub mod history;
pub mod interruption;
pub mod operations;
pub mod receipts;
pub mod recovery;
pub mod replay;
pub mod requests;
pub mod success;
pub mod values;
