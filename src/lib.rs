pub mod access_token;
pub mod channel;
pub mod clock;
pub mod command;
pub mod content;
pub mod error;
pub mod keys;
pub mod listing;
pub mod names;
pub mod order;
pub mod signature;
pub mod storage;
pub mod user;
pub mod xml;
