pub mod seredere;
pub mod word;
pub mod post;
pub mod address;
pub mod message;
