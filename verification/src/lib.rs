//! IPv4 subnet membership.
//!
//! The library parses dotted-decimal addresses (`192.168.1.121`) and subnets
//! in CIDR notation (`192.168.1.0/24`) and decides whether an address lies in
//! a subnet. It decides in two ways, by range and by mask, and proves that
//! the two always agree.
//!
//! Every function is stated against a mathematical model of the text it
//! reads, a sequence of characters, and proved to compute exactly what the
//! model says: which texts are accepted, what they mean, and which error
//! each of the others gets.

pub mod address;
pub mod error;
pub mod mask;
pub mod membership;
pub mod number;
pub mod subnet;
pub mod text;

pub use address::{ip_to_binary, parse_address, IP32_CHUNKS_COUNT, IP32_CHUNK_LENGTH};
pub use error::ParseError;
pub use mask::{mask_to_binary, IP32_LENGTH};
pub use membership::{is_in_subnet_easy_way, is_in_subnet_hard_way};
pub use subnet::parse_subnet;
