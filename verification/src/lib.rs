//! Maps IP addresses to the autonomous system that announces them.
//!
//! A map is built once from tab-separated range records and then answers
//! longest-prefix-match queries. Ranges are first cut into CIDR blocks,
//! organisation names are interned, and each block is stored in a prefix table.

pub mod addr;
pub mod range;
pub mod table;
pub mod types;
pub mod interner;
pub mod text;
pub mod literal;
pub mod error;
pub mod parser;
pub mod map;
pub mod display;
pub mod source;
pub mod builder;
pub mod ingest;

pub use crate::addr::{IpAddr, IpNetwork};
pub use crate::builder::Builder;
pub use crate::error::{Error, IoError, IoErrorKind, ParseErrorKind, Warning};
pub use crate::map::{AsnInfo, AsnInfoView, IpAsnMap};
