//! What a mapping needs in scope.

pub use crate::asc::FromAscPtr;
pub use crate::data_source;
pub use crate::ethereum::{Block, Event, Transaction, TransactionReceipt};
pub use crate::log;
pub use crate::memory::Memory;
pub use crate::types::{Address, BigDecimal, BigInt, Bytes};
pub use crate::value::{Entity, EntityData, Value};
