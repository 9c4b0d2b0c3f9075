//! Capabilities of input units and buffers, and the buffer manager.

mod bufref;
mod manager;
mod units;

pub use self::bufref::BufRef;
pub use self::manager::BufferManager;
pub use self::units::Unit;
