//! The binary wire format: what each value looks like as bytes, and the
//! functions that write and read it.

pub mod format;
pub mod decode;
pub mod encode;
