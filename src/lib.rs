//! Reading, checking and converting fixed-size Vice City save files between
//! their Retail and Steam layouts.

pub mod bytes;
pub mod constants;
pub mod enums;
pub mod libs;
pub mod savefile;
pub mod laws;
