//! The records kept in the games and snapshot databases, and the diff
//! between two snapshot states. The SQLite storage itself is outside the
//! library.

pub mod games;
pub mod snaps;
