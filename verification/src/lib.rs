//! A record with a fixed header and a trailing run of equally sized elements,
//! together with the byte layout such a record has in memory.

pub mod layout;
pub mod record;
