//! The database-independent half of an ODBC driver.

pub mod bind;
pub mod connect;
pub mod connect_attr;
pub mod cursor;
pub mod desc;
pub mod descriptor;
pub mod diag;
pub mod diagnostics;
pub mod env;
pub mod errors;
pub mod escape;
pub mod handles;
pub mod params;
pub mod text;
pub mod types;
pub mod utf16;
