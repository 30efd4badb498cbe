//! The newer film-list format, which may give a film its own poster and a
//! video address.
pub mod csv;
