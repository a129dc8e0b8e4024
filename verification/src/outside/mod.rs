//! The seams to code that is not verified here. Every contract in these files
//! is believed, not proved: it says what the code behind it does, as far as the
//! rest of the library relies on it.

pub mod ar_file;
pub mod codec;
pub mod host_path;
pub mod io;
pub mod tar_file;
pub mod text;
