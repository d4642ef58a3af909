//! A reader for ParaVision / JCAMP-DX parameter files.
//!
//! Such a file is a sequence of records, one per line: meta records
//! (`##TITLE=...`) and parameters (`##$NAME=...`). A parameter is a scalar, a
//! string in angle brackets, or an array whose items follow its header on one
//! or more lines. `parse_paravision_params` reads a whole text; `Parser`
//! takes it one line at a time.

pub mod atom;
pub mod laws;
pub mod number;
pub mod parser;
pub mod record;
pub mod table;
pub mod text;
pub mod value;

pub use atom::{parse_atom, PvAtom};
pub use parser::{parse_paravision_params, Parser, PvError, PvParams};
pub use record::{normalize_key, parse_angle_brackets, parse_dims, split_key_value};
pub use table::Table;
pub use value::PvValue;
