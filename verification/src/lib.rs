//! Column-wise CSV normalization: trims every field, reduces designated
//! columns to their ASCII digits, and canonicalizes designated date columns
//! to the `MM/DD/YYYY` form, leaving the header row untouched.

pub mod csvio;
pub mod dates;
pub mod rules;
pub mod table;
pub mod text;
