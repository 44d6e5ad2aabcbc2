//! GPX: the calendar and clock times GPX files carry, the text they hold,
//! the elements a reader walks, and the times a ride is given.

pub mod date;
pub mod text;
pub mod read;
pub mod ride;
pub mod scan;
