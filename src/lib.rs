//! Backend logic of a timetable desktop application: a colour theme read from
//! a small key/value file, and a schedule table kept in a delimited file whose
//! cells can be edited one at a time.

pub mod records;
pub mod table;
pub mod theme;
