//! The engine of a live viewer for streamed SQL query logs: it keeps the
//! records that come in, gathers them into groups, lays groups and records
//! out as one list of rows, moves through the content of a record, and keeps
//! the selection on its record while more records arrive. Drawing, the socket
//! and the keyboard are left to the program around it.

pub mod buffer;
pub mod format;
pub mod format_laws;
pub mod group;
pub mod item;
pub mod keys;
pub mod nav;
pub mod nav_laws;
pub mod palette;
pub mod record;
pub mod scroll;
pub mod select;
pub mod text;
pub mod time;
pub mod uids;
pub mod viewer;
