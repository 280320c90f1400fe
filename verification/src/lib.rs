//! Row grouping for a grid view: the rows of a table are partitioned into
//! ordered groups by the value a designated field holds for each row, and the
//! groups are kept correct as rows, fields and membership change.

pub mod action;
pub mod controller;
pub mod default_controller;
pub mod entities;
pub mod group;
pub mod partition;
pub mod placing;
pub mod reconcile;
pub mod select_controller;
pub mod user_server;
