//! A navigator for a directory of HTML files: it finds the files, takes their titles, and
//! writes the pages that lead to them. Comments and tags of the files are kept in a
//! database.

pub mod clock;
pub mod database;
pub mod digest;
pub mod escape;
pub mod files;
pub mod heading;
pub mod names;
pub mod paths;
pub mod report;
pub mod scan;
pub mod sitemap;
pub mod tables;
pub mod tags;
pub mod text;
pub mod title;
