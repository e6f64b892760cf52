//! Course catalog extraction: text normalisation, row parsing and the
//! incremental build of the subject / course / section tree.

pub mod assoc;
pub mod catalog;
pub mod clock;
pub mod details;
pub mod dom;
pub mod entity;
pub mod error;
pub mod numeral;
pub mod pattern;
pub mod request;
pub mod rows;
pub mod run;
pub mod scrape;
pub mod structs;
pub mod text;
pub mod titles;
