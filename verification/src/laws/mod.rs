//! What holds of the library as a whole, stated of what its functions are given
//! and what they give.

pub mod backups;
pub mod contents;
pub mod copies;
pub mod dashboard;
pub mod dates;
pub mod finding;
pub mod index;
pub mod organizing;
pub mod photos;
pub mod places;
pub mod records;
pub mod scanning;
pub mod settings;
pub mod texts;
