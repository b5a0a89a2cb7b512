//! Data and logic behind the HTML pages.
pub mod search;
