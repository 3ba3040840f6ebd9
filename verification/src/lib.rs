//! A word-search puzzle generator: a square grid of letters in which a list
//! of words is hidden along straight lines in any of eight directions.

pub mod alphabet;
pub mod board;
pub mod catalog;
pub mod error;
pub mod generator;
pub mod geometry;
pub mod placement;
pub mod random;
pub mod search;
pub mod select;
pub mod wordsearch;
