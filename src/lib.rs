//! A number-guessing game whose decisions are proved, together with a few
//! small helpers on integers and rectangles.

pub mod basics;
pub mod game;
pub mod parse;
pub mod rect;
