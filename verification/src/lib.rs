//! Library behind a terminal helper for grading many student repositories:
//! a roster of students with grades and comments, a spreadsheet codec,
//! canonical numeric grade text, the keystroke-driven controller state
//! machine, the plans for background fetch and grade jobs, and the pure
//! computations of the view layer.

pub mod configs;
pub mod csvtext;
pub mod jobs;
pub mod model;
pub mod numtext;
pub mod roster;
pub mod text;
pub mod view;
