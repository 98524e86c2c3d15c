//! Baryon: the verified core of a modal text editor.

pub mod coords;
pub mod lines;
pub mod scroll;
pub mod layout;
pub mod undo;
pub mod selection;
pub mod highlight;
pub mod text;
pub mod words;
pub mod edits;
pub mod diagnostics;
pub mod pipeline;
pub mod startup;
pub mod commands;
pub mod minimap;
pub mod ecs;
pub mod status;
pub mod settings;
pub mod keys;
pub mod prompt;
pub mod folding;
pub mod resolver;
pub mod search;
pub mod fold_ranges;
pub mod session;
pub mod projection;
pub mod word_object;
pub mod semantic;
