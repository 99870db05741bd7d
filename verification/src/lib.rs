pub mod engine;
pub mod expr;
pub mod glyph;
pub mod layout_tree;
pub mod parser;
pub mod style;
pub mod terminal;
pub mod widget;
