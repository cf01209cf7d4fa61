//! A small template language for markup: directives in `{{ ... }}` define
//! templates that can extend and import one another, and are rendered
//! against a tree of data.
//!
//! [`compiler`] turns source text into statements, [`renderer`] keeps the
//! templates and renders them, [`value`] is the data they are rendered
//! against, and [`text`] holds what the others need to know of text.
pub mod compiler;
pub mod renderer;
pub mod text;
pub mod value;
