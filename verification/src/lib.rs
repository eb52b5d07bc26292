//! Composable, escaped-by-default HTML markup.

pub mod html;
pub mod model;
pub mod markup;
pub mod attrs;
pub mod template;
pub mod render;
pub mod cursor;
pub mod dsl;
pub mod nodes;
pub mod emit;
pub mod code_law;
pub mod component;

pub use attrs::{AttributeName, AttributeValue, Attributes, ClassValue};
pub use markup::Markup;
pub use render::Render;
