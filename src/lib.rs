//! The core of a small web browser: a markup parser that recovers a
//! normalised document from any text, a style sheet parser, and the cascade
//! that resolves each element's style, all verified against their contracts.
pub mod cascade;
pub mod colors;
pub mod css_parser;
pub mod html_parser;
pub mod layout;
pub mod markup;
pub mod network;
pub mod paint;
pub mod parser;
pub mod strmap;
pub mod tabs;
pub mod text;
