//! Decoder, printer state and text layout for ESC/POS thermal-printer streams.
//!
//! A byte stream is matched against a catalog of command definitions, each
//! decoded command either changes the emulated printer's [`context::Context`]
//! or is handed to a [`renderer::CommandRenderer`], and the SVG renderer lays
//! buffered text out into lines of a fixed pixel width.

pub mod constants;
pub mod context;
pub mod segmenter;
pub mod layout;
pub mod encoding;
pub mod command;
pub mod commands;
pub mod catalog;
pub mod decoder;
pub mod markup;
pub mod font;
pub mod svg_renderer;
pub mod renderer;
pub mod dispatcher;
