//! A small immediate-mode UI toolkit core: a multi-line text editor model,
//! a JSON line highlighter, text-field editing and widget decisions.
pub mod strutil;
pub mod text_editor;
pub mod input;
pub mod widgets;
