//! Markdown + YAML quiz banks, checked and rendered: the print sheet, the
//! answer key, the Canvas QTI package and the Word exam.
pub mod diagram;
pub mod error;
pub mod export;
pub mod label;
pub mod md;
pub mod model;
pub mod naming;
pub mod parse;
pub mod path;
pub mod quiz;
pub mod text;
