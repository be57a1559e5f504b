//! The interface of a terminal canvas: its cards, their chrome and what they say.
#![allow(unused_imports)]

pub mod a11y;
pub mod agent;
pub mod agent_laws;
pub mod browser;
pub mod browser_laws;
pub mod canvas;
pub mod chrome_laws;
pub mod chrome_text;
pub mod clipboard;
pub mod clipboard_laws;
pub mod double;
pub mod file;
pub mod file_laws;
pub mod fonts;
pub mod frames;
pub mod frames_laws;
pub mod highlight;
pub mod highlight_laws;
pub mod icons;
pub mod keys;
pub mod kit;
pub mod list;
pub mod markdown;
pub mod markdown_laws;
pub mod order;
pub mod sorted;
pub mod table;
pub mod text;
pub mod text_laws;
pub mod theme;
pub mod time;
