//! An input-method composition engine: syllable segmentation of a raw
//! romanized keystroke stream, dictionary-backed candidate composition,
//! and the session state machine that tracks candidate confirmation.

pub mod context;
pub mod dict;
pub mod dictionary;
pub mod engine;
pub mod filter;
pub mod key_event;
pub mod model;
pub mod pinyin;
pub mod processor;
pub mod segmenter;
pub mod session;
pub mod strutil;
pub mod translator;
