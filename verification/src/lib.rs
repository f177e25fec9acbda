//! Luciole: the verified core of a local-first dictation, correction and
//! meeting-notes companion.

pub mod text;
pub mod paths;
pub mod asr;
pub mod glossary;
pub mod settings;
pub mod clock;
pub mod state;
pub mod commands;
pub mod meeting;
pub mod llm;
pub mod system;
