//! A small library for date-stamped daily notes: calendar-date arithmetic,
//! `YYYY-MM-DD` formatting, the note template and its file path, and the
//! decisions a daily-note command makes (configuration, when to write).

pub mod date;
pub mod note;
pub mod render;
