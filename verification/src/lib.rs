//! Core logic of a visual-novel library manager: cleaning of incoming data,
//! game aggregate rules, listing queries and name sorting, user settings,
//! schema steps, backup and WebDAV planning, and the PROPFIND answer reader.

pub mod text;
pub mod json;
pub mod json_access;
pub mod seqs;
pub mod order;
pub mod path;
pub mod dto;
pub mod webdav;
pub mod settings;
pub mod backup;
pub mod games;
pub mod name_sort;
pub mod migration;
pub mod query;
pub mod xml;
