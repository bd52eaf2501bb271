//! Core data layer of the document management system: file-type detection and
//! text extraction, search ranking and snippets, prompt assembly, export, and the
//! query construction behind every database operation.

pub mod config;
pub mod text;
pub mod parse;
pub mod security;
pub mod search;
pub mod fusion;
pub mod tokenize;
pub mod index;
pub mod rag;
pub mod sql;
pub mod entities;
pub mod export;
pub mod net;
pub mod ingest;
pub mod commands;
pub mod crypto;
pub mod fields;
pub mod watch;
pub mod ocr;
pub mod assistant;
pub mod settings;
