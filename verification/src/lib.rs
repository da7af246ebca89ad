//! A ledger of projects kept as plain-text documents, one document per
//! project.
//!
//! A document is read into a project record with its tasks (`parse`), the
//! projects of a directory are listed with the active ones first
//! (`listing`), and a document is changed in one way only: the checkbox of
//! one task is flipped (`toggle`). `consistency` states what reading and
//! changing have to do with each other. The library works on text that it
//! is handed; finding, reading and writing files is left to its caller.

pub mod consistency;
pub mod lines;
pub mod listing;
pub mod model;
pub mod naming;
pub mod parse;
pub mod scan;
pub mod text;
pub mod toggle;
