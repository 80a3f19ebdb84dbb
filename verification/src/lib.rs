//! Logic of `dotest`, a terminal front end for `dotnet test`.

pub mod commands;
pub mod domain;
pub mod numerals;
pub mod order;
pub mod seqs;
pub mod text;
pub mod text_laws;
pub mod ui;
pub mod unicode;
