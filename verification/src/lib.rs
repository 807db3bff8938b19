//! Installs a bootc image onto a disk, from a payload the boot media carries.

pub mod account;
pub mod answers;
pub mod automatic;
pub mod backend;
pub mod boot;
pub mod cli;
pub mod collect;
pub mod copy;
pub mod discover;
pub mod disks;
pub mod editor;
pub mod esp;
pub mod etcwrite;
pub mod firmware;
pub mod form;
pub mod json;
pub mod layout;
pub mod lock;
pub mod panel;
pub mod payload;
pub mod plan;
pub mod recipe;
pub mod run;
pub mod screen;
pub mod seqs;
pub mod table;
pub mod text;
pub mod ui;
pub mod windows;
