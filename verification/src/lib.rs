//! The recent-projects picker and the agent page, as state machines over plain values.
//!
//! Every list that the picker shows, every selection it makes and every action that it asks for
//! is computed here. Windows, databases and the fuzzy matcher live outside: they hand plain
//! values in and carry out the actions that come back.
#![allow(unused_imports)]

pub mod actions;
pub mod actions_laws;
pub mod agent_page;
pub mod agent_page_laws;
pub mod confirm;
pub mod confirm_laws;
pub mod delegate;
pub mod delegate_laws;
pub mod deletion;
pub mod deletion_laws;
pub mod folder_edit;
pub mod folder_edit_laws;
pub mod folder_name_laws;
pub mod footer;
pub mod footer_laws;
pub mod highlight;
pub mod highlight_laws;
pub mod lex;
pub mod listing;
pub mod listing_contents;
pub mod listing_coverage;
pub mod listing_folders;
pub mod listing_laws;
pub mod listing_order;
pub mod listing_places;
pub mod listing_queries;
pub mod model;
pub mod model_laws;
pub mod open_folders;
pub mod open_folders_laws;
pub mod path;
pub mod path_laws;
pub mod picker;
pub mod picker_laws;
pub mod recents;
pub mod recents_laws;
pub mod rows;
pub mod rows_laws;
pub mod seqs;
pub mod terms;
pub mod text;
pub mod text_laws;
