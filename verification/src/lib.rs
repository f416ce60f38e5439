//! The core of a novel-writing assistant: the structure tree of a novel
//! (chapters, characters, plot and knowledge cards) and its edits, the
//! reading of model replies (outlines, plans, storyboards, chat answers),
//! knowledge and memory retrieval, prompt material, the chat assistant's
//! decisions and message store, and speech chunking.
#![allow(unused_imports)]

use vstd::prelude::*;

pub mod text;
pub mod global_chat;
pub mod commands;
pub mod chunk;
pub mod chapter_memory;
pub mod chapter_constraints;
pub mod kb_context;
pub mod chapter_tts;
pub mod catalog;
pub mod chapter_shots;
pub mod ai_log;
pub mod chat_tools;
pub mod compat_messages;
pub mod models;
pub mod card_text;
pub mod existence_fmt;
pub mod info_flow_fmt;
pub mod core_laws_fmt;
pub mod history_culture_fmt;
pub mod character_fmt;
pub mod tree_refs;
pub mod tree_edit;
pub mod json;
pub mod ids;
pub mod llm_json;
pub mod outline_parse;
pub mod plan_json;
pub mod outline_json;
pub mod chat_json;
pub mod card_meta;
pub mod chapter_plan;
pub mod cast;
pub mod plot_consolidate;
pub mod chapter_flow;
pub mod novel_create;
pub mod root_reference;
pub mod public_cards;
pub mod consolidation;
pub mod land_beats;
pub mod chapter_cards;
pub mod initial_tree;
pub mod chat_history;
pub mod bound_cards;
pub mod settings_migrate;
pub mod chapter_context;
pub mod rewrite_reference;
pub mod lore;

verus! {

} // verus!
