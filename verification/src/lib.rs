//! An interactive command-line task manager: a task record with a completion
//! flag, a command grammar for the read-eval-print loop, the in-memory
//! task-list state machine, and a JSON codec for the on-disk task file.
mod command;
mod config;
mod json;
mod parser;
mod session;
mod text;
mod todo;

pub use command::Command;
pub use config::ConfigManager;
pub use json::lemma_save_load_round_trip;
pub use json::parse_tasks;
pub use json::serialize_tasks;
pub use parser::classify_line;
pub use parser::command_with_id;
pub use parser::id_parse_failed;
pub use parser::inline_id_parse_failed;
pub use parser::should_record_history;
pub use parser::IdKind;
pub use parser::LineClass;
pub use session::lemma_delete_shifts;
pub use session::lemma_done_toggles_exactly;
pub use session::lemma_done_twice;
pub use session::render_details;
pub use session::render_line;
pub use session::Action;
pub use session::DispatchResult;
pub use session::Session;
pub use text::parse_usize;
pub use todo::get_done_character;
pub use todo::name_acceptable;
pub use todo::TaskData;
pub use todo::ToDo;
