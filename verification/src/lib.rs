//! An interactive pipeline editor's core: the model of a pipeline, the
//! runners that execute it step by step with a cache of step outputs, the
//! command history, the controller that gathers piped input, and the
//! computations behind its widgets (the command input with its completion,
//! the run details table, the help popup, the search bar and the dialog that
//! saves a command to a file).
pub mod args;
pub mod completable_input;
pub mod completion;
pub mod details_widget;
pub mod file_saver;
pub mod help_widget;
pub mod history;
pub mod rura;
pub mod rura_widget;
pub mod save_to_file_widget;
pub mod search_widget;
pub mod shell;
pub mod state;
pub mod stdin;
pub mod text;
pub mod text_input;
