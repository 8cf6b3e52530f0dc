//! Progress logging, replay and persistent stores for research programs.

pub mod asset_file;
pub mod bincode_log_file;
pub mod decimal;
pub mod float_bits;
pub mod hex;
pub mod launch_python_process;
pub mod log_calls;
pub mod log_format;
pub mod log_lines;
pub mod log_message;
pub mod log_session;
pub mod lru_cache;
pub mod message;
pub mod my_log_message_tx;
pub mod progress_preview;
pub mod progress_screen;
pub mod progress_text_logger;
pub mod progress_tui_client;
pub mod progress_tui_logger;
pub mod progress_tui_protocol;
pub mod progress_tui_reader;
pub mod progress_tui_server;
pub mod pushover_notify;
pub mod replay_engine;
pub mod replay_state;
pub mod screen;
pub mod screen_input;
pub mod screen_layout;
pub mod sqlite_store;
pub mod sqlite_table_array_store;
pub mod text;
pub mod text_map;
