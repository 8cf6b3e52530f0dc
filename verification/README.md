# research_utility

Utilities for long-running research programs: progress logging and replay, progress screens,
append-only log files, key-value and array stores in SQLite, launching of Python wrapper
processes, notifications, and hashes of asset files.

The library in `src/` is written in Verus. Every function states what it returns or changes, and
the proofs are checked together with the code. It reads and writes nothing itself: where a task
needs a file, a socket, a terminal, a database or a clock, the library says what to do next and is
told what came of it. `app/` is ordinary Rust that does this work.

| Module | What it holds |
| --- | --- |
| `log_format`, `bincode_log_file`, `log_calls` | the format of log files; opening, appending, searching, reloading and walking; what a log answers to a series of calls |
| `lru_cache` | what the caches of the `lru` crate hold, and what their operations do |
| `message`, `progress_tui_protocol` | messages, the state of a display, and the wire rules |
| `progress_tui_logger`, `progress_text_logger` | frames with what changed; summaries and full logs as text |
| `replay_state`, `log_session`, `replay_engine` | rebuilding a display from frames; what a reader shows of all that was logged; playback |
| `screen`, `screen_layout`, `screen_input` | areas, lines, scrolling, widgets and events |
| `progress_tui_reader`, `progress_tui_client`, `progress_screen`, `progress_tui_server` | the screens and the server |
| `log_message`, `my_log_message_tx` | where messages go |
| `sqlite_store`, `sqlite_table_array_store`, `hex` | keys, table names, statements, retries and rows |
| `launch_python_process`, `pushover_notify`, `asset_file` | wrapper processes, notifications, hashes |
| `text`, `decimal`, `text_map`, `float_bits`, `log_lines` | texts, numbers, ordered maps, floats by their bits, bounded logs |
| `progress_preview` | a made-up run to try a screen out |

What is taken on trust is what the library calls outside of itself. Each such function is marked
`external_body` or stands in an `assume_specification`, with a comment that names the outside
function and says what is claimed of it.

`tests/` runs the library together with the outside crates.
