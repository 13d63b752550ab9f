//! Game logic for a code-breaking game with coloured pegs: code generation,
//! guess validation, scoring, and the session state machine.

pub mod code;
pub mod config;
pub mod game;
pub mod input;
pub mod render;
pub mod score;
pub mod validate;

pub use code::{check_dupes, generate_code};
pub use config::Config;
pub use game::{is_win, Game, Outcome};
pub use input::{classify_line, read_command, Command};
pub use render::{colorize, mark_char, marks_to_chars, tint_of, Tint};
pub use score::{check_input, Mark};
pub use validate::{frequency, validate_input, InputError};
