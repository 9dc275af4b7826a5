//! Changelog excerpting for the `/change` command and the system prompt of
//! the recursive-language-model root call.

pub mod changelog;
pub mod command;
pub mod prompt;
pub mod text;

pub use changelog::{
    extract_latest_changelog_section, inline_changelog_section, MAX_INLINE_CHANGELOG_CHARS,
};
pub use command::{change, App, AppAction, ChangeTexts, CommandResult, Locale};
pub use prompt::{rlm_system_prompt, SystemPrompt, RLM_SYSTEM_PROMPT};
pub use text::{char_is_white_space, chars_of};
