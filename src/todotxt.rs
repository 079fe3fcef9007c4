//! The todo.txt record and its helpers.
pub mod task;
pub mod utils;

pub use task::{CompletionConfig, CompletionDateMode, CompletionMode, Task};
pub use utils::{
    business_days_between, char_to_priority, extract_contexts, extract_hashtags, extract_projects,
    extract_tags, format_date, format_priority, parse_date, parse_priority, priority_to_char,
    replace_word, split_tag, str_to_priority, Period, Recurrence, DUE_TAG, DUE_TAG_FULL, NO_PRIORITY,
    REC_TAG, REC_TAG_FULL, THR_TAG, THR_TAG_FULL,
};
pub use crate::date::days_in_month;
