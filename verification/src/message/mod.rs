//! Messages: how their text is wrapped, formatted and dated.

pub mod attachments;
pub mod component_laws;
pub mod components;
pub mod embed;
pub mod embed_laws;
pub mod emoji;
pub mod emoji_laws;
pub mod format_laws;
pub mod line;
pub mod options;
pub mod part_laws;
pub mod placeholder;
pub mod placeholder_laws;
pub mod poll;
pub mod reactions;
pub mod rendered;
pub mod rich;
pub mod section_laws;
pub mod sections;
pub mod span_laws;
pub mod stamp_laws;
pub mod styled;
pub mod system;
pub mod text_laws;
pub mod time;
pub mod time_twice;
pub mod whole;
pub mod wrap;
pub mod wrap_emoji;
pub mod wrap_words;
pub mod wrap_width;
