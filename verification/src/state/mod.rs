//! What the dashboard remembers, and how it changes.

pub mod channel_pane;
pub mod channel_switcher;
pub mod channel_text;
pub mod clipboard;
pub mod composer;
pub mod dashboard;
pub mod dashboard_channels;
pub mod dashboard_popups;
pub mod dashboard_reads;
pub mod deed_laws;
pub mod emoji;
pub mod event_viewport;
pub mod event_laws;
pub mod events;
pub mod fuzzy;
pub mod gif_picker;
pub mod guilds;
pub mod image_viewer;
pub mod list_laws;
pub mod list_pane;
pub mod local_upload_preview;
pub mod member_grouping;
pub mod mentions;
pub mod message_actions;
pub mod message_render;
pub mod message_viewport;
pub mod model;
pub mod move_laws;
pub mod navigation;
pub mod older_history;
pub mod pane_filter;
pub mod popups;
pub mod row_laws;
pub mod step_laws;
pub mod scroll;
pub mod selection;
pub mod sorting;
pub mod text_laws;
pub mod thread_cards;
pub mod viewport_laws;
