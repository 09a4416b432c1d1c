//! Application shell: events, focus, layout, function-key bar and `App`.

pub mod events;
pub mod focus;
pub mod layout;
pub mod fkeys;
#[allow(clippy::module_inception)]
pub mod app;
