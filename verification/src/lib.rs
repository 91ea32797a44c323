//! Verified core of the rfm terminal file manager: directory panels and
//! their navigation history, the modal input adapters (search, rename,
//! create, decision flows, the trash view, the `cd` and zoxide consoles),
//! bulk renaming through an editor, terminal-graphics negotiation and the
//! sixel encoder, the undo stack, request rate limiting, preview-cache
//! naming and eviction, and the guards that bound what untrusted previews
//! may cost (PDF streams, 7z headers).

pub mod tabs;
pub mod text;
pub mod directory;
pub mod graphics;
pub mod input;
pub mod mode;
pub mod decision_flow;
pub mod sixel;
pub mod rate_limiter;
pub mod undo;
pub mod trash_view;
pub mod panel_state;
pub mod digits;
pub mod raster_cache;
pub mod thumb_cache;
pub mod preview;
pub mod pdf_guard;
pub mod console;
pub mod util;
pub mod dir_console;
pub mod bulk_rename;
pub mod highlight;
pub mod nav_history;
pub mod commands;
pub mod half_block;
