//! Mission Control for herdr: the verified core of a full-screen pane
//! overview. It holds the SGR parser for pane previews, the grid layout
//! planner, the selection state machine and the request/response rules of
//! herdr's socket API.

pub mod style;
pub mod text;
pub mod ansi;
pub mod ansi_laws;
pub mod ansi_style_laws;
pub mod ansi_fold_laws;
pub mod sgr_laws;
pub mod app;
pub mod app_laws;
pub mod layout;
pub mod layout_laws;
pub mod herdr;
pub mod render;
pub mod scene;
pub mod scene_laws;
