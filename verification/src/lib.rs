//! libyggterm: the text model, the org grammar, the analytical-component
//! bounds and the interaction rules of the yggterm surface library.

pub mod utf8;
pub mod text_surface;
pub mod unicode;
pub mod org_model;
pub mod org;
pub mod org_laws;
pub mod org_words;
pub mod text;
pub mod components;
pub mod conversation;
pub mod chat_input;
pub mod script;
pub mod command_palette;
pub mod intellitype;
pub mod otp;
pub mod dpad;
pub mod frosted_bar;
pub mod scroll_rail;
pub mod pill_toolbar;
pub mod split_button;
pub mod prose;
pub mod plot;

pub use text_surface::TextSurface;
