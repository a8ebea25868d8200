//! The catalog's entries, one module each.

pub mod cancel_cjk_mode;
pub mod enter_cjk_mode;
pub mod text;
