//! A settings-group compiler: named boolean settings, predicates over them and
//! presets that bundle required values, frozen by `build` into a bit layout
//! that code generators query.

pub mod expr;
pub mod lemmas;
pub mod search;
pub mod settings;
pub mod x86;
