//! Pure helpers with no kernel-state dependencies.

pub mod align;
pub mod bits;
pub mod bitfacts;
pub mod memscan;
