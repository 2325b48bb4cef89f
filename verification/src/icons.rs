//! The icon catalog: resolving an instance's configured icon.
//!
//! The catalog itself is the shared `icons` directory; the caller lists it
//! and checks whether a configured file is present.  The resolution rule
//! lives here: a configured name resolves to its file only when that file
//! exists, and everything else falls back to the built-in default image.

use vstd::prelude::*;

verus! {

/// What an instance's icon resolves to: a file of the icons directory, by
/// name, or the default image compiled into the program.
pub enum IconRef {
    Default,
    File(String),
}

/// Resolves a configured icon name.  `present` says whether a file of that
/// name exists in the icons directory; with no configured name, or with the
/// configured file missing, the default image is used.
pub fn load_icon(name: &Option<String>, present: bool) -> (r: IconRef)
    ensures
        match name {
            None => r is Default,
            Some(n) => if present {
                r matches IconRef::File(f) && f@ == n@
            } else {
                r is Default
            },
        },
{
    match name {
        Some(n) => {
            if present {
                IconRef::File(n.clone())
            } else {
                IconRef::Default
            }
        },
        None => IconRef::Default,
    }
}

} // verus!
