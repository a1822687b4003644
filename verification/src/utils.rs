//! Small helpers shared by the engines and their callers.

use crate::strings::{remove_chars, spec_remove};
use vstd::prelude::*;

verus! {

/// The characters stripped from application names before they name an
/// archive directory: not every filesystem accepts them, and a stripped
/// name syncs cleanly across operating systems.
pub open spec fn unsafe_name_chars() -> Seq<char> {
    seq![':']
}

/// An application's name with filesystem-hostile characters removed, fit
/// to name its archive directory.
pub fn sanitize_game_name(name: &str) -> (r: String)
    ensures
        r@ == spec_remove(name@, unsafe_name_chars()),
{
    let mut banned: Vec<char> = Vec::new();
    banned.push(':');
    proof {
        assert(banned@ =~= unsafe_name_chars());
    }
    remove_chars(name, &banned)
}

} // verus!
