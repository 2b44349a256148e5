//! Per-platform storage directory selection.

use vstd::prelude::*;

verus! {

/// Selects the local storage directory for the given application name.
///
/// On hosted targets — web and server builds — there is no local
/// directory to configure, so the name is accepted and nothing happens;
/// desktop and mobile shells pick their directory through their own
/// platform glue before handing control to this crate.
pub fn set_directory(_app_name: &str) {
}

} // verus!
