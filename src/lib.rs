//! Layout engine for a two-column résumé document.
//!
//! The library computes everything that goes on the page — colors, icon
//! glyphs, wrapped text, the sorted timeline and its geometry, the recolored
//! QR code — and records it as a list of drawing operations. Running those
//! operations against a PDF backend is left to the caller.
use vstd::prelude::*;

pub mod color;
pub mod date;
pub mod draw;
pub mod icons;
pub mod image;
pub mod layout;
pub mod pdf;
pub mod resume;
pub mod text;
pub mod timeline;

verus! {

/// The executable name with `.exe` added on Windows where it lacks it.
pub open spec fn exe_name_spec(name: Seq<char>, windows: bool) -> Seq<char> {
    if !windows || text::has_suffix(name, ".exe"@) {
        name
    } else {
        name + ".exe"@
    }
}

/// Name under which an executable is looked up on the search path: on
/// Windows a missing `.exe` suffix is added, elsewhere the name is kept.
pub fn enhance_exe_name(exe_name: &str, windows: bool) -> (r: String)
    ensures
        r@ == exe_name_spec(exe_name@, windows),
{
    let name = exe_name.to_owned();
    proof {
        reveal_strlit(".exe");
    }
    if !windows || text::ends_with(&name, ".exe") {
        name
    } else {
        let mut with_exe = name;
        text::push_text(&mut with_exe, ".exe");
        with_exe
    }
}

} // verus!
