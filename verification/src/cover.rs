//! Cover selection: which archive entry becomes the gallery's cover.
//!
//! The archive container is read by the caller; the decision — the first
//! entry in container order whose extension is an allowed image kind —
//! is made and verified here.

use vstd::prelude::*;
use vstd::string::*;

use crate::text::{ext_of_path, extension_of, lower_chars, str_eq, to_ascii_lower};

verus! {

/// An allowed cover extension, already lower-cased.
pub open spec fn is_cover_ext(e: Seq<char>) -> bool {
    e == "jpg"@ || e == "jpeg"@ || e == "png"@
}

/// Whether an archive entry name qualifies as a cover: it has an
/// extension and, lower-cased, the extension is an allowed image kind.
pub open spec fn entry_is_cover(name: Seq<char>) -> bool {
    match ext_of_path(name) {
        Some(e) => is_cover_ext(lower_chars(e)),
        None => false,
    }
}

/// Picks the cover entry: the first entry, in container order, whose
/// extension is an allowed image kind; its index and its lower-cased
/// extension. Absence of any such entry is an expected outcome.
pub fn select_cover(entries: &Vec<String>) -> (r: Option<(usize, String)>)
    ensures
        match r {
            Some((i, ext)) => {
                &&& i < entries@.len()
                &&& entry_is_cover(entries@[i as int]@)
                &&& forall|j: int| 0 <= j < i ==> !entry_is_cover((#[trigger] entries@[j])@)
                &&& ext@ == lower_chars(ext_of_path(entries@[i as int]@)->Some_0)
            },
            None => forall|j: int|
                0 <= j < entries@.len() ==> !entry_is_cover((#[trigger] entries@[j])@),
        },
{
    let n = entries.len();
    for i in 0..n
        invariant
            n == entries@.len(),
            forall|j: int| 0 <= j < i ==> !entry_is_cover((#[trigger] entries@[j])@),
    {
        match extension_of(entries[i].as_str()) {
            Some(e) => {
                let lowered = to_ascii_lower(e.as_str());
                if str_eq(lowered.as_str(), "jpg") || str_eq(lowered.as_str(), "jpeg") || str_eq(
                    lowered.as_str(),
                    "png",
                ) {
                    return Some((i, lowered));
                }
            },
            None => {},
        }
    }
    None
}

/// The path the cover image is written to: `cover` with the entry's
/// lower-cased extension, in the gallery directory.
pub fn cover_path(gallery_dir: &str, ext: &str) -> (r: String)
    ensures
        r@ == gallery_dir@ + "/cover."@ + ext@,
{
    let mut s = gallery_dir.to_owned();
    s.append("/cover.");
    s.append(ext);
    s
}

} // verus!
