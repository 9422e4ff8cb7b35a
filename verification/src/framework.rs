//! The page framework's plain data: what an event handler decides and the
//! patches sent back to the browser.

use vstd::prelude::*;

use crate::html_diff::{patches_view, Patch, PatchView};

verus! {

/// What handling an event leads to: render the page again with a new model,
/// or send the browser elsewhere.
pub enum Update<M> {
    Render(M),
    Redirect(String),
}

/// One patch of a response: replace the element with this `id` by `html`.
#[derive(Debug, Clone, PartialEq, Eq)]
pub struct PatchEntry {
    pub id: String,
    pub html: String,
}

/// The response entries for a list of patches, in order.
pub fn patch_entries(patches: Vec<Patch>) -> (res: Vec<PatchEntry>)
    ensures
        res@.len() == patches@.len(),
        forall|i: int|
            0 <= i < res@.len() ==> (#[trigger] res@[i]).id@ == patches_view(patches@)[i].id
                && res@[i].html@ == patches_view(patches@)[i].html,
{
    let mut res: Vec<PatchEntry> = Vec::new();
    let mut i: usize = 0;
    while i < patches.len()
        invariant
            i <= patches@.len(),
            res@.len() == i,
            forall|k: int|
                0 <= k < i ==> (#[trigger] res@[k]).id@ == patches@[k].id@ && res@[k].html@
                    == patches@[k].html@,
        decreases patches@.len() - i,
    {
        let p = &patches[i];
        res.push(PatchEntry { id: p.id.clone(), html: p.html.clone() });
        i = i + 1;
    }
    res
}

} // verus!
