//! The recent-files page. The list itself lives in the browser, so the page
//! has no state of its own.

use vstd::prelude::*;

use crate::context::PageContext;
use crate::framework::Update;

verus! {

pub struct RecentPage;

#[derive(Debug, Clone)]
pub struct Model {}

impl RecentPage {
    /// The model: the page reads nothing from the request.
    pub fn init(ctx: &PageContext) -> (res: Model)
        ensures
            res == (Model {}),
    {
        Model {}
    }

    /// Handling an event renders the page again with the same model (the
    /// page defines no events).
    pub fn update(model: Model) -> (res: Update<Model>)
        ensures
            res == Update::Render(model),
    {
        Update::Render(model)
    }
}

} // verus!
