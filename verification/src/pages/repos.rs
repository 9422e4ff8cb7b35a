//! The home page: the list of served repositories.

use vstd::prelude::*;

use crate::context::PageContext;
use crate::framework::Update;
use crate::pages::cat;

verus! {

pub struct ReposPage;

#[derive(Debug, Clone)]
pub struct Model {}

impl ReposPage {
    /// The model: the page reads nothing from the request.
    pub fn init(ctx: &PageContext) -> (res: Model)
        ensures
            res == (Model {}),
    {
        Model {}
    }

    /// Handling an event renders the page again with the same model (the
    /// page defines no events).
    pub fn update(model: Model) -> (res: Update<Model>)
        ensures
            res == Update::Render(model),
    {
        Update::Render(model)
    }
}

/// The link to a repository's top tree.
pub fn repo_link(name: &str) -> (res: String)
    ensures
        res@ == "/repo/"@ + name@ + "/tree"@,
{
    let mut res = cat("/repo/", name);
    res.append("/tree");
    res
}

} // verus!
