//! The branch and tag picker.

use vstd::prelude::*;

use crate::context::{param_or_empty_spec, PageContext};
use crate::framework::Update;
use crate::git::RefInfo;
use crate::pages::cat;

verus! {

pub struct RefsPage;

#[derive(Debug, Clone)]
pub struct Model {
    pub repo: String,
}

impl RefsPage {
    pub fn init(ctx: &PageContext) -> (res: Model)
        ensures
            res.repo@ == param_or_empty_spec(ctx@, "repo"@),
    {
        Model { repo: ctx.param_or_empty("repo").to_owned() }
    }

    /// Handling an event renders the page again with the same model (the
    /// page defines no events).
    pub fn update(model: Model) -> (res: Update<Model>)
        ensures
            res == Update::Render(model),
    {
        Update::Render(model)
    }
}

/// The link that browses the repository at a ref.
pub fn ref_link(repo: &str, name: &str) -> (res: String)
    ensures
        res@ == "/repo/"@ + repo@ + "/tree?ref="@ + name@,
{
    let mut res = cat("/repo/", repo);
    res.append("/tree?ref=");
    res.append(name);
    res
}

/// The badge shown next to a ref.
#[derive(Debug, Clone, Copy, PartialEq, Eq)]
pub enum RefBadge {
    Current,
    Tag,
    NoBadge,
}

/// The current branch is marked as such; otherwise tags are marked as tags.
pub fn ref_badge(r: &RefInfo) -> (res: RefBadge)
    ensures
        res == (if r.is_head {
            RefBadge::Current
        } else if r.is_tag {
            RefBadge::Tag
        } else {
            RefBadge::NoBadge
        }),
{
    if r.is_head {
        RefBadge::Current
    } else if r.is_tag {
        RefBadge::Tag
    } else {
        RefBadge::NoBadge
    }
}

} // verus!
