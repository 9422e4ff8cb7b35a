//! The directory listing page.

use vstd::prelude::*;

use crate::context::{param_or_empty_spec, PageContext};
use crate::framework::Update;
use crate::git::TreeEntry;
use crate::pages::{cat, join_path, join_path_spec, tree_url};
use crate::paths::{find_last, last_index_of, trim_slashes, trim_slashes_string};

use crate::pages::{chosen_ref, chosen_ref_of};
use crate::text::opt_string_view;

verus! {

pub struct TreePage;

/// Which repository and directory the page shows.
#[derive(Debug, Clone)]
pub struct Model {
    pub repo: String,
    pub path: String,
    /// The branch or tag shown (`None`: `HEAD`).
    pub git_ref: Option<String>,
}

/// The model of a repository page from its `repo` and `path` parameters,
/// the path without surrounding slashes.
pub open spec fn repo_path_model(ctx: crate::context::PageContextView, repo: Seq<char>, path: Seq<char>) -> bool {
    repo == param_or_empty_spec(ctx, "repo"@) && path == trim_slashes(param_or_empty_spec(ctx, "path"@))
}

impl TreePage {
    /// The route patterns the page answers on.
    pub fn route_patterns() -> (res: Vec<&'static str>)
        ensures
            res@.len() == 2,
            res@[0]@ == "/repo/{repo}/tree"@,
            res@[1]@ == "/repo/{repo}/tree/{*path}"@,
    {
        let mut v: Vec<&'static str> = Vec::new();
        v.push("/repo/{repo}/tree");
        v.push("/repo/{repo}/tree/{*path}");
        v
    }

    pub fn init(ctx: &PageContext) -> (res: Model)
        ensures
            repo_path_model(ctx@, res.repo@, res.path@),
            opt_string_view(res.git_ref) == chosen_ref(ctx@),
    {
        Model {
            repo: ctx.param_or_empty("repo").to_owned(),
            path: trim_slashes_string(ctx.param_or_empty("path")),
            git_ref: chosen_ref_of(ctx),
        }
    }

    /// Handling an event renders the page again with the same model (the
    /// page defines no events).
    pub fn update(model: Model) -> (res: Update<Model>)
        ensures
            res == Update::Render(model),
    {
        Update::Render(model)
    }
}

/// The URL of the parent directory of `path` within `repo`.
pub open spec fn parent_url_spec(repo: Seq<char>, path: Seq<char>) -> Seq<char> {
    match last_index_of(path, '/') {
        Some(i) => tree_url(repo, seq!['/'] + path.take(i)),
        None => tree_url(repo, seq![]),
    }
}

/// The URL of the parent directory of `path` within `repo`.
pub fn parent_url(repo: &str, path: &str) -> (res: String)
    ensures
        res@ == parent_url_spec(repo@, path@),
{
    let cs = crate::text::chars_of(path);
    let mut res = cat("/repo/", repo);
    res.append("/tree");
    match find_last(&cs, '/') {
        Some(i) => {
            crate::text::push_char(&mut res, '/');
            let parent = crate::text::string_from_range(&cs, 0, i);
            res.append(parent.as_str());
            assert(cs@.subrange(0, i as int) =~= cs@.take(i as int));
            assert(res@ =~= parent_url_spec(repo@, path@));
        },
        None => {
            assert(res@ =~= parent_url_spec(repo@, path@));
        },
    }
    res
}

/// The link of a listing entry: the tree URL for a directory, the blob URL
/// for a file, of the entry's repo-relative path.
pub open spec fn entry_url_spec(repo: Seq<char>, child: Seq<char>, is_dir: bool) -> Seq<char> {
    if is_dir {
        "/repo/"@ + repo + "/tree/"@ + child
    } else {
        "/repo/"@ + repo + "/blob/"@ + child
    }
}

/// The repo-relative path of a listing entry and its link.
pub fn entry_link(repo: &str, dir: &str, entry: &TreeEntry) -> (res: (String, String))
    ensures
        res.0@ == join_path_spec(dir@, entry.name@),
        res.1@ == entry_url_spec(repo@, res.0@, entry.is_dir),
{
    let child = join_path(dir, entry.name.as_str());
    let mut url = cat("/repo/", repo);
    if entry.is_dir {
        url.append("/tree/");
    } else {
        url.append("/blob/");
    }
    url.append(child.as_str());
    (child, url)
}

} // verus!
