//! The file page.

use vstd::prelude::*;

use crate::context::PageContext;
use crate::framework::Update;
use crate::pages::tree::repo_path_model;
use crate::pages::{dot_suffix, dot_suffix_chars, split_path, split_path_spec};
use crate::paths::trim_slashes_string;
use crate::git::Blob;
use crate::highlight::{to_html, to_html_spec};
use crate::text::from_utf8;

use crate::pages::{chosen_ref, chosen_ref_of};
use crate::text::opt_string_view;

verus! {

pub struct BlobPage;

/// Which repository and file the page shows.
#[derive(Debug, Clone)]
pub struct Model {
    pub repo: String,
    pub path: String,
    /// The branch or tag shown (`None`: `HEAD`).
    pub git_ref: Option<String>,
}

impl BlobPage {
    pub fn init(ctx: &PageContext) -> (res: Model)
        ensures
            repo_path_model(ctx@, res.repo@, res.path@),
            opt_string_view(res.git_ref) == chosen_ref(ctx@),
    {
        Model {
            repo: ctx.param_or_empty("repo").to_owned(),
            path: trim_slashes_string(ctx.param_or_empty("path")),
            git_ref: chosen_ref_of(ctx),
        }
    }

    /// Handling an event renders the page again with the same model (the
    /// page defines no events).
    pub fn update(model: Model) -> (res: Update<Model>)
        ensures
            res == Update::Render(model),
    {
        Update::Render(model)
    }
}

/// The file name of a path: the text after its last `/`.
pub fn file_name_of_path(path: &str) -> (res: String)
    ensures
        res@ == split_path_spec(path@).1,
{
    split_path(path).1
}

/// The extension by which a syntax is picked for a file name: the text
/// after its last `.` (all of it without a dot).
pub fn syntax_extension(file_name: &str) -> (res: String)
    ensures
        res@ == dot_suffix(file_name@),
{
    let e = dot_suffix_chars(file_name);
    let n = e.len();
    crate::text::string_from_range(&e, 0, n)
}

/// What the file page shows of a file's content.
#[derive(Debug, Clone, PartialEq, Eq)]
pub enum FileContent {
    /// A binary file, with its size in bytes.
    Binary(usize),
    /// A text file that is not valid UTF-8.
    NotUtf8,
    /// The file's text as highlighted HTML.
    Highlighted(String),
}

/// What the file page shows of `blob`, a file named `file_name`: its size
/// when binary, a notice when not valid UTF-8, else the highlighted text.
pub fn file_content(blob: Blob, file_name: &str) -> (res: FileContent)
    ensures
        blob.is_binary ==> res == FileContent::Binary(blob.content@.len() as usize),
        !blob.is_binary && !vstd::utf8::valid_utf8(blob.content@) ==> res == FileContent::NotUtf8,
        !blob.is_binary && vstd::utf8::valid_utf8(blob.content@) ==> (res matches FileContent::Highlighted(h)
            && h@ == to_html_spec(vstd::utf8::decode_utf8(blob.content@), file_name@)),
{
    if blob.is_binary {
        return FileContent::Binary(blob.content.len());
    }
    match from_utf8(blob.content) {
        Some(text) => FileContent::Highlighted(to_html(text.as_str(), file_name)),
        None => FileContent::NotUtf8,
    }
}

} // verus!
