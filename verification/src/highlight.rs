//! Server-side syntax highlighting with `syntect`: the syntax is picked from
//! the file name, plain text is the fallback syntax, and escaped text in a
//! `<pre><code>` block is the fallback when highlighting fails.

use vstd::prelude::*;

use crate::pages::{dot_suffix, dot_suffix_chars};
use crate::text::{push_char, string_from_range};

verus! {

/// What `syntect` makes of `code` with the bundled syntax for `token` and the
/// bundled `base16-ocean.dark` theme: `None` when no bundled syntax lists
/// `token` among its extensions, `Some(None)` when highlighting fails.
pub uninterp spec fn highlighted(code: Seq<char>, token: Seq<char>) -> Option<Option<Seq<char>>>;

/// What `syntect` makes of `code` with the bundled plain-text syntax and the
/// bundled `base16-ocean.dark` theme (`None` when highlighting fails).
pub uninterp spec fn highlighted_plain(code: Seq<char>) -> Option<Seq<char>>;

pub open spec fn opt_text_view(o: Option<String>) -> Option<Seq<char>> {
    match o {
        Some(s) => Some(s@),
        None => None,
    }
}

pub open spec fn opt_opt_text_view(o: Option<Option<String>>) -> Option<Option<Seq<char>>> {
    match o {
        Some(h) => Some(opt_text_view(h)),
        None => None,
    }
}

/// Loads the bundled syntaxes (`SyntaxSet::load_defaults_newlines`) and
/// themes (`ThemeSet::load_defaults`), looks up a syntax by extension
/// (`find_syntax_by_extension`) and highlights `code` with it
/// (`syntect::html::highlighted_html_for_string`). The contract only names
/// the result.
#[verifier::external_body]
fn highlight_by_extension(code: &str, token: &str) -> (res: Option<Option<String>>)
    ensures
        opt_opt_text_view(res) == highlighted(code@, token@),
{
    let ss = syntect::parsing::SyntaxSet::load_defaults_newlines();
    let ts = syntect::highlighting::ThemeSet::load_defaults();
    let syntax = ss.find_syntax_by_extension(token)?;
    Some(syntect::html::highlighted_html_for_string(code, &ss, syntax, &ts.themes["base16-ocean.dark"]).ok())
}

/// Loads the bundled syntaxes and themes and highlights `code` with the
/// plain-text syntax (`find_syntax_plain_text`,
/// `syntect::html::highlighted_html_for_string`). The contract only names
/// the result.
#[verifier::external_body]
fn highlight_plain(code: &str) -> (res: Option<String>)
    ensures
        opt_text_view(res) == highlighted_plain(code@),
{
    let ss = syntect::parsing::SyntaxSet::load_defaults_newlines();
    let ts = syntect::highlighting::ThemeSet::load_defaults();
    let syntax = ss.find_syntax_plain_text();
    syntect::html::highlighted_html_for_string(code, &ss, syntax, &ts.themes["base16-ocean.dark"]).ok()
}

/// The HTML text of one character: `&`, `<`, `>` and `"` as entities.
pub open spec fn escape_char(c: char) -> Seq<char> {
    if c == '&' {
        "&amp;"@
    } else if c == '<' {
        "&lt;"@
    } else if c == '>' {
        "&gt;"@
    } else if c == '"' {
        "&quot;"@
    } else {
        seq![c]
    }
}

/// `s` as HTML text.
pub open spec fn html_escape(s: Seq<char>) -> Seq<char>
    decreases s.len(),
{
    if s.len() == 0 {
        seq![]
    } else {
        html_escape(s.drop_last()) + escape_char(s.last())
    }
}

/// `s` as HTML text (see [`html_escape`]).
pub fn html_escape_string(s: &str) -> (res: String)
    ensures
        res@ == html_escape(s@),
{
    proof {
        reveal_strlit("&amp;");
        reveal_strlit("&lt;");
        reveal_strlit("&gt;");
        reveal_strlit("&quot;");
    }
    let cs = crate::text::chars_of(s);
    let mut res = String::new();
    let mut i: usize = 0;
    while i < cs.len()
        invariant
            i <= cs@.len(),
            cs@ == s@,
            res@ == html_escape(cs@.take(i as int)),
        decreases cs@.len() - i,
    {
        let c = cs[i];
        if c == '&' {
            res.append("&amp;");
        } else if c == '<' {
            res.append("&lt;");
        } else if c == '>' {
            res.append("&gt;");
        } else if c == '"' {
            res.append("&quot;");
        } else {
            push_char(&mut res, c);
        }
        assert(cs@.take(i + 1).drop_last() =~= cs@.take(i as int));
        i = i + 1;
    }
    assert(cs@.take(i as int) =~= cs@);
    res
}

/// The fallback view of `code`: escaped text in a `<pre><code>` block.
pub open spec fn plain_block(code: Seq<char>) -> Seq<char> {
    "<pre><code>"@ + html_escape(code) + "</code></pre>"@
}

/// The HTML of `code` from the file `file_name`: highlighted with the syntax
/// that lists the text after the last `.` of the name (all of the name
/// without a dot, so that names such as `Makefile` are found) among its
/// extensions, else with the plain-text syntax; the escaped text in a
/// `<pre><code>` block where highlighting fails.
pub open spec fn to_html_spec(code: Seq<char>, file_name: Seq<char>) -> Seq<char> {
    match highlighted(code, dot_suffix(file_name)) {
        Some(Some(h)) => h,
        Some(None) => plain_block(code),
        None => match highlighted_plain(code) {
            Some(h) => h,
            None => plain_block(code),
        },
    }
}

fn plain_block_string(code: &str) -> (res: String)
    ensures
        res@ == plain_block(code@),
{
    let mut res = "<pre><code>".to_owned();
    res.append(html_escape_string(code).as_str());
    res.append("</code></pre>");
    res
}

/// Highlights `code` as HTML, picking a syntax from the file name (see
/// [`to_html_spec`]).
pub fn to_html(code: &str, file_name: &str) -> (res: String)
    ensures
        res@ == to_html_spec(code@, file_name@),
{
    let token_chars = dot_suffix_chars(file_name);
    let n = token_chars.len();
    let token = string_from_range(&token_chars, 0, n);
    assert(token_chars@.subrange(0, n as int) =~= token_chars@);
    match highlight_by_extension(code, token.as_str()) {
        Some(Some(h)) => h,
        Some(None) => plain_block_string(code),
        None => match highlight_plain(code) {
            Some(h) => h,
            None => plain_block_string(code),
        },
    }
}

proof fn lemma_dot_suffix_of(base: Seq<char>, ext: Seq<char>)
    requires
        !ext.contains('.'),
    ensures
        dot_suffix(base + seq!['.'] + ext) == ext,
{
    let name = base + seq!['.'] + ext;
    crate::paths::lemma_last_index_upto(name, '.', name.len() as int);
    match crate::paths::last_index_of(name, '.') {
        Some(i) => {
            if i > base.len() {
                assert(ext[i - base.len() - 1] == name[i]);
            } else if i < base.len() {
                assert(name[base.len() as int] == '.');
            }
            assert(name.skip(i + 1) =~= ext);
        },
        None => {
            assert(name[base.len() as int] == '.');
        },
    }
}

proof fn lemma_dot_suffix_no_dot(name: Seq<char>)
    requires
        !name.contains('.'),
    ensures
        dot_suffix(name) == name,
{
    crate::paths::lemma_last_index_upto(name, '.', name.len() as int);
    if let Some(i) = crate::paths::last_index_of(name, '.') {
        assert(name.contains(name[i]));
    }
}

/// The syntax is picked by the file's extension, the text after the last
/// `.` of its name: for `base.ext` (with no `.` in `ext`), the file is
/// highlighted exactly as `syntect` highlights it with the syntax for `ext`
/// when one lists it, and with the plain-text syntax only when none does.
pub proof fn lemma_highlight_by_extension(code: Seq<char>, base: Seq<char>, ext: Seq<char>)
    requires
        !ext.contains('.'),
    ensures
        highlighted(code, ext) matches Some(Some(h)) ==> to_html_spec(code, base + seq!['.'] + ext) == h,
        highlighted(code, ext) is None ==> to_html_spec(code, base + seq!['.'] + ext) == (
        match highlighted_plain(code) {
            Some(h) => h,
            None => plain_block(code),
        }),
{
    lemma_dot_suffix_of(base, ext);
}

/// A name without a `.` (such as `Makefile`) is looked up as a whole.
pub proof fn lemma_highlight_whole_name(code: Seq<char>, name: Seq<char>)
    requires
        !name.contains('.'),
    ensures
        highlighted(code, name) matches Some(Some(h)) ==> to_html_spec(code, name) == h,
{
    lemma_dot_suffix_no_dot(name);
}

} // verus!
