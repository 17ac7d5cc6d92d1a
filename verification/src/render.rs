//! The external rendering collaborator: syntax highlighting of a paste's
//! text for a given extension. Rendering is total — an unknown extension
//! falls back to plain text — and depends on the text and the extension
//! alone, so its outcome is named rather than spelled out.

use vstd::prelude::*;

verus! {

/// The markup that rendering `text` under `ext` produces.
pub uninterp spec fn render_of(text: Seq<char>, ext: Seq<char>) -> Seq<char>;

/// Relies on syntect: `SyntaxSet::load_defaults_newlines`,
/// `find_syntax_by_extension` with `find_syntax_plain_text` as the fallback,
/// `ThemeSet::load_defaults`, and `highlighted_html_for_string`, whose
/// result is a function of the text and the extension alone, the syntax and
/// theme sets being the fixed bundled ones.
#[verifier::external_body]
pub(crate) fn render(text: &String, ext: &String) -> (r: String)
    ensures
        r@ == render_of(text@, ext@),
{
    let syntaxes = syntect::parsing::SyntaxSet::load_defaults_newlines();
    let syntax = match syntaxes.find_syntax_by_extension(ext) {
        Some(s) => s,
        None => syntaxes.find_syntax_plain_text(),
    };
    let themes = syntect::highlighting::ThemeSet::load_defaults();
    match themes.themes.get("InspiredGitHub") {
        Some(theme) => {
            match syntect::html::highlighted_html_for_string(text, &syntaxes, syntax, theme) {
                Ok(html) => html,
                Err(_) => text.clone(),
            }
        },
        None => text.clone(),
    }
}

} // verus!
