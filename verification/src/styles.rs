//! Compiled site styles: the CSS variable block derived from the theme, and
//! the freshness-guarded cache of the compiled stylesheet.
//!
//! Compiling SCSS itself is the caller's work; this module owns the theme
//! variable text and the decision of when a compiled result may be reused.

use vstd::prelude::*;

use crate::cache::FreshSlot;
use crate::config::{ThemeConfig, ThemePalette};
use crate::text::{push_str_chars, to_string};

verus! {

/// The default sans-serif font stack.
pub const DEFAULT_SANS: &'static str =
    "system-ui, \"Segoe UI\", Roboto, Helvetica, Arial, sans-serif, \"Apple Color Emoji\", \"Segoe UI Emoji\", \"Segoe UI Symbol\"";

/// The default monospace font stack.
pub const DEFAULT_MONO: &'static str = "ui-monospace, SFMono-Regular, SF Mono, Menlo, monospace";

/// The CSS variable declarations of one palette, shared by both blocks.
pub open spec fn spec_palette_css(p: ThemePalette) -> Seq<char> {
    "\n  --light: "@ + p.light@ + ";\n  --lightgray: "@ + p.lightgray@ + ";\n  --gray: "@
        + p.gray@ + ";\n  --darkgray: "@ + p.darkgray@ + ";\n  --dark: "@ + p.dark@
        + ";\n  --secondary: "@ + p.secondary@ + ";\n  --tertiary: "@ + p.tertiary@
        + ";\n  --highlight: "@ + p.highlight@ + ";\n  --textHighlight: "@ + p.text_highlight@
        + ";\n"@
}

/// The CSS variable declarations derived from the active theme: the light
/// palette and fonts on `:root`, and the dark palette under the saved dark
/// theme selector.
pub open spec fn spec_theme_css(t: ThemeConfig) -> Seq<char> {
    "\n:root {"@ + spec_palette_css(t.colors.light_mode) + "\n  --titleFont: \""@
        + t.typography.header@ + "\", "@ + DEFAULT_SANS@ + ";\n  --headerFont: \""@
        + t.typography.header@ + "\", "@ + DEFAULT_SANS@ + ";\n  --bodyFont: \""@
        + t.typography.body@ + "\", "@ + DEFAULT_SANS@ + ";\n  --codeFont: \""@
        + t.typography.code@ + "\", "@ + DEFAULT_MONO@ + ";\n}\n\n:root[saved-theme=\\\"dark\\\"] {"@
        + spec_palette_css(t.colors.dark_mode) + "}\n"@
}

/// Append one palette's variable declarations.
fn push_palette_css(out: &mut Vec<char>, p: &ThemePalette)
    ensures
        final(out)@ =~= old(out)@ + spec_palette_css(*p),
{
    push_str_chars(out, "\n  --light: ");
    push_str_chars(out, p.light.as_str());
    push_str_chars(out, ";\n  --lightgray: ");
    push_str_chars(out, p.lightgray.as_str());
    push_str_chars(out, ";\n  --gray: ");
    push_str_chars(out, p.gray.as_str());
    push_str_chars(out, ";\n  --darkgray: ");
    push_str_chars(out, p.darkgray.as_str());
    push_str_chars(out, ";\n  --dark: ");
    push_str_chars(out, p.dark.as_str());
    push_str_chars(out, ";\n  --secondary: ");
    push_str_chars(out, p.secondary.as_str());
    push_str_chars(out, ";\n  --tertiary: ");
    push_str_chars(out, p.tertiary.as_str());
    push_str_chars(out, ";\n  --highlight: ");
    push_str_chars(out, p.highlight.as_str());
    push_str_chars(out, ";\n  --textHighlight: ");
    push_str_chars(out, p.text_highlight.as_str());
    push_str_chars(out, ";\n");
}

/// The CSS variable declarations derived from the active theme.
#[verifier::rlimit(60)]
pub fn theme_css_variables(theme: &ThemeConfig) -> (r: String)
    ensures
        r@ == spec_theme_css(*theme),
{
    let mut out: Vec<char> = Vec::new();
    push_str_chars(&mut out, "\n:root {");
    push_palette_css(&mut out, &theme.colors.light_mode);
    push_str_chars(&mut out, "\n  --titleFont: \"");
    push_str_chars(&mut out, theme.typography.header.as_str());
    push_str_chars(&mut out, "\", ");
    push_str_chars(&mut out, DEFAULT_SANS);
    push_str_chars(&mut out, ";\n  --headerFont: \"");
    push_str_chars(&mut out, theme.typography.header.as_str());
    push_str_chars(&mut out, "\", ");
    push_str_chars(&mut out, DEFAULT_SANS);
    push_str_chars(&mut out, ";\n  --bodyFont: \"");
    push_str_chars(&mut out, theme.typography.body.as_str());
    push_str_chars(&mut out, "\", ");
    push_str_chars(&mut out, DEFAULT_SANS);
    push_str_chars(&mut out, ";\n  --codeFont: \"");
    push_str_chars(&mut out, theme.typography.code.as_str());
    push_str_chars(&mut out, "\", ");
    push_str_chars(&mut out, DEFAULT_MONO);
    push_str_chars(&mut out, ";\n}\n\n:root[saved-theme=\\\"dark\\\"] {");
    push_palette_css(&mut out, &theme.colors.dark_mode);
    push_str_chars(&mut out, "}\n");
    to_string(&out)
}

/// The cached compiled stylesheet, if it is still fresh against the newest
/// SCSS modification time; a stale cache yields nothing and the caller
/// recompiles and stores the result.
pub fn compiled_styles(cache: &FreshSlot<String>, scss_mtime: u64) -> (r: Option<String>)
    ensures
        cache.stamp >= scss_mtime ==> (r matches Some(css) && css == cache.value),
        cache.stamp < scss_mtime ==> r is None,
{
    match cache.read_fresh(scss_mtime) {
        Some(css) => Some(css.clone()),
        None => None,
    }
}

} // verus!
