//! Minification of CSS templates with `lightningcss`.
//!
//! The quasis are joined with numbered placeholders that read as CSS at-rules,
//! the text is parsed, minified and printed, and the printed text is split at
//! its placeholders again; the expressions follow their placeholders.
use vstd::prelude::*;

use crate::prelude::{CssSettings, Error, Result};
use crate::stylesheet::{
    css_minify_error, css_parse_error, css_printed, minify_stylesheet, parse_stylesheet,
    print_stylesheet, ParsedCss,
};
use crate::tpl_processor::{Template, TplProcessor};
use crate::utils::tpl::{apply_numbered, join_numbered, join_quasis, numbered_applied, placeholders_fit};

verus! {

/// The start of a placeholder.
pub const PLACEHOLDER_BASE: &'static str = "@TEMPLATE_VARIABLE_";

/// The end of a placeholder, after the expression's number.
pub const PLACEHOLDER_SUFFIX: &'static str = "_()";

/// The error message when the printed CSS holds a placeholder that names no
/// expression of the template.
pub const UNKNOWN_PLACEHOLDER: &'static str = "printed CSS holds a template placeholder that names no expression";

/// The CSS text of the template: its quasis with numbered placeholders between them.
pub open spec fn css_source(raws: Seq<Seq<char>>) -> Seq<char> {
    join_numbered(raws, PLACEHOLDER_BASE@, PLACEHOLDER_SUFFIX@, 0)
}

/// Every placeholder of the printed CSS carries a readable number that names
/// one of `n_exprs` expressions.
pub open spec fn css_placeholders_fit(printed: Seq<char>, n_exprs: nat) -> bool {
    placeholders_fit(printed, PLACEHOLDER_BASE@, PLACEHOLDER_SUFFIX@, n_exprs)
}

/// `new` is `old` rewritten after the printed CSS: the quasis take the text
/// between the placeholders, and the expressions follow the placeholders.
pub open spec fn css_applied<E: Clone>(old: Template<E>, new: Template<E>, printed: Seq<char>) -> bool {
    numbered_applied(old, new, printed, PLACEHOLDER_BASE@, PLACEHOLDER_SUFFIX@)
}

/// What rewriting a template after printed CSS does: when every placeholder
/// names an expression, the rewrite; otherwise the unknown-placeholder error
/// and no change.
pub open spec fn css_apply_outcome<E: Clone>(
    old: Template<E>,
    new: Template<E>,
    printed: Seq<char>,
    res: Result<()>,
) -> bool {
    if css_placeholders_fit(printed, old.exprs@.len()) {
        res is Ok && css_applied(old, new, printed)
    } else {
        &&& res matches Err(e) && e is CssPrintError && e.spec_message() == UNKNOWN_PLACEHOLDER@
        &&& new.same_as(old)
    }
}

/// What processing a template as CSS does: its CSS text is parsed, minified
/// once and printed minified; the first step that fails gives its error and
/// leaves the template unchanged, and the printed text rewrites the template.
pub open spec fn css_outcome<E: Clone>(old: Template<E>, new: Template<E>, res: Result<()>) -> bool {
    let src = css_source(old.raws());
    match css_parse_error(src) {
        Some(m) => res matches Err(e) && e is CssParseError && e.spec_message() == m
            && new.same_as(old),
        None => match css_minify_error(src, 0) {
            Some(m) => res matches Err(e) && e is CssMinifyError && e.spec_message() == m
                && new.same_as(old),
            None => match css_printed(src, 1, true) {
                Err(m) => res matches Err(e) && e is CssPrintError && e.spec_message() == m
                    && new.same_as(old),
                Ok(printed) => css_apply_outcome(old, new, printed, res),
            },
        },
    }
}

fn parse_css<'raw>(raw_css: &'raw str) -> (res: Result<ParsedCss<'raw>>)
    ensures
        match css_parse_error(raw_css@) {
            None => res matches Ok(css) && css.source() == raw_css@ && css.passes() == 0
                && css.known(),
            Some(m) => res matches Err(e) && e is CssParseError && e.spec_message() == m,
        },
{
    match parse_stylesheet(raw_css) {
        Ok(sheet) => Ok(sheet),
        Err(m) => Err(Error::CssParseError(m)),
    }
}

/// Whether the template's CSS text parses.
pub fn is_css<E>(tpl: &Template<E>) -> (r: bool)
    ensures
        r == (css_parse_error(css_source(tpl.raws())) is None),
{
    let raw = join_quasis(tpl, PLACEHOLDER_BASE, PLACEHOLDER_SUFFIX);
    let parsed = match parse_css(raw.as_str()) {
        Ok(_) => true,
        Err(_) => false,
    };
    parsed
}

/// Minifies the CSS of templates.
#[derive(Debug)]
pub struct CssProcessor {
    pub settings: CssSettings,
}

impl Default for CssProcessor {
    fn default() -> (r: Self) {
        CssProcessor { settings: CssSettings::default() }
    }
}

impl CssProcessor {
    pub fn new(settings: CssSettings) -> (r: Self)
        ensures
            r.settings == settings,
    {
        Self { settings }
    }

    /// Minifies the style sheet once: on a described sheet, success exactly
    /// when the minifier reports no error, else that error's message.
    fn transform_css(&self, stylesheet: &mut ParsedCss<'_>) -> (res: Result<()>)
        ensures
            final(stylesheet).source() == old(stylesheet).source(),
            res matches Err(e) ==> e is CssMinifyError,
            res is Ok ==> final(stylesheet).passes() == old(stylesheet).passes() + 1
                && final(stylesheet).known() == old(stylesheet).known(),
            old(stylesheet).known() ==> match css_minify_error(
                old(stylesheet).source(),
                old(stylesheet).passes(),
            ) {
                None => res is Ok,
                Some(m) => res matches Err(e) && e.spec_message() == m,
            },
    {
        match minify_stylesheet(stylesheet) {
            Ok(()) => Ok(()),
            Err(m) => Err(Error::CssMinifyError(m)),
        }
    }

    /// Prints the style sheet minified: on a described sheet, the printed
    /// code, or the printer's error message.
    fn print_css(&self, stylesheet: &ParsedCss<'_>) -> (res: Result<String>)
        ensures
            res matches Err(e) ==> e is CssPrintError,
            stylesheet.known() ==> match css_printed(
                stylesheet.source(),
                stylesheet.passes(),
                true,
            ) {
                Ok(p) => res matches Ok(code) && code@ == p,
                Err(m) => res matches Err(e) && e.spec_message() == m,
            },
    {
        match print_stylesheet(stylesheet, true) {
            Ok(code) => Ok(code),
            Err(m) => Err(Error::CssPrintError(m)),
        }
    }

    /// Rewrites the template after its printed CSS: the quasis take the text
    /// between the placeholders and the expressions follow the placeholders.
    /// When a placeholder names no expression, the template stays as it is.
    pub fn apply_css<E: Clone>(&self, tpl: &mut Template<E>, new_css_raw: &str) -> (res: Result<
        (),
    >)
        ensures
            css_apply_outcome(*old(tpl), *final(tpl), new_css_raw@, res),
    {
        if apply_numbered(tpl, new_css_raw, PLACEHOLDER_BASE, PLACEHOLDER_SUFFIX) {
            Ok(())
        } else {
            Err(Error::CssPrintError(UNKNOWN_PLACEHOLDER.to_owned()))
        }
    }
}

impl TplProcessor for CssProcessor {
    fn process_tpl<E: Clone>(&self, tpl: &mut Template<E>) -> (res: Result<()>)
        ensures
            css_outcome(*old(tpl), *final(tpl), res),
    {
        let css_raw = join_quasis(tpl, PLACEHOLDER_BASE, PLACEHOLDER_SUFFIX);
        let mut stylesheet = match parse_css(css_raw.as_str()) {
            Ok(sheet) => sheet,
            Err(e) => {
                return Err(e);
            },
        };
        match self.transform_css(&mut stylesheet) {
            Ok(()) => {},
            Err(e) => {
                return Err(e);
            },
        }
        let new_css_raw = match self.print_css(&stylesheet) {
            Ok(code) => code,
            Err(e) => {
                return Err(e);
            },
        };
        self.apply_css(tpl, new_css_raw.as_str())
    }
}

} // verus!
