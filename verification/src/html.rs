//! Minification of HTML templates with `minify-html`.
//!
//! The quasis are joined with one placeholder, the text is minified, and the
//! minified text is split at the placeholder again.  The same is done with
//! numbered placeholders, so that the expressions can follow their
//! placeholders where the minifier reorders attributes.
use minify_html::Cfg;
use vstd::prelude::*;

use crate::prelude::{HtmlSettings, Result};
use crate::tpl_processor::{Template, TplProcessor};
use crate::utils::quasi;
use crate::utils::text::{join, same_pieces, split, split_str};
use crate::utils::tpl::{
    apply_numbered, check_placeholders_exact, join_numbered, join_quasis, new_quasis_of,
    numbered_applied, placeholders_exact, split_new_quasis, zip_replace,
};

verus! {

/// The start of the placeholder that stands for an expression while the HTML
/// is minified.
pub const PLACEHOLDER_BASE: &'static str = "TEMPLATE_VARIABLE_";

/// The end of a placeholder, after the expression's number.
pub const PLACEHOLDER_SUFFIX: &'static str = "_END";

/// The one placeholder that stands for every expression in the text whose
/// minified form gives the new quasis.
pub const PLACEHOLDER: &'static str = "TEMPLATE_VARIABLE";

/// The options of `minify-html`, one for each field of its `Cfg`.
#[derive(Debug, Clone, Copy, PartialEq, Eq, Structural)]
pub struct HtmlMinifyOptions {
    pub do_not_minify_doctype: bool,
    pub ensure_spec_compliant_unquoted_attribute_values: bool,
    pub keep_closing_tags: bool,
    pub keep_html_and_head_opening_tags: bool,
    pub keep_spaces_between_attributes: bool,
    pub keep_comments: bool,
    pub keep_input_type_text_attr: bool,
    pub keep_ssi_comments: bool,
    pub preserve_brace_template_syntax: bool,
    pub preserve_chevron_percent_template_syntax: bool,
    pub minify_css: bool,
    pub minify_js: bool,
    pub remove_bangs: bool,
    pub remove_processing_instructions: bool,
}

/// The options used for templates: everything that keeps the markup as
/// written is on, and comments, inline CSS and inline JavaScript follow the
/// settings.
pub open spec fn html_minify_options(settings: HtmlSettings) -> HtmlMinifyOptions {
    HtmlMinifyOptions {
        do_not_minify_doctype: true,
        ensure_spec_compliant_unquoted_attribute_values: true,
        keep_closing_tags: true,
        keep_html_and_head_opening_tags: true,
        keep_spaces_between_attributes: true,
        keep_comments: settings.keep_comments,
        keep_input_type_text_attr: true,
        keep_ssi_comments: true,
        preserve_brace_template_syntax: true,
        preserve_chevron_percent_template_syntax: true,
        minify_css: settings.minify_css,
        minify_js: settings.minify_js,
        remove_bangs: false,
        remove_processing_instructions: false,
    }
}

/// The text that `minify_html::minify` makes of `html` under `options`, read
/// as UTF-8.
pub uninterp spec fn html_minified(html: Seq<char>, options: HtmlMinifyOptions) -> Seq<char>;

/// Minifies `raw` with `minify_html::minify`, each field of its `Cfg` taken
/// from the field of the same name in `options`, and reads the bytes it gives
/// back as UTF-8 (`String::from_utf8_lossy`).  The contract claims that the
/// result is what `html_minified` names for these arguments.
#[verifier::external_body]
fn minify_html_text(raw: &str, options: &HtmlMinifyOptions) -> (res: String)
    ensures
        res@ == html_minified(raw@, *options),
{
    let o = options;
    let cfg = Cfg {
        do_not_minify_doctype: o.do_not_minify_doctype, keep_closing_tags: o.keep_closing_tags,
        ensure_spec_compliant_unquoted_attribute_values: o.ensure_spec_compliant_unquoted_attribute_values,
        keep_html_and_head_opening_tags: o.keep_html_and_head_opening_tags, keep_comments: o.keep_comments,
        keep_spaces_between_attributes: o.keep_spaces_between_attributes, minify_js: o.minify_js,
        keep_input_type_text_attr: o.keep_input_type_text_attr, keep_ssi_comments: o.keep_ssi_comments,
        preserve_brace_template_syntax: o.preserve_brace_template_syntax, minify_css: o.minify_css,
        preserve_chevron_percent_template_syntax: o.preserve_chevron_percent_template_syntax,
        remove_bangs: o.remove_bangs, remove_processing_instructions: o.remove_processing_instructions,
    };
    String::from_utf8_lossy(&minify_html::minify(raw.as_bytes(), &cfg)).into_owned()
}

/// The HTML text of the template: its quasis with numbered placeholders
/// between them.
pub open spec fn html_source(raws: Seq<Seq<char>>) -> Seq<char> {
    join_numbered(raws, PLACEHOLDER_BASE@, PLACEHOLDER_SUFFIX@, 0)
}

/// The quasis that the template gets from the text joined with the one
/// placeholder, minified and split at the placeholder again, paired with the
/// old quasis.
pub open spec fn html_rewritten_in_order(settings: HtmlSettings, raws: Seq<Seq<char>>) -> Seq<
    Seq<char>,
> {
    zip_replace(
        raws,
        split(html_minified(join(raws, PLACEHOLDER@), html_minify_options(settings)), PLACEHOLDER@),
    )
}

/// Whether the numbered placeholders come through the minifier one to one:
/// they name each of `n` expressions exactly once, and the text between them
/// is the text between the one placeholder in the other minified text.
pub open spec fn html_placeholders_agree(settings: HtmlSettings, raws: Seq<Seq<char>>, n: nat) -> bool {
    let out = html_minified(html_source(raws), html_minify_options(settings));
    let plain = html_minified(join(raws, PLACEHOLDER@), html_minify_options(settings));
    &&& placeholders_exact(out, PLACEHOLDER_BASE@, PLACEHOLDER_SUFFIX@, n)
    &&& new_quasis_of(out, PLACEHOLDER_BASE@, PLACEHOLDER_SUFFIX@) == split(plain, PLACEHOLDER@)
}

/// What processing a template as HTML does: the quasis are those of the text
/// joined with the one placeholder, minified and split at it again.  When the
/// numbered placeholders come through the minifier one to one, the
/// expressions follow their placeholders (the minifier may reorder
/// attributes); otherwise they keep their order.
pub open spec fn html_outcome<E: Clone>(settings: HtmlSettings, old: Template<E>, new: Template<E>) -> bool {
    let out = html_minified(html_source(old.raws()), html_minify_options(settings));
    &&& new.raws() == html_rewritten_in_order(settings, old.raws())
    &&& if html_placeholders_agree(settings, old.raws(), old.exprs@.len()) {
        numbered_applied(old, new, out, PLACEHOLDER_BASE@, PLACEHOLDER_SUFFIX@)
    } else {
        new.exprs@ == old.exprs@
    }
}

/// Minifies the HTML of templates.
#[derive(Debug)]
pub struct HtmlProcessor {
    pub settings: HtmlSettings,
}

impl Default for HtmlProcessor {
    fn default() -> (r: Self)
        ensures
            !r.settings.minify_css,
            !r.settings.minify_js,
            !r.settings.keep_comments,
    {
        HtmlProcessor { settings: HtmlSettings::default() }
    }
}

impl HtmlProcessor {
    pub fn new(settings: HtmlSettings) -> (r: Self)
        ensures
            r.settings == settings,
    {
        Self { settings }
    }

    /// The options that the minifier is given.
    pub fn minify_options(&self) -> (r: HtmlMinifyOptions)
        ensures
            r == html_minify_options(self.settings),
            r.minify_css == self.settings.minify_css,
            r.minify_js == self.settings.minify_js,
            r.keep_comments == self.settings.keep_comments,
    {
        HtmlMinifyOptions {
            do_not_minify_doctype: true,
            ensure_spec_compliant_unquoted_attribute_values: true,
            keep_closing_tags: true,
            keep_html_and_head_opening_tags: true,
            keep_spaces_between_attributes: true,
            keep_comments: self.settings.keep_comments,
            keep_input_type_text_attr: true,
            keep_ssi_comments: true,
            preserve_brace_template_syntax: true,
            preserve_chevron_percent_template_syntax: true,
            minify_css: self.settings.minify_css,
            minify_js: self.settings.minify_js,
            remove_bangs: false,
            remove_processing_instructions: false,
        }
    }

    fn transform_html(&self, raw_html: &str) -> (res: Result<String>)
        ensures
            res matches Ok(s) && s@ == html_minified(raw_html@, html_minify_options(self.settings)),
    {
        let options = self.minify_options();
        Ok(minify_html_text(raw_html, &options))
    }
}

impl TplProcessor for HtmlProcessor {
    fn process_tpl<E: Clone>(&self, tpl: &mut Template<E>) -> (res: Result<()>)
        ensures
            res is Ok,
            html_outcome(self.settings, *old(tpl), *final(tpl)),
    {
        let raw_html = join_quasis(tpl, PLACEHOLDER_BASE, PLACEHOLDER_SUFFIX);
        let new_raw = match self.transform_html(raw_html.as_str()) {
            Ok(s) => s,
            Err(e) => {
                return Err(e);
            },
        };
        let raw_in_order = quasi::join_quasis(tpl, PLACEHOLDER);
        let new_in_order = match self.transform_html(raw_in_order.as_str()) {
            Ok(s) => s,
            Err(e) => {
                return Err(e);
            },
        };
        if placeholders_agree(new_raw.as_str(), new_in_order.as_str(), tpl.exprs.len()) {
            apply_numbered(tpl, new_raw.as_str(), PLACEHOLDER_BASE, PLACEHOLDER_SUFFIX);
        } else {
            quasi::replace_quasis(tpl, new_in_order.as_str(), PLACEHOLDER);
        }
        Ok(())
    }
}

/// Whether the numbered placeholders of `new_raw` name each of `n` expressions
/// exactly once, with the text between them that stands between the one
/// placeholder in `new_in_order`.
fn placeholders_agree(new_raw: &str, new_in_order: &str, n: usize) -> (r: bool)
    ensures
        r == (placeholders_exact(new_raw@, PLACEHOLDER_BASE@, PLACEHOLDER_SUFFIX@, n as nat)
            && new_quasis_of(new_raw@, PLACEHOLDER_BASE@, PLACEHOLDER_SUFFIX@) == split(
            new_in_order@,
            PLACEHOLDER@,
        )),
{
    if !check_placeholders_exact(new_raw, PLACEHOLDER_BASE, PLACEHOLDER_SUFFIX, n) {
        return false;
    }
    let (_ixs, numbered) = split_new_quasis(new_raw, PLACEHOLDER_BASE, PLACEHOLDER_SUFFIX);
    let plain = split_str(new_in_order, PLACEHOLDER);
    same_pieces(&numbered, &plain)
}

} // verus!
