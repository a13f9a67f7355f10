//! Minification of CSS and HTML template literals.
//!
//! A template literal is modelled by [`tpl_processor::Template`]: its raw text
//! pieces (quasis) and the embedded expressions between them.  CSS templates
//! are joined with numbered placeholders, minified by `lightningcss`, split
//! again and their expressions reordered to follow the placeholders; HTML
//! templates go the same way through `minify-html`, with placeholders of
//! their own.  [`TransformVisitor`] decides, template by template, which
//! of the two applies.
pub mod css;
pub mod error;
pub mod html;
pub mod laws;
pub mod prelude;
pub mod settings;
pub mod stylesheet;
pub mod tpl_processor;
pub mod utils;

use vstd::prelude::*;

use crate::css::{css_outcome, css_source, is_css, CssProcessor};
use crate::stylesheet::css_parse_error;
use crate::html::{html_outcome, HtmlProcessor};
use crate::prelude::{Error, PluginSettings, Result, Settings};
use crate::tpl_processor::{Template, TplProcessor};

verus! {

/// Walks the templates of a program and minifies each one: templates tagged
/// `css` as CSS, templates tagged `html` as HTML, untagged ones as CSS when
/// their text parses as CSS and as HTML otherwise.
#[derive(Debug)]
pub struct TransformVisitor {
    settings: PluginSettings,
    css_processor: CssProcessor,
    html_processor: HtmlProcessor,
    tag: Option<String>,
}

/// What processing one template came to.
#[derive(Debug)]
pub enum TransformResult {
    Success,
    Skipped,
    Failure(Error),
}

/// The result of a processor as a transform result.
pub fn into_transform_result(r: Result<()>) -> (t: TransformResult)
    ensures
        match r {
            Ok(()) => t is Success,
            Err(e) => t == TransformResult::Failure(e),
        },
{
    match r {
        Ok(_) => TransformResult::Success,
        Err(err) => TransformResult::Failure(err),
    }
}

/// The tag `css`.
pub open spec fn css_tag() -> Seq<char> {
    seq!['c', 's', 's']
}

/// The tag `html`.
pub open spec fn html_tag() -> Seq<char> {
    seq!['h', 't', 'm', 'l']
}

impl Default for TransformVisitor {
    /// Both kinds of template are minified, with default options, outside any tag.
    fn default() -> (r: Self)
        ensures
            r.spec_settings().minify_css,
            r.spec_settings().minify_html,
            r.spec_tag() is None,
            !r.spec_html_settings().minify_css,
            !r.spec_html_settings().minify_js,
            !r.spec_html_settings().keep_comments,
    {
        TransformVisitor {
            settings: PluginSettings::default(),
            css_processor: CssProcessor::default(),
            html_processor: HtmlProcessor::default(),
            tag: None,
        }
    }
}

impl TransformVisitor {
    /// Which kinds of template are minified.
    pub closed spec fn spec_settings(&self) -> PluginSettings {
        self.settings
    }

    /// The options of HTML minification.
    pub closed spec fn spec_html_settings(&self) -> crate::prelude::HtmlSettings {
        self.html_processor.settings
    }

    /// The tag of the innermost tagged template being visited.
    pub closed spec fn spec_tag(&self) -> Option<String> {
        self.tag
    }

    /// A visitor with the given options, outside any tag.
    pub fn with_settings(settings: Settings) -> (r: Self)
        ensures
            r.spec_settings() == settings.plugin_settings,
            r.spec_html_settings() == settings.html_settings,
            r.spec_tag() is None,
    {
        TransformVisitor {
            settings: settings.plugin_settings,
            css_processor: CssProcessor::new(settings.css_settings),
            html_processor: HtmlProcessor::new(settings.html_settings),
            tag: None,
        }
    }

    /// Processing as CSS: the CSS outcome when CSS is minified, else skipped.
    pub open spec fn css_step<E: Clone>(
        &self,
        old: Template<E>,
        new: Template<E>,
        r: TransformResult,
    ) -> bool {
        if self.spec_settings().minify_css {
            match r {
                TransformResult::Success => css_outcome(old, new, Ok(())),
                TransformResult::Failure(e) => css_outcome(old, new, Err(e)),
                TransformResult::Skipped => false,
            }
        } else {
            r is Skipped && new.same_as(old)
        }
    }

    /// Processing as HTML: the HTML outcome when HTML is minified, else skipped.
    pub open spec fn html_step<E: Clone>(
        &self,
        old: Template<E>,
        new: Template<E>,
        r: TransformResult,
    ) -> bool {
        if self.spec_settings().minify_html {
            &&& r is Success
            &&& html_outcome(self.spec_html_settings(), old, new)
        } else {
            r is Skipped && new.same_as(old)
        }
    }

    /// Processing an untagged template: as HTML when its text does not parse
    /// as CSS, else as CSS.
    pub open spec fn unknown_step<E: Clone>(
        &self,
        old: Template<E>,
        new: Template<E>,
        r: TransformResult,
    ) -> bool {
        if css_parse_error(css_source(old.raws())) is Some {
            self.html_step(old, new, r)
        } else {
            self.css_step(old, new, r)
        }
    }

    /// Processing a template under the current tag.
    pub open spec fn tpl_step<E: Clone>(
        &self,
        old: Template<E>,
        new: Template<E>,
        r: TransformResult,
    ) -> bool {
        match self.spec_tag() {
            None => self.unknown_step(old, new, r),
            Some(t) => if t@ == css_tag() {
                self.css_step(old, new, r)
            } else if t@ == html_tag() {
                self.html_step(old, new, r)
            } else {
                r is Skipped && new.same_as(old)
            },
        }
    }

    pub fn process_tpl_css<E: Clone>(&self, tpl: &mut Template<E>) -> (r: TransformResult)
        ensures
            self.css_step(*old(tpl), *final(tpl), r),
    {
        if self.settings.minify_css {
            into_transform_result(self.css_processor.process_tpl(tpl))
        } else {
            TransformResult::Skipped
        }
    }

    pub fn process_tpl_html<E: Clone>(&self, tpl: &mut Template<E>) -> (r: TransformResult)
        ensures
            self.html_step(*old(tpl), *final(tpl), r),
    {
        if self.settings.minify_html {
            into_transform_result(self.html_processor.process_tpl(tpl))
        } else {
            TransformResult::Skipped
        }
    }

    pub fn process_unknown<E: Clone>(&self, tpl: &mut Template<E>) -> (r: TransformResult)
        ensures
            self.unknown_step(*old(tpl), *final(tpl), r),
    {
        // CSS comes first: it fails to parse when the text is not CSS, and
        // only then is the HTML attempt worth making.
        let res = self.process_tpl_css(tpl);
        match res {
            TransformResult::Failure(err) => {
                if err.is_parse_error() {
                    self.process_tpl_html(tpl)
                } else {
                    TransformResult::Failure(err)
                }
            },
            TransformResult::Skipped => {
                if !is_css(tpl) {
                    self.process_tpl_html(tpl)
                } else {
                    TransformResult::Skipped
                }
            },
            TransformResult::Success => TransformResult::Success,
        }
    }

    /// Processes a template whose nested templates were processed already.
    pub fn transform_tpl<E: Clone>(&self, tpl: &mut Template<E>) -> (r: TransformResult)
        ensures
            self.tpl_step(*old(tpl), *final(tpl), r),
    {
        match &self.tag {
            Some(s) => {
                let css = "css".to_owned();
                let html = "html".to_owned();
                proof {
                    reveal_strlit("css");
                    reveal_strlit("html");
                    assert(css@ =~= css_tag());
                    assert(html@ =~= html_tag());
                }
                if s.eq(&css) {
                    self.process_tpl_css(tpl)
                } else if s.eq(&html) {
                    self.process_tpl_html(tpl)
                } else {
                    TransformResult::Skipped
                }
            },
            None => self.process_unknown(tpl),
        }
    }

    /// Enters a tagged template: its tag, when it is an identifier, becomes
    /// the current tag.  Gives back the tag to restore on leaving.
    pub fn enter_tagged_tpl(&mut self, tag_ident: Option<String>) -> (old_tag: Option<String>)
        ensures
            old_tag == old(self).spec_tag(),
            final(self).spec_tag() == (if tag_ident is Some {
                tag_ident
            } else {
                old(self).spec_tag()
            }),
            final(self).spec_settings() == old(self).spec_settings(),
            final(self).spec_html_settings() == old(self).spec_html_settings(),
    {
        let old_tag = self.tag.clone();
        if tag_ident.is_some() {
            self.tag = tag_ident;
        }
        old_tag
    }

    /// Leaves a tagged template: the tag from before it is current again.
    pub fn leave_tagged_tpl(&mut self, old_tag: Option<String>)
        ensures
            final(self).spec_tag() == old_tag,
            final(self).spec_settings() == old(self).spec_settings(),
            final(self).spec_html_settings() == old(self).spec_html_settings(),
    {
        self.tag = old_tag;
    }
}

} // verus!
