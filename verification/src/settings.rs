//! The plugin's options.
use vstd::prelude::*;

verus! {

/// All options of the plugin.
#[derive(Debug)]
pub struct Settings {
    pub plugin_settings: PluginSettings,
    pub css_settings: CssSettings,
    pub html_settings: HtmlSettings,
}

/// Which kinds of template the plugin minifies.
#[derive(Debug, Clone, Copy, PartialEq, Eq, Structural)]
pub struct PluginSettings {
    pub minify_css: bool,
    pub minify_html: bool,
}

/// Options of CSS minification (there are none).
#[derive(Debug, Clone, Copy, PartialEq, Eq, Structural)]
pub struct CssSettings {}

/// Options handed on to the HTML minifier.
#[derive(Debug, Clone, Copy, PartialEq, Eq, Structural)]
pub struct HtmlSettings {
    pub minify_css: bool,
    pub minify_js: bool,
    pub keep_comments: bool,
}

impl Default for PluginSettings {
    /// Both CSS and HTML templates are minified.
    fn default() -> (r: Self)
        ensures
            r.minify_css,
            r.minify_html,
    {
        PluginSettings { minify_css: true, minify_html: true }
    }
}

impl Default for CssSettings {
    fn default() -> (r: Self) {
        CssSettings {  }
    }
}

impl Default for HtmlSettings {
    /// Nothing inside HTML is minified further, and comments are dropped.
    fn default() -> (r: Self)
        ensures
            !r.minify_css,
            !r.minify_js,
            !r.keep_comments,
    {
        HtmlSettings { minify_css: false, minify_js: false, keep_comments: false }
    }
}

impl Default for Settings {
    /// Every group of options at its default.
    fn default() -> (r: Self)
        ensures
            r.plugin_settings.minify_css,
            r.plugin_settings.minify_html,
            !r.html_settings.minify_css,
            !r.html_settings.minify_js,
            !r.html_settings.keep_comments,
    {
        Settings {
            plugin_settings: PluginSettings::default(),
            css_settings: CssSettings::default(),
            html_settings: HtmlSettings::default(),
        }
    }
}

} // verus!
