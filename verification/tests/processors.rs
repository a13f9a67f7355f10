use swc_minify_lits::css::{is_css, CssProcessor, UNKNOWN_PLACEHOLDER};
use swc_minify_lits::error::Error;
use swc_minify_lits::html::HtmlProcessor;
use swc_minify_lits::settings::{CssSettings, HtmlSettings, PluginSettings, Settings};
use swc_minify_lits::tpl_processor::{Template, TplProcessor};
use swc_minify_lits::{TransformResult, TransformVisitor};

fn tpl(quasis: &[&str], exprs: &[&str]) -> Template<String> {
    Template {
        quasis: quasis.iter().map(|q| q.to_string()).collect(),
        exprs: exprs.iter().map(|e| e.to_string()).collect(),
    }
}

const CSS_PLAIN: &str = "
            :host {
                font-family: sans-serif;
            }
    
            .potato {
                padding-top: 10px;
                padding-bottom: 10px;
                padding-right: 5px;
                padding-left: 5px;
            }
        ";

const CSS_SHORT: &str = "
            .potato {
                padding: 10px;
            }
        ";

const CSS_VARS: [&str; 3] = [
    "
            :host {
                font-family: sans-serif;
            }
    
            .potato {
                padding-top: ",
    "px;
                padding-bottom: ",
    "px;
            }
        ",
];

const HTML_PLAIN: &str = "
            <p>Nickname: Potato</p>
            <label>Enter new nickname:
                <input />
            </label>
            <button .disabled>
                Submit
            </button>
        ";

const HTML_VARS: [&str; 5] = [
    "
            <p>Nickname: ",
    "</p>
            <label>Enter new nickname:
                <input @input=",
    " />
            </label>
            <button @click=",
    " .disabled=",
    ">
                Submit
            </button>
        ",
];

fn visitor_with_tag(tag: Option<&str>) -> TransformVisitor {
    let mut v = TransformVisitor::default();
    v.enter_tagged_tpl(tag.map(|t| t.to_string()));
    v
}

#[test]
fn tagged_css() {
    let v = visitor_with_tag(Some("css"));
    let mut t = tpl(&[CSS_PLAIN], &[]);
    assert!(matches!(v.transform_tpl(&mut t), TransformResult::Success));
    assert_eq!(t.quasis, vec![":host{font-family:sans-serif}.potato{padding:10px 5px}"]);
}

#[test]
fn untagged_css() {
    let v = visitor_with_tag(None);
    let mut t = tpl(&[CSS_SHORT], &[]);
    assert!(matches!(v.transform_tpl(&mut t), TransformResult::Success));
    assert_eq!(t.quasis, vec![".potato{padding:10px}"]);
}

#[test]
fn tagged_css_with_vars() {
    let v = visitor_with_tag(Some("css"));
    let mut t = tpl(&CSS_VARS, &["5 + 5", "10 + 5"]);
    assert!(matches!(v.transform_tpl(&mut t), TransformResult::Success));
    assert_eq!(
        t.quasis,
        vec![":host{font-family:sans-serif}.potato{padding-top:", "px;padding-bottom:", "px}"]
    );
    assert_eq!(t.exprs, vec!["5 + 5", "10 + 5"]);
}

#[test]
fn untagged_css_with_vars() {
    let v = visitor_with_tag(None);
    let mut t = tpl(&CSS_VARS, &["5 + 5", "10 + 5"]);
    assert!(matches!(v.transform_tpl(&mut t), TransformResult::Success));
    assert_eq!(
        t.quasis,
        vec![":host{font-family:sans-serif}.potato{padding-top:", "px;padding-bottom:", "px}"]
    );
    assert_eq!(t.exprs, vec!["5 + 5", "10 + 5"]);
}

#[test]
fn tagged_html() {
    let v = visitor_with_tag(Some("html"));
    let mut t = tpl(&[HTML_PLAIN], &[]);
    assert!(matches!(v.transform_tpl(&mut t), TransformResult::Success));
    assert_eq!(
        t.quasis,
        vec!["<p>Nickname: Potato</p><label>Enter new nickname: <input></label><button .disabled>Submit</button>"]
    );
}

#[test]
fn untagged_html() {
    let v = visitor_with_tag(None);
    let mut t = tpl(&[HTML_PLAIN], &[]);
    assert!(matches!(v.transform_tpl(&mut t), TransformResult::Success));
    assert_eq!(
        t.quasis,
        vec!["<p>Nickname: Potato</p><label>Enter new nickname: <input></label><button .disabled>Submit</button>"]
    );
}

const HTML_VARS_EXPRS: [&str; 4] =
    ["this.name", "this._inputChanged", "this._updateName", "!this._submitEnabled"];

const HTML_VARS_QUASIS_OUT: [&str; 5] = [
    "<p>Nickname: ",
    "</p><label>Enter new nickname: <input @input=",
    "></label><button .disabled=",
    " @click=",
    ">Submit</button>",
];

const HTML_VARS_EXPRS_OUT: [&str; 4] =
    ["this.name", "this._inputChanged", "!this._submitEnabled", "this._updateName"];

#[test]
fn tagged_html_with_vars() {
    let v = visitor_with_tag(Some("html"));
    let mut t = tpl(&HTML_VARS, &HTML_VARS_EXPRS);
    assert!(matches!(v.transform_tpl(&mut t), TransformResult::Success));
    assert_eq!(t.quasis, HTML_VARS_QUASIS_OUT.to_vec());
    assert_eq!(t.exprs, HTML_VARS_EXPRS_OUT.to_vec());
}

#[test]
fn untagged_html_with_vars() {
    let v = visitor_with_tag(None);
    let mut t = tpl(&HTML_VARS, &HTML_VARS_EXPRS);
    assert!(matches!(v.transform_tpl(&mut t), TransformResult::Success));
    assert_eq!(t.quasis, HTML_VARS_QUASIS_OUT.to_vec());
    assert_eq!(t.exprs, HTML_VARS_EXPRS_OUT.to_vec());
}

#[test]
fn other_tags_are_left_alone() {
    let v = visitor_with_tag(Some("sql"));
    let mut t = tpl(&[CSS_SHORT], &[]);
    assert!(matches!(v.transform_tpl(&mut t), TransformResult::Skipped));
    assert_eq!(t.quasis, vec![CSS_SHORT]);
}

#[test]
fn leaving_a_tagged_template_restores_the_tag() {
    let mut v = TransformVisitor::default();
    let outer = v.enter_tagged_tpl(Some("css".to_string()));
    assert_eq!(outer, None);
    let inner = v.enter_tagged_tpl(None);
    assert_eq!(inner, Some("css".to_string()));
    let mut t = tpl(&[CSS_SHORT], &[]);
    assert!(matches!(v.transform_tpl(&mut t), TransformResult::Success));
    v.leave_tagged_tpl(inner);
    v.leave_tagged_tpl(outer);
    let mut h = tpl(&[HTML_PLAIN], &[]);
    assert!(matches!(v.transform_tpl(&mut h), TransformResult::Success));
    assert!(h.quasis[0].starts_with("<p>Nickname: Potato</p>"));
}

#[test]
fn disabled_minification_skips() {
    let settings = Settings {
        plugin_settings: PluginSettings { minify_css: false, minify_html: false },
        css_settings: CssSettings {},
        html_settings: HtmlSettings::default(),
    };
    let v = TransformVisitor::with_settings(settings);
    let mut css = tpl(&[CSS_SHORT], &[]);
    assert!(matches!(v.transform_tpl(&mut css), TransformResult::Skipped));
    assert_eq!(css.quasis, vec![CSS_SHORT]);
    let mut html = tpl(&[HTML_PLAIN], &[]);
    assert!(matches!(v.transform_tpl(&mut html), TransformResult::Skipped));
    assert_eq!(html.quasis, vec![HTML_PLAIN]);
}

#[test]
fn css_disabled_untagged_html_still_minified() {
    let settings = Settings {
        plugin_settings: PluginSettings { minify_css: false, minify_html: true },
        css_settings: CssSettings {},
        html_settings: HtmlSettings::default(),
    };
    let v = TransformVisitor::with_settings(settings);
    let mut html = tpl(&[HTML_PLAIN], &[]);
    assert!(matches!(v.transform_tpl(&mut html), TransformResult::Success));
    assert!(html.quasis[0].starts_with("<p>Nickname: Potato</p>"));
}

#[test]
fn tagged_css_that_does_not_parse_fails_and_stays() {
    let v = visitor_with_tag(Some("css"));
    let mut t = tpl(&["<p>not css"], &[]);
    match v.transform_tpl(&mut t) {
        TransformResult::Failure(e) => {
            assert!(e.is_parse_error());
            assert!(!e.message().is_empty());
        }
        _ => panic!("expected a parse failure"),
    }
    assert_eq!(t.quasis, vec!["<p>not css"]);
}

#[test]
fn is_css_tells_css_from_html() {
    assert!(is_css(&tpl(&[CSS_SHORT], &[])));
    assert!(!is_css(&tpl(&["<p>not css"], &[])));
}

#[test]
fn css_processor_rewrites_and_reorders() {
    let p = CssProcessor::new(CssSettings {});
    let mut t = tpl(&[".a{color:", ";}"], &["c"]);
    assert!(p.process_tpl(&mut t).is_ok());
    assert_eq!(t.quasis, vec![".a{color:", "}"]);
    assert_eq!(t.exprs, vec!["c"]);
}

#[test]
fn apply_css_rejects_unknown_placeholders() {
    let p = CssProcessor::default();
    let mut t = tpl(&["a", "b"], &["x"]);
    let r = p.apply_css(&mut t, "a@TEMPLATE_VARIABLE_3_()b");
    match r {
        Err(Error::CssPrintError(m)) => assert_eq!(m, UNKNOWN_PLACEHOLDER),
        _ => panic!("expected an error"),
    }
    assert_eq!(t.quasis, vec!["a", "b"]);
    let r = p.apply_css(&mut t, "a@TEMPLATE_VARIABLE_z_()b");
    assert!(matches!(r, Err(Error::CssPrintError(_))));
    assert!(p.apply_css(&mut t, "A@TEMPLATE_VARIABLE_0_()B").is_ok());
    assert_eq!(t.quasis, vec!["A", "B"]);
    assert_eq!(t.exprs, vec!["x"]);
}

#[test]
fn html_processor_never_fails_and_keeps_expressions() {
    let p = HtmlProcessor::new(HtmlSettings { minify_css: false, minify_js: false, keep_comments: true });
    let mut t = tpl(&["<!-- note -->  <b>", "</b>"], &["x"]);
    assert!(p.process_tpl(&mut t).is_ok());
    assert_eq!(t.quasis, vec!["<!-- note --><b>", "</b>"]);
    assert_eq!(t.exprs, vec!["x"]);
    let q = HtmlProcessor::default();
    let mut u = tpl(&["<!-- note -->  <b>", "</b>"], &["x"]);
    assert!(q.process_tpl(&mut u).is_ok());
    assert!(!u.quasis[0].contains("note"));
    assert!(u.quasis[0].ends_with("<b>"));
    assert_eq!(u.quasis[1], "</b>");
}

#[test]
fn error_messages_and_kinds() {
    let e = Error::CssMinifyError("m".to_string());
    assert!(!e.is_parse_error());
    assert_eq!(e.message(), "m");
    assert!(Error::CssParseError("p".to_string()).is_parse_error());
    assert_eq!(Error::CssPrintError("q".to_string()).message(), "q");
}

#[test]
fn settings_defaults() {
    let s = Settings::default();
    assert!(s.plugin_settings.minify_css);
    assert!(s.plugin_settings.minify_html);
    assert!(!s.html_settings.minify_css);
    assert!(!s.html_settings.minify_js);
    assert!(!s.html_settings.keep_comments);
    assert_eq!(HtmlProcessor::default().settings, HtmlSettings::default());
    let o = HtmlProcessor::default().minify_options();
    assert!(o.keep_closing_tags && !o.keep_comments && !o.remove_bangs);
}

#[test]
fn html_placeholders_that_name_no_expression_fall_back_to_one_placeholder() {
    let v = visitor_with_tag(Some("html"));
    let mut t = tpl(&["<p>TEMPLATE_VARIABLE_9_END</p>"], &[]);
    assert!(matches!(v.transform_tpl(&mut t), TransformResult::Success));
    assert_eq!(t.quasis, vec!["<p>"]);
}

#[test]
fn untagged_text_that_is_not_css_is_processed_as_html() {
    let v = TransformVisitor::default();
    let mut t = tpl(&[HTML_PLAIN], &[]);
    assert!(!is_css(&t));
    assert!(matches!(v.process_unknown(&mut t), TransformResult::Success));
    assert!(t.quasis[0].starts_with("<p>Nickname: Potato</p>"));
}

#[test]
fn untagged_css_is_never_processed_as_html() {
    let v = TransformVisitor::default();
    let mut t = tpl(&[CSS_SHORT], &[]);
    assert!(is_css(&t));
    assert!(matches!(v.process_unknown(&mut t), TransformResult::Success));
    assert_eq!(t.quasis, vec![".potato{padding:10px}"]);
}

#[test]
fn html_expressions_follow_reordered_attributes() {
    let p = HtmlProcessor::default();
    let mut t = tpl(&["<a href=", " id=", ">x</a>"], &["h", "i"]);
    assert!(p.process_tpl(&mut t).is_ok());
    assert_eq!(t.quasis.len(), 3);
    let rebuilt = format!("{}{}{}{}{}", t.quasis[0], t.exprs[0], t.quasis[1], t.exprs[1], t.quasis[2]);
    assert!(rebuilt == "<a href=h id=i>x</a>" || rebuilt == "<a id=i href=h>x</a>", "{}", rebuilt);
}

#[test]
fn html_text_holding_the_placeholder_is_split_at_it() {
    let p = HtmlProcessor::default();
    let mut t = tpl(&["<p>TEMPLATE_VARIABLE ", "</p>"], &["x"]);
    assert!(p.process_tpl(&mut t).is_ok());
    assert_eq!(t.quasis, vec!["<p>", " "]);
    assert_eq!(t.exprs, vec!["x"]);
}

#[test]
fn html_expressions_follow_sorted_attributes() {
    let p = HtmlProcessor::default();
    let mut t = tpl(&["<button @click=", " .disabled=", ">Go</button>"], &["a", "b"]);
    assert!(p.process_tpl(&mut t).is_ok());
    assert_eq!(t.quasis, vec!["<button .disabled=", " @click=", ">Go</button>"]);
    assert_eq!(t.exprs, vec!["b", "a"]);
}
