use swc_minify_lits::css::{PLACEHOLDER_BASE, PLACEHOLDER_SUFFIX};
use swc_minify_lits::html::{PLACEHOLDER_BASE as HTML_BASE, PLACEHOLDER_SUFFIX as HTML_SUFFIX};
use swc_minify_lits::tpl_processor::Template;
use swc_minify_lits::utils::quasi;
use swc_minify_lits::utils::text::{decimal_string, find_in, parse_u32_in, split_str};
use swc_minify_lits::utils::tpl::{
    join_quasis, reorder_exprs, replace_quasis, split_new_quasis, try_split_new_quasis,
};

const PLACEHOLDER: &str = "TEMPLATE_VARIABLE";

fn tpl(quasis: &[&str], exprs: &[&str]) -> Template<String> {
    Template {
        quasis: quasis.iter().map(|q| q.to_string()).collect(),
        exprs: exprs.iter().map(|e| e.to_string()).collect(),
    }
}

fn chars(s: &str) -> Vec<char> {
    s.chars().collect()
}

#[test]
fn decimal_string_spells_numbers() {
    assert_eq!(decimal_string(0), "0");
    assert_eq!(decimal_string(7), "7");
    assert_eq!(decimal_string(10), "10");
    assert_eq!(decimal_string(4096), "4096");
}

#[test]
fn parse_u32_in_follows_str_parse() {
    let cases = ["0", "42", "+7", "-7", "+", "", "4294967295", "4294967296", "12a", "007"];
    for case in cases {
        let cs = chars(case);
        assert_eq!(parse_u32_in(&cs, 0, cs.len()), case.parse::<u32>().ok(), "case {:?}", case);
    }
}

#[test]
fn find_in_finds_the_first_occurrence_in_range() {
    let s = chars("abcabc");
    let pat = chars("bc");
    assert_eq!(find_in(&s, &pat, 0, 6), Some(1));
    assert_eq!(find_in(&s, &pat, 2, 6), Some(4));
    assert_eq!(find_in(&s, &pat, 2, 5), None);
}

#[test]
fn split_str_follows_str_split() {
    let cases = [
        ("a,b,,c", ","),
        ("", ","),
        (",", ","),
        ("abc", "xy"),
        ("aXYbXY", "XY"),
        ("rust", ""),
        ("", ""),
    ];
    for (s, sep) in cases {
        let expected: Vec<&str> = s.split(sep).collect();
        assert_eq!(split_str(s, sep), expected, "case {:?}", s);
    }
}

#[test]
fn css_join_numbers_the_placeholders() {
    let t = tpl(&["a", "b", "c"], &["x", "y"]);
    assert_eq!(
        join_quasis(&t, PLACEHOLDER_BASE, PLACEHOLDER_SUFFIX),
        "a@TEMPLATE_VARIABLE_0_()b@TEMPLATE_VARIABLE_1_()c"
    );
    let single = tpl(&["only"], &[]);
    assert_eq!(join_quasis(&single, PLACEHOLDER_BASE, PLACEHOLDER_SUFFIX), "only");
    let none = tpl(&[], &[]);
    assert_eq!(join_quasis(&none, PLACEHOLDER_BASE, PLACEHOLDER_SUFFIX), "");
}

#[test]
fn split_new_quasis_reads_numbers_and_quasis() {
    let (ixs, quasis) = split_new_quasis(
        "x{a:@TEMPLATE_VARIABLE_1_()px;b:@TEMPLATE_VARIABLE_0_()px}",
        PLACEHOLDER_BASE,
        PLACEHOLDER_SUFFIX,
    );
    assert_eq!(ixs, vec![1, 0]);
    assert_eq!(quasis, vec!["x{a:", "px;b:", "px}"]);
}

#[test]
fn split_new_quasis_keeps_pieces_without_suffix() {
    let (ixs, quasis) =
        split_new_quasis("a@TEMPLATE_VARIABLE_b", PLACEHOLDER_BASE, PLACEHOLDER_SUFFIX);
    assert!(ixs.is_empty());
    assert_eq!(quasis, vec!["a", "b"]);
}

#[test]
fn try_split_new_quasis_rejects_unreadable_numbers() {
    assert!(try_split_new_quasis("a@TEMPLATE_VARIABLE_x_()b", PLACEHOLDER_BASE, PLACEHOLDER_SUFFIX)
        .is_none());
    assert!(try_split_new_quasis(
        "a@TEMPLATE_VARIABLE_99999999999_()b",
        PLACEHOLDER_BASE,
        PLACEHOLDER_SUFFIX
    )
    .is_none());
    assert!(try_split_new_quasis("a_()b", PLACEHOLDER_BASE, PLACEHOLDER_SUFFIX).is_none());
}

#[test]
fn numbered_join_then_split_gives_back_the_template() {
    let t = tpl(&[".a{b:", "px;c:", "}"], &["1", "2"]);
    let joined = join_quasis(&t, PLACEHOLDER_BASE, PLACEHOLDER_SUFFIX);
    let (ixs, quasis) = split_new_quasis(&joined, PLACEHOLDER_BASE, PLACEHOLDER_SUFFIX);
    assert_eq!(ixs, vec![0, 1]);
    assert_eq!(quasis, vec![".a{b:", "px;c:", "}"]);
}

#[test]
fn reorder_exprs_copies_by_index() {
    let mut t = tpl(&["a", "b", "c"], &["x", "y"]);
    reorder_exprs(&mut t, vec![1, 0, 1]);
    assert_eq!(t.exprs, vec!["y", "x", "y"]);
    assert_eq!(t.quasis, vec!["a", "b", "c"]);
}

#[test]
fn replace_quasis_pairs_up_to_the_shorter() {
    let mut t = tpl(&["a", "b", "c"], &["x", "y"]);
    replace_quasis(&mut t, vec!["A", "B"]);
    assert_eq!(t.quasis, vec!["A", "B", "c"]);
    replace_quasis(&mut t, vec!["1", "2", "3", "4"]);
    assert_eq!(t.quasis, vec!["1", "2", "3"]);
    assert_eq!(t.exprs, vec!["x", "y"]);
}

#[test]
fn html_join_and_replace_round_trip() {
    let mut t = tpl(&["<p>", "</p><i>", "</i>"], &["a", "b"]);
    let joined = quasi::join_quasis(&t, PLACEHOLDER);
    assert_eq!(joined, "<p>TEMPLATE_VARIABLE</p><i>TEMPLATE_VARIABLE</i>");
    quasi::replace_quasis(&mut t, &joined, PLACEHOLDER);
    assert_eq!(t.quasis, vec!["<p>", "</p><i>", "</i>"]);
    quasi::replace_quasis(&mut t, "X", PLACEHOLDER);
    assert_eq!(t.quasis, vec!["X", "</p><i>", "</i>"]);
}

#[test]
fn split_text_is_rebuilt_from_quasis_and_numbers() {
    let text = "x{a:@TEMPLATE_VARIABLE_1_()px;b:@TEMPLATE_VARIABLE_0_()px}";
    let (ixs, quasis) = split_new_quasis(text, PLACEHOLDER_BASE, PLACEHOLDER_SUFFIX);
    let mut rebuilt = quasis[0].to_string();
    for (k, ix) in ixs.iter().enumerate() {
        rebuilt.push_str(PLACEHOLDER_BASE);
        rebuilt.push_str(&ix.to_string());
        rebuilt.push_str(PLACEHOLDER_SUFFIX);
        rebuilt.push_str(quasis[k + 1]);
    }
    assert_eq!(rebuilt, text);
}

#[test]
fn html_join_numbers_the_placeholders() {
    let t = tpl(&["<p>", "</p><i>", "</i>"], &["a", "b"]);
    assert_eq!(
        join_quasis(&t, HTML_BASE, HTML_SUFFIX),
        "<p>TEMPLATE_VARIABLE_0_END</p><i>TEMPLATE_VARIABLE_1_END</i>"
    );
}
