//! Style sheets of `lightningcss`, each kept together with what it came
//! from: the text it was parsed from and the minify passes it went through.
//! The fields are private to this module and only the calls below change
//! them, so a sheet is always the one that its source and passes describe.
use lightningcss::stylesheet::{MinifyOptions, ParserOptions, PrinterOptions, StyleSheet};
use vstd::prelude::*;

verus! {

/// A style sheet as `lightningcss` holds it.  Its type names an at-rule type
/// that `lightningcss` does not export, so it stays out of Verus's sight.
#[verifier::external_body]
pub struct Sheet<'a> {
    sheet: StyleSheet<'a, 'a>,
}

/// A parsed style sheet, with the text it was parsed from, the number of
/// minify passes that it went through, and whether it is still what these
/// two describe (a failed minify pass may leave it half done).
pub struct ParsedCss<'a> {
    sheet: Sheet<'a>,
    source: Ghost<Seq<char>>,
    passes: Ghost<nat>,
    known: Ghost<bool>,
}

impl<'a> ParsedCss<'a> {
    /// The text the sheet was parsed from.
    pub closed spec fn source(&self) -> Seq<char> {
        self.source@
    }

    /// The number of minify passes the sheet went through.
    pub closed spec fn passes(&self) -> nat {
        self.passes@
    }

    /// Whether the sheet is what its source and passes describe.
    pub closed spec fn known(&self) -> bool {
        self.known@
    }
}

/// The error message of `lightningcss` when `StyleSheet::parse` with default
/// options rejects `css`, or nothing when it accepts the text.
pub uninterp spec fn css_parse_error(css: Seq<char>) -> Option<Seq<char>>;

/// The error message of `StyleSheet::minify` with default options on the
/// sheet parsed from `css` after `passes` earlier successful passes, or
/// nothing when the pass succeeds.
pub uninterp spec fn css_minify_error(css: Seq<char>, passes: nat) -> Option<Seq<char>>;

/// What `StyleSheet::to_css` with default options but for `minify` gives for
/// the sheet parsed from `css` after `passes` successful minify passes: the
/// printed code, or the error message.
pub uninterp spec fn css_printed(css: Seq<char>, passes: nat, minify: bool) -> Result<
    Seq<char>,
    Seq<char>,
>;

/// Parses `raw` with `StyleSheet::parse` and default `ParserOptions`.  The
/// contract claims that parsing succeeds exactly when `css_parse_error` gives
/// nothing, that a failure carries the message (`to_string`) that it names,
/// and that the sheet is recorded as parsed from `raw` with no minify pass.
#[verifier::external_body]
pub fn parse_stylesheet<'a>(raw: &'a str) -> (res: core::result::Result<ParsedCss<'a>, String>)
    ensures
        match css_parse_error(raw@) {
            None => res matches Ok(css) && css.source() == raw@ && css.passes() == 0
                && css.known(),
            Some(m) => res matches Err(e) && e@ == m,
        },
{
    match StyleSheet::parse(raw, ParserOptions::default()) {
        Ok(sheet) => Ok(
            ParsedCss {
                sheet: Sheet { sheet },
                source: Ghost(raw@),
                passes: Ghost(0),
                known: Ghost(true),
            },
        ),
        Err(e) => Err(e.to_string()),
    }
}

/// Minifies the sheet in place with `StyleSheet::minify` and default
/// `MinifyOptions` (default browser targets, no unused symbols).  The contract
/// claims that on a sheet that its record describes, the pass fails exactly
/// when `css_minify_error` names a message, with that message; a successful
/// pass counts one pass more, and a failed one leaves the sheet undescribed.
#[verifier::external_body]
pub fn minify_stylesheet(css: &mut ParsedCss<'_>) -> (res: core::result::Result<(), String>)
    ensures
        final(css).source() == old(css).source(),
        res is Ok ==> final(css).passes() == old(css).passes() + 1 && final(css).known()
            == old(css).known(),
        res is Err ==> !final(css).known(),
        old(css).known() ==> match css_minify_error(old(css).source(), old(css).passes()) {
            None => res is Ok,
            Some(m) => res matches Err(e) && e@ == m,
        },
{
    match css.sheet.sheet.minify(MinifyOptions::default()) {
        Ok(()) => {
            css.passes = Ghost(css.passes@ + 1);
            Ok(())
        },
        Err(e) => {
            css.known = Ghost(false);
            Err(e.to_string())
        },
    }
}

/// Prints the sheet with `StyleSheet::to_css` and default `PrinterOptions`
/// but for `minify`.  The contract claims that, on a sheet that its record
/// describes, the printed code or the error message (`to_string`) is what
/// `css_printed` names.
#[verifier::external_body]
pub fn print_stylesheet(css: &ParsedCss<'_>, minify: bool) -> (res: core::result::Result<
    String,
    String,
>)
    ensures
        css.known() ==> match css_printed(css.source(), css.passes(), minify) {
            Ok(p) => res matches Ok(code) && code@ == p,
            Err(m) => res matches Err(e) && e@ == m,
        },
{
    match css.sheet.sheet.to_css(PrinterOptions { minify, ..PrinterOptions::default() }) {
        Ok(out) => Ok(out.code),
        Err(e) => Err(e.to_string()),
    }
}

} // verus!
