//! Properties that span the operations of the library: text joined with
//! numbered placeholders and split at them again gives back the quasis and
//! the numbers of the expressions in their order; text split at its
//! placeholders is rebuilt from the quasis and numbers; each expression
//! follows the placeholder that carries its number, in whatever order the
//! placeholders come back; a template whose text the minifier leaves as it is
//! stays as it is; CSS is minified exactly once before it is printed; the
//! HTML minifier gets the settings' options; and each template goes to the
//! processor that its tag, or its text, calls for.
use vstd::prelude::*;

use crate::css::{css_applied, css_placeholders_fit, css_source, PLACEHOLDER_BASE, PLACEHOLDER_SUFFIX};
use crate::html::{
    html_minified, html_minify_options, html_outcome, html_placeholders_agree, html_source,
    PLACEHOLDER as HTML_PLACEHOLDER, PLACEHOLDER_BASE as HTML_BASE,
    PLACEHOLDER_SUFFIX as HTML_SUFFIX,
};
use crate::settings::HtmlSettings;
use crate::stylesheet::{css_minify_error, css_parse_error, css_printed};
use crate::prelude::Result;
use crate::{css_tag, html_tag, TransformResult, TransformVisitor};
use crate::css::css_outcome;
use crate::tpl_processor::Template;
use crate::utils::text::{
    contains_seq, decimal, find, is_digit, join, lemma_find, lemma_find_after, lemma_join_split,
    lemma_no_occurrence_in_prefix, lemma_parse_decimal, lemma_split_whole, occurs_at, parse_u32,
    split, unbordered,
};
use crate::utils::tpl::{
    base_only_at_placeholders, join_numbered, lemma_numbered_part, lemma_split_join_numbered,
    lemma_split_join_numbered_at_placeholders, new_expr_ixs_of, new_quasis_of, numbered_applied,
    numbers_readable, part_number, part_quasi, parts_numbers, placeholder_shape, placeholders_exact,
    placeholders_fit, placeholders_readable, zip_replace,
};

verus! {

broadcast use vstd::seq_lib::group_seq_properties;

/// The numbers `0, 1, ..., n - 1`.
pub open spec fn first_numbers(n: nat) -> Seq<u32> {
    Seq::new(n, |i: int| i as u32)
}

/// The placeholder numbers of the pieces that splitting gives: none for the
/// first piece, then `0`, `1`, ... for the others.
proof fn lemma_parts_numbers_counting(
    parts: Seq<Seq<char>>,
    q: Seq<Seq<char>>,
    suffix: Seq<char>,
    k: int,
)
    requires
        suffix.len() > 0,
        !is_digit(suffix[0]),
        q.len() >= 1,
        q.len() - 1 <= u32::MAX + 1,
        !contains_seq(q[0], suffix),
        parts == seq![q[0]] + Seq::new(
            (q.len() - 1) as nat,
            |i: int| decimal(i as nat) + suffix + q[i + 1],
        ),
        1 <= k <= parts.len(),
    ensures
        parts_numbers(parts.take(k), suffix) == first_numbers((k - 1) as nat),
    decreases k,
{
    let p = parts.take(k);
    if k == 1 {
        lemma_split_whole(q[0], suffix);
        assert(p.drop_last() =~= Seq::<Seq<char>>::empty());
        assert(p.last() == q[0]);
        assert(part_number(q[0], suffix) is None);
        assert(parts_numbers(Seq::<Seq<char>>::empty(), suffix) =~= Seq::<u32>::empty());
        assert(parts_numbers(p, suffix) =~= first_numbers(0));
    } else {
        lemma_parts_numbers_counting(parts, q, suffix, k - 1);
        assert(p.drop_last() =~= parts.take(k - 1));
        assert(p.last() == decimal((k - 2) as nat) + suffix + q[k - 1]);
        lemma_numbered_part((k - 2) as nat, suffix, q[k - 1]);
        assert(parts_numbers(p, suffix) =~= first_numbers((k - 1) as nat));
    }
}

/// From the pieces that splitting at the placeholders gives to the quasis and
/// the numbers 0, 1, ...
proof fn lemma_round_trip_from_parts(
    s: Seq<char>,
    q: Seq<Seq<char>>,
    base: Seq<char>,
    suffix: Seq<char>,
)
    requires
        suffix.len() > 0,
        !is_digit(suffix[0]),
        q.len() >= 1,
        q.len() - 1 <= u32::MAX + 1,
        !contains_seq(q[0], suffix),
        split(s, base) == seq![q[0]] + Seq::new(
            (q.len() - 1) as nat,
            |i: int| decimal(i as nat) + suffix + q[i + 1],
        ),
    ensures
        placeholders_readable(s, base, suffix),
        new_quasis_of(s, base, suffix) == q,
        new_expr_ixs_of(s, base, suffix) == first_numbers((q.len() - 1) as nat),
{
    let parts = split(s, base);
    lemma_split_whole(q[0], suffix);
    assert forall|i: int| 1 <= i < parts.len() implies part_quasi(#[trigger] parts[i], suffix)
        == q[i] && part_number(parts[i], suffix) == Some(decimal((i - 1) as nat)) && parse_u32(
        decimal((i - 1) as nat),
    ) is Some by {
        lemma_numbered_part((i - 1) as nat, suffix, q[i]);
    }
    assert(new_quasis_of(s, base, suffix) =~= q);
    assert(numbers_readable(parts, suffix));
    lemma_parts_numbers_counting(parts, q, suffix, parts.len() as int);
    assert(parts.take(parts.len() as int) =~= parts);
}

/// Quasis joined with numbered placeholders and split at them again come back
/// as they were, and the placeholders give the expression numbers 0, 1, ...
/// in order, whenever the placeholder's start occurs in the joined text only
/// where a placeholder starts, the suffix does not start with a digit, and the
/// first quasi holds no suffix.
pub proof fn law_numbered_round_trip(q: Seq<Seq<char>>, base: Seq<char>, suffix: Seq<char>)
    requires
        base.len() > 0,
        suffix.len() > 0,
        !is_digit(suffix[0]),
        q.len() >= 1,
        q.len() - 1 <= u32::MAX + 1,
        base_only_at_placeholders(Seq::empty(), q, base, suffix, 0),
        !contains_seq(q[0], suffix),
    ensures
        placeholders_readable(join_numbered(q, base, suffix, 0), base, suffix),
        new_quasis_of(join_numbered(q, base, suffix, 0), base, suffix) == q,
        new_expr_ixs_of(join_numbered(q, base, suffix, 0), base, suffix) == first_numbers(
            (q.len() - 1) as nat,
        ),
{
    let s = join_numbered(q, base, suffix, 0);
    let empty = Seq::<char>::empty();
    assert(empty + s =~= s);
    assert(empty + q[0] =~= q[0]);
    lemma_split_join_numbered_at_placeholders(empty, q, base, suffix, 0);
    assert(split(s, base) =~= seq![q[0]] + Seq::new(
        (q.len() - 1) as nat,
        |i: int| decimal(i as nat) + suffix + q[i + 1],
    ));
    lemma_round_trip_from_parts(s, q, base, suffix);
}

/// The round trip for placeholders of a shape that cannot be misread: then it
/// is enough that no quasi holds the placeholder's start and the first quasi
/// holds no suffix.
pub proof fn law_numbered_round_trip_shaped(q: Seq<Seq<char>>, base: Seq<char>, suffix: Seq<char>)
    requires
        placeholder_shape(base, suffix),
        q.len() >= 1,
        q.len() - 1 <= u32::MAX + 1,
        forall|i: int| 0 <= i < q.len() ==> !#[trigger] contains_seq(q[i], base),
        !contains_seq(q[0], suffix),
    ensures
        placeholders_readable(join_numbered(q, base, suffix, 0), base, suffix),
        new_quasis_of(join_numbered(q, base, suffix, 0), base, suffix) == q,
        new_expr_ixs_of(join_numbered(q, base, suffix, 0), base, suffix) == first_numbers(
            (q.len() - 1) as nat,
        ),
{
    let s = join_numbered(q, base, suffix, 0);
    let empty = Seq::<char>::empty();
    assert(empty + s =~= s);
    assert(empty + q[0] =~= q[0]);
    lemma_split_join_numbered(empty, q, base, suffix, 0);
    assert(split(s, base) =~= seq![q[0]] + Seq::new(
        (q.len() - 1) as nat,
        |i: int| decimal(i as nat) + suffix + q[i + 1],
    ));
    lemma_round_trip_from_parts(s, q, base, suffix);
}

/// The placeholders of CSS templates have the shape that cannot be misread.
pub proof fn lemma_css_placeholder_shape()
    ensures
        placeholder_shape(PLACEHOLDER_BASE@, PLACEHOLDER_SUFFIX@),
{
    reveal_strlit("@TEMPLATE_VARIABLE_");
    reveal_strlit("_()");
    let base = PLACEHOLDER_BASE@;
    assert forall|k: int| 0 < k < base.len() implies #[trigger] base.skip(k) != base.take(
        base.len() - k,
    ) by {
        assert(base.skip(k)[0] == base[k]);
        assert(base.take(base.len() - k)[0] == '@');
    }
}

/// The placeholders of HTML templates have the shape that cannot be misread.
pub proof fn lemma_html_placeholder_shape()
    ensures
        placeholder_shape(HTML_BASE@, HTML_SUFFIX@),
{
    reveal_strlit("TEMPLATE_VARIABLE_");
    reveal_strlit("_END");
    let base = HTML_BASE@;
    assert forall|k: int| 0 < k < base.len() implies #[trigger] base.skip(k) != base.take(
        base.len() - k,
    ) by {
        if k == 6 {
            assert(base.skip(k)[2] != base.take(base.len() - k)[2]);
        } else {
            assert(base.skip(k)[0] != base.take(base.len() - k)[0]);
        }
    }
}

/// A CSS template's text, split at its placeholders, gives back its quasis
/// and the numbers of its expressions in order, provided that no quasi holds
/// `@TEMPLATE_VARIABLE_` and the first quasi holds no `_()`.
pub proof fn law_css_round_trip(q: Seq<Seq<char>>)
    requires
        q.len() >= 1,
        q.len() - 1 <= u32::MAX + 1,
        forall|i: int| 0 <= i < q.len() ==> !#[trigger] contains_seq(q[i], PLACEHOLDER_BASE@),
        !contains_seq(q[0], PLACEHOLDER_SUFFIX@),
    ensures
        placeholders_readable(css_source(q), PLACEHOLDER_BASE@, PLACEHOLDER_SUFFIX@),
        new_quasis_of(css_source(q), PLACEHOLDER_BASE@, PLACEHOLDER_SUFFIX@) == q,
        new_expr_ixs_of(css_source(q), PLACEHOLDER_BASE@, PLACEHOLDER_SUFFIX@) == first_numbers(
            (q.len() - 1) as nat,
        ),
{
    lemma_css_placeholder_shape();
    law_numbered_round_trip_shaped(q, PLACEHOLDER_BASE@, PLACEHOLDER_SUFFIX@);
}

/// An HTML template's text, split at its placeholders, gives back its quasis
/// and the numbers of its expressions in order, provided that no quasi holds
/// `TEMPLATE_VARIABLE_` and the first quasi holds no `_END`.
pub proof fn law_html_round_trip(q: Seq<Seq<char>>)
    requires
        q.len() >= 1,
        q.len() - 1 <= u32::MAX + 1,
        forall|i: int| 0 <= i < q.len() ==> !#[trigger] contains_seq(q[i], HTML_BASE@),
        !contains_seq(q[0], HTML_SUFFIX@),
    ensures
        placeholders_readable(html_source(q), HTML_BASE@, HTML_SUFFIX@),
        new_quasis_of(html_source(q), HTML_BASE@, HTML_SUFFIX@) == q,
        new_expr_ixs_of(html_source(q), HTML_BASE@, HTML_SUFFIX@) == first_numbers(
            (q.len() - 1) as nat,
        ),
{
    lemma_html_placeholder_shape();
    law_numbered_round_trip_shaped(q, HTML_BASE@, HTML_SUFFIX@);
}

/// Rewriting a well-formed template after its own joined text keeps the
/// quasis and gives each expression, in its own place, a copy of itself: the
/// placeholders lose no expression and move none.
pub proof fn law_unchanged_text_keeps_template<E: Clone>(
    old: Template<E>,
    new: Template<E>,
    base: Seq<char>,
    suffix: Seq<char>,
)
    requires
        placeholder_shape(base, suffix),
        old.quasis.len() >= 1,
        old.exprs.len() + 1 == old.quasis.len(),
        old.quasis.len() - 1 <= u32::MAX + 1,
        forall|i: int| 0 <= i < old.raws().len() ==> !#[trigger] contains_seq(old.raws()[i], base),
        !contains_seq(old.raws()[0], suffix),
        numbered_applied(old, new, join_numbered(old.raws(), base, suffix, 0), base, suffix),
    ensures
        placeholders_fit(join_numbered(old.raws(), base, suffix, 0), base, suffix, old.exprs@.len()),
        new.raws() == old.raws(),
        new.exprs.len() == old.exprs.len(),
        forall|i: int| 0 <= i < old.exprs.len() ==> cloned(old.exprs@[i], #[trigger] new.exprs@[i]),
{
    let q = old.raws();
    let s = join_numbered(q, base, suffix, 0);
    law_numbered_round_trip_shaped(q, base, suffix);
    let ixs = new_expr_ixs_of(s, base, suffix);
    assert(new.raws() =~= zip_replace(q, q));
    assert forall|i: int| 0 <= i < old.exprs.len() implies cloned(
        old.exprs@[i],
        #[trigger] new.exprs@[i],
    ) by {
        assert(ixs[i] as int == i);
    }
}

/// When the printed CSS is the template's own CSS text, rewriting the
/// template after it keeps the template.
pub proof fn law_css_unchanged_text_keeps_template<E: Clone>(old: Template<E>, new: Template<E>)
    requires
        old.quasis.len() >= 1,
        old.exprs.len() + 1 == old.quasis.len(),
        old.quasis.len() - 1 <= u32::MAX + 1,
        forall|i: int|
            0 <= i < old.raws().len() ==> !#[trigger] contains_seq(
                old.raws()[i],
                PLACEHOLDER_BASE@,
            ),
        !contains_seq(old.raws()[0], PLACEHOLDER_SUFFIX@),
        css_applied(old, new, css_source(old.raws())),
    ensures
        css_placeholders_fit(css_source(old.raws()), old.exprs@.len()),
        new.raws() == old.raws(),
        new.exprs.len() == old.exprs.len(),
        forall|i: int| 0 <= i < old.exprs.len() ==> cloned(old.exprs@[i], #[trigger] new.exprs@[i]),
{
    lemma_css_placeholder_shape();
    law_unchanged_text_keeps_template(old, new, PLACEHOLDER_BASE@, PLACEHOLDER_SUFFIX@);
}

/// The one placeholder of HTML templates cannot overlap itself.
pub proof fn lemma_html_placeholder_unbordered()
    ensures
        HTML_PLACEHOLDER@.len() > 0,
        unbordered(HTML_PLACEHOLDER@),
{
    reveal_strlit("TEMPLATE_VARIABLE");
    let p = HTML_PLACEHOLDER@;
    assert forall|k: int| 0 < k < p.len() implies #[trigger] p.skip(k) != p.take(p.len() - k) by {
        if k == 6 {
            assert(p.skip(k)[2] != p.take(p.len() - k)[2]);
        } else {
            assert(p.skip(k)[0] != p.take(p.len() - k)[0]);
        }
    }
}

/// Text that holds a pattern holds each start of it.
pub proof fn lemma_contains_start(s: Seq<char>, pat: Seq<char>, k: int)
    requires
        contains_seq(s, pat),
        0 <= k <= pat.len(),
    ensures
        contains_seq(s, pat.take(k)),
{
    let i = choose|i: int| occurs_at(s, pat, i);
    assert(s.subrange(i, i + k) =~= pat.take(k)) by {
        assert forall|j: int| 0 <= j < k implies s.subrange(i, i + k)[j] == pat.take(k)[j] by {
            assert(s.subrange(i, i + pat.len())[j] == pat[j]);
        }
    }
    assert(occurs_at(s, pat.take(k), i));
}

/// When the minifier leaves an HTML template's text as it is, with numbered
/// placeholders and with the one placeholder alike, processing the template
/// as HTML keeps the template.
pub proof fn law_html_unchanged_text_keeps_template<E: Clone>(
    settings: HtmlSettings,
    old: Template<E>,
    new: Template<E>,
)
    requires
        old.quasis.len() >= 1,
        old.exprs.len() + 1 == old.quasis.len(),
        old.quasis.len() - 1 <= u32::MAX + 1,
        forall|i: int|
            0 <= i < old.raws().len() ==> !#[trigger] contains_seq(
                old.raws()[i],
                HTML_PLACEHOLDER@,
            ),
        !contains_seq(old.raws()[0], HTML_SUFFIX@),
        html_minified(html_source(old.raws()), html_minify_options(settings)) == html_source(
            old.raws(),
        ),
        html_minified(join(old.raws(), HTML_PLACEHOLDER@), html_minify_options(settings)) == join(
            old.raws(),
            HTML_PLACEHOLDER@,
        ),
        html_outcome(settings, old, new),
    ensures
        new.raws() == old.raws(),
        new.exprs.len() == old.exprs.len(),
        forall|i: int| 0 <= i < old.exprs.len() ==> cloned(old.exprs@[i], #[trigger] new.exprs@[i]),
{
    let q = old.raws();
    let n = old.exprs@.len();
    reveal_strlit("TEMPLATE_VARIABLE_");
    reveal_strlit("TEMPLATE_VARIABLE");
    assert(HTML_BASE@.take(17) =~= HTML_PLACEHOLDER@);
    assert forall|i: int| 0 <= i < q.len() implies !#[trigger] contains_seq(q[i], HTML_BASE@) by {
        if contains_seq(q[i], HTML_BASE@) {
            lemma_contains_start(q[i], HTML_BASE@, 17);
        }
    }
    lemma_html_placeholder_shape();
    lemma_html_placeholder_unbordered();
    law_html_round_trip(q);
    law_join_split_round_trip(q, HTML_PLACEHOLDER@);
    let s = html_source(q);
    let ixs = new_expr_ixs_of(s, HTML_BASE@, HTML_SUFFIX@);
    assert(placeholders_fit(s, HTML_BASE@, HTML_SUFFIX@, n)) by {
        assert forall|i: int| 0 <= i < ixs.len() implies (#[trigger] ixs[i] as int) < n by {
            assert(ixs[i] as int == i);
        }
    }
    assert(placeholders_exact(s, HTML_BASE@, HTML_SUFFIX@, n)) by {
        assert forall|i: int, j: int| 0 <= i < j < ixs.len() implies #[trigger] ixs[i]
            != #[trigger] ixs[j] by {
            assert(ixs[i] as int == i);
            assert(ixs[j] as int == j);
        }
    }
    assert(html_placeholders_agree(settings, q, n));
    law_unchanged_text_keeps_template(old, new, HTML_BASE@, HTML_SUFFIX@);
}

/// Splitting pieces joined by a separator gives back the pieces, provided that
/// no piece holds the separator and the separator cannot overlap itself.
pub proof fn law_join_split_round_trip(q: Seq<Seq<char>>, sep: Seq<char>)
    requires
        sep.len() > 0,
        unbordered(sep),
        q.len() >= 1,
        forall|i: int| 0 <= i < q.len() ==> !#[trigger] contains_seq(q[i], sep),
    ensures
        split(join(q, sep), sep) == q,
    decreases q.len(),
{
    assert(!contains_seq(q[0], sep));
    if q.len() == 1 {
        lemma_split_whole(q[0], sep);
        assert(split(join(q, sep), sep) =~= q);
    } else {
        let q2 = q.drop_first();
        let b = join(q2, sep);
        lemma_no_occurrence_in_prefix(q[0], sep, b);
        lemma_find_after(q[0], sep, b);
        let s = q[0] + sep + b;
        assert(s.take(q[0].len() as int) =~= q[0]);
        assert(s.skip((q[0].len() + sep.len()) as int) =~= b);
        assert forall|i: int| 0 <= i < q2.len() implies !#[trigger] contains_seq(q2[i], sep) by {
            assert(q2[i] == q[i + 1]);
        }
        law_join_split_round_trip(q2, sep);
        assert(split(join(q, sep), sep) =~= q);
    }
}

/// The pieces of split text are written canonically: the first holds no
/// suffix, and each later one holds, before its first suffix, the decimal
/// notation of a `u32` without sign or leading zeros.
pub open spec fn numbers_canonical(parts: Seq<Seq<char>>, suffix: Seq<char>) -> bool {
    &&& parts.len() >= 1
    &&& part_number(parts[0], suffix) is None
    &&& forall|i: int|
        1 <= i < parts.len() ==> exists|v: u32| #[trigger]
            part_number(parts[i], suffix) == Some(decimal(v as nat))
}

/// The quasis with the placeholders of the numbers between them: the first
/// quasi, then for each number its placeholder followed by the next quasi.
pub open spec fn rebuild(
    quasis: Seq<Seq<char>>,
    ixs: Seq<u32>,
    base: Seq<char>,
    suffix: Seq<char>,
) -> Seq<char> {
    join(
        Seq::new(
            quasis.len(),
            |i: int| if i == 0 {
                quasis[0]
            } else {
                decimal(ixs[i - 1] as nat) + suffix + quasis[i]
            },
        ),
        base,
    )
}

/// The number that the placeholder of piece `i` carries.
spec fn piece_number(parts: Seq<Seq<char>>, suffix: Seq<char>, i: int) -> u32 {
    parse_u32(part_number(parts[i], suffix).unwrap()).unwrap()
}

proof fn lemma_canonical_numbers(parts: Seq<Seq<char>>, suffix: Seq<char>, k: int)
    requires
        numbers_canonical(parts, suffix),
        1 <= k <= parts.len(),
    ensures
        parts_numbers(parts.take(k), suffix) == Seq::new(
            (k - 1) as nat,
            |i: int| piece_number(parts, suffix, i + 1),
        ),
    decreases k,
{
    let p = parts.take(k);
    assert(p.drop_last() =~= parts.take(k - 1));
    if k == 1 {
        assert(parts.take(0) =~= Seq::<Seq<char>>::empty());
        assert(p.last() == parts[0]);
        assert(parts_numbers(Seq::<Seq<char>>::empty(), suffix) =~= Seq::<u32>::empty());
        assert(parts_numbers(p, suffix) =~= Seq::new(
            0,
            |i: int| piece_number(parts, suffix, i + 1),
        ));
    } else {
        lemma_canonical_numbers(parts, suffix, k - 1);
        assert(p.last() == parts[k - 1]);
        let v = choose|v: u32| #[trigger] part_number(parts[k - 1], suffix) == Some(
            decimal(v as nat),
        );
        lemma_parse_decimal(v as nat);
        assert(parts_numbers(p, suffix) =~= Seq::new(
            (k - 1) as nat,
            |i: int| piece_number(parts, suffix, i + 1),
        ));
    }
}

/// Text whose placeholders are written canonically is rebuilt from the
/// quasis and the numbers that splitting it gives: there is one quasi more
/// than numbers, and the first quasi, then for each number its placeholder
/// and the next quasi, make up the text.
pub proof fn law_split_rebuilds(s: Seq<char>, base: Seq<char>, suffix: Seq<char>)
    requires
        base.len() > 0,
        numbers_canonical(split(s, base), suffix),
    ensures
        placeholders_readable(s, base, suffix),
        new_quasis_of(s, base, suffix).len() == new_expr_ixs_of(s, base, suffix).len() + 1,
        s == rebuild(new_quasis_of(s, base, suffix), new_expr_ixs_of(s, base, suffix), base, suffix),
{
    let parts = split(s, base);
    let qs = new_quasis_of(s, base, suffix);
    lemma_canonical_numbers(parts, suffix, parts.len() as int);
    assert(parts.take(parts.len() as int) =~= parts);
    let ixs = new_expr_ixs_of(s, base, suffix);
    assert forall|i: int| 1 <= i < parts.len() implies {
        &&& parse_u32(part_number(#[trigger] parts[i], suffix).unwrap()) is Some
        &&& decimal(piece_number(parts, suffix, i) as nat) + suffix + part_quasi(parts[i], suffix)
            == parts[i]
    } by {
        let v = choose|v: u32| #[trigger] part_number(parts[i], suffix) == Some(decimal(v as nat));
        lemma_parse_decimal(v as nat);
        let p = parts[i];
        lemma_find(p, suffix);
        let k = find(p, suffix).unwrap();
        assert(p.take(k) + suffix + p.skip(k + suffix.len()) =~= p);
    }
    assert(numbers_readable(parts, suffix));
    assert(part_quasi(parts[0], suffix) == parts[0]);
    let pieces = Seq::new(
        qs.len(),
        |i: int| if i == 0 {
            qs[0]
        } else {
            decimal(ixs[i - 1] as nat) + suffix + qs[i]
        },
    );
    assert(pieces =~= parts);
    lemma_join_split(s, base);
}

/// An untagged template whose text does not parse as CSS is processed as
/// HTML, whether CSS is minified or not: the failed CSS attempt leaves no
/// trace and is not reported.
pub proof fn law_untagged_non_css_is_html<E: Clone>(
    v: TransformVisitor,
    old: Template<E>,
    new: Template<E>,
    r: TransformResult,
)
    requires
        css_parse_error(css_source(old.raws())) is Some,
        v.unknown_step(old, new, r),
    ensures
        v.spec_settings().minify_html ==> r is Success && html_outcome(
            v.spec_html_settings(),
            old,
            new,
        ),
        !v.spec_settings().minify_html ==> r is Skipped && new.same_as(old),
{
}

/// An untagged template whose text parses as CSS, with CSS minified, is
/// processed as CSS and never as HTML: success exactly when the CSS
/// processing succeeds, else its minify or print failure.
pub proof fn law_untagged_css_is_css<E: Clone>(
    v: TransformVisitor,
    old: Template<E>,
    new: Template<E>,
    r: TransformResult,
)
    requires
        css_parse_error(css_source(old.raws())) is None,
        v.spec_settings().minify_css,
        v.unknown_step(old, new, r),
    ensures
        match r {
            TransformResult::Success => css_outcome(old, new, Ok(())),
            TransformResult::Failure(e) => css_outcome(old, new, Err(e)) && !(e is CssParseError),
            TransformResult::Skipped => false,
        },
{
}

/// After text with numbered placeholders rewrites a template, the expression
/// at each position is a copy of the old expression whose number the
/// placeholder at that position carries, in whatever order the placeholders
/// stand.  When the text splits into as many quasis as the template had and
/// each piece after the first starts with a number, putting the placeholders
/// of those numbers back between the new quasis gives the text again.
pub proof fn law_expressions_follow_placeholders<E: Clone>(
    old: Template<E>,
    new: Template<E>,
    s: Seq<char>,
    base: Seq<char>,
    suffix: Seq<char>,
)
    requires
        base.len() > 0,
        numbered_applied(old, new, s, base, suffix),
    ensures
        new.exprs.len() == new_expr_ixs_of(s, base, suffix).len(),
        forall|i: int|
            0 <= i < new.exprs.len() ==> {
                let k = new_expr_ixs_of(s, base, suffix)[i] as int;
                &&& 0 <= k < old.exprs.len()
                &&& cloned(old.exprs@[k], #[trigger] new.exprs@[i])
            },
        numbers_canonical(split(s, base), suffix) && new_quasis_of(s, base, suffix).len()
            == old.raws().len() ==> s == rebuild(
            new.raws(),
            new_expr_ixs_of(s, base, suffix),
            base,
            suffix,
        ),
{
    let ixs = new_expr_ixs_of(s, base, suffix);
    assert forall|i: int| 0 <= i < new.exprs.len() implies {
        let k = ixs[i] as int;
        &&& 0 <= k < old.exprs.len()
        &&& cloned(old.exprs@[k], #[trigger] new.exprs@[i])
    } by {
        assert(ixs[i] as int == new_expr_ixs_of(s, base, suffix)[i] as int);
    }
    if numbers_canonical(split(s, base), suffix) && new_quasis_of(s, base, suffix).len()
        == old.raws().len() {
        law_split_rebuilds(s, base, suffix);
        assert(new.raws() =~= new_quasis_of(s, base, suffix));
    }
}

/// Processing a template as HTML gives the quasis of the text joined with the
/// one placeholder, minified and split at it again.  When the numbered
/// placeholders come through the minifier one to one, each of the old
/// expressions is copied exactly once, and the expression after each new
/// quasi is a copy of the one whose number the placeholder there carries, so
/// that an expression stays with its attribute however the minifier orders
/// the attributes; otherwise the expressions stay as they were.
pub proof fn law_html_expressions_follow_placeholders<E: Clone>(
    settings: HtmlSettings,
    old: Template<E>,
    new: Template<E>,
)
    requires
        html_outcome(settings, old, new),
    ensures
        new.raws() == zip_replace(
            old.raws(),
            split(
                html_minified(join(old.raws(), HTML_PLACEHOLDER@), html_minify_options(settings)),
                HTML_PLACEHOLDER@,
            ),
        ),
        html_placeholders_agree(settings, old.raws(), old.exprs@.len()) ==> {
            let out = html_minified(html_source(old.raws()), html_minify_options(settings));
            let ixs = new_expr_ixs_of(out, HTML_BASE@, HTML_SUFFIX@);
            &&& new.exprs.len() == old.exprs.len()
            &&& ixs.len() == old.exprs.len()
            &&& forall|i: int| 0 <= i < ixs.len() ==> (#[trigger] ixs[i] as int) < old.exprs.len()
            &&& forall|i: int, j: int| 0 <= i < j < ixs.len() ==> #[trigger] ixs[i] != #[trigger] ixs[j]
            &&& forall|i: int|
                0 <= i < new.exprs.len() ==> cloned(old.exprs@[ixs[i] as int], #[trigger] new.exprs@[i])
        },
        !html_placeholders_agree(settings, old.raws(), old.exprs@.len()) ==> new.exprs@ == old.exprs@,
{
    if html_placeholders_agree(settings, old.raws(), old.exprs@.len()) {
        let out = html_minified(html_source(old.raws()), html_minify_options(settings));
        lemma_html_placeholder_shape();
        law_expressions_follow_placeholders(old, new, out, HTML_BASE@, HTML_SUFFIX@);
    }
}

/// Processing a template as CSS runs exactly one minify pass before printing,
/// whatever the number of its expressions: it succeeds only when the text
/// parses, the one pass succeeds and the sheet after it prints, and then the
/// quasis take the text between the placeholders of that print and each
/// expression follows its placeholder.  A parse failure, else a failure of
/// the pass, is what comes back, with the template unchanged.
pub proof fn law_css_minifies_once<E: Clone>(old: Template<E>, new: Template<E>, res: Result<()>)
    requires
        css_outcome(old, new, res),
    ensures
        res is Ok ==> {
            let src = css_source(old.raws());
            &&& css_parse_error(src) is None
            &&& css_minify_error(src, 0) is None
            &&& css_printed(src, 1, true) is Ok
            &&& {
                let p = css_printed(src, 1, true)->Ok_0;
                let ixs = new_expr_ixs_of(p, PLACEHOLDER_BASE@, PLACEHOLDER_SUFFIX@);
                &&& new.raws() == zip_replace(
                    old.raws(),
                    new_quasis_of(p, PLACEHOLDER_BASE@, PLACEHOLDER_SUFFIX@),
                )
                &&& new.exprs.len() == ixs.len()
                &&& forall|i: int|
                    0 <= i < ixs.len() ==> (#[trigger] ixs[i] as int) < old.exprs.len() && cloned(
                        old.exprs@[ixs[i] as int],
                        new.exprs@[i],
                    )
            }
        },
        css_parse_error(css_source(old.raws())) matches Some(m) ==> res matches Err(e)
            && e is CssParseError && e.spec_message() == m && new.same_as(old),
        css_parse_error(css_source(old.raws())) is None ==> (css_minify_error(
            css_source(old.raws()),
            0,
        ) matches Some(m) ==> res matches Err(e) && e is CssMinifyError && e.spec_message() == m
            && new.same_as(old)),
{
    let src = css_source(old.raws());
    if res is Ok && css_parse_error(src) is None && css_minify_error(src, 0) is None {
        if let Ok(p) = css_printed(src, 1, true) {
            lemma_css_placeholder_shape();
            law_expressions_follow_placeholders(old, new, p, PLACEHOLDER_BASE@, PLACEHOLDER_SUFFIX@);
        }
    }
}

/// An untagged template whose text parses as CSS, with CSS minification off,
/// is skipped and left as it is: it is never handed to the HTML minifier.
pub proof fn law_untagged_css_unminified_is_skipped<E: Clone>(
    v: TransformVisitor,
    old: Template<E>,
    new: Template<E>,
    r: TransformResult,
)
    requires
        css_parse_error(css_source(old.raws())) is None,
        !v.spec_settings().minify_css,
        v.unknown_step(old, new, r),
    ensures
        r is Skipped,
        new.same_as(old),
{
}

/// A template tagged `css` is processed as CSS and never as HTML: with CSS
/// minification on, its result is the CSS outcome; with it off, it is
/// skipped and left as it is.
pub proof fn law_tagged_css_is_css<E: Clone>(
    v: TransformVisitor,
    old: Template<E>,
    new: Template<E>,
    r: TransformResult,
)
    requires
        v.spec_tag() matches Some(t) && t@ == css_tag(),
        v.tpl_step(old, new, r),
    ensures
        v.spec_settings().minify_css ==> match r {
            TransformResult::Success => css_outcome(old, new, Ok(())),
            TransformResult::Failure(e) => css_outcome(old, new, Err(e)),
            TransformResult::Skipped => false,
        },
        !v.spec_settings().minify_css ==> r is Skipped && new.same_as(old),
{
    reveal_strlit("css");
    reveal_strlit("html");
}

/// A template tagged `html` is processed as HTML and never as CSS: with HTML
/// minification on, it succeeds with the HTML outcome; with it off, it is
/// skipped and left as it is.
pub proof fn law_tagged_html_is_html<E: Clone>(
    v: TransformVisitor,
    old: Template<E>,
    new: Template<E>,
    r: TransformResult,
)
    requires
        v.spec_tag() matches Some(t) && t@ == html_tag(),
        v.tpl_step(old, new, r),
    ensures
        v.spec_settings().minify_html ==> r is Success && html_outcome(
            v.spec_html_settings(),
            old,
            new,
        ),
        !v.spec_settings().minify_html ==> r is Skipped && new.same_as(old),
{
    reveal_strlit("css");
    reveal_strlit("html");
}

/// A template with any other tag is skipped and left as it is.
pub proof fn law_other_tags_are_skipped<E: Clone>(
    v: TransformVisitor,
    old: Template<E>,
    new: Template<E>,
    r: TransformResult,
)
    requires
        v.spec_tag() matches Some(t) && t@ != css_tag() && t@ != html_tag(),
        v.tpl_step(old, new, r),
    ensures
        r is Skipped,
        new.same_as(old),
{
}

/// A template outside any tag is processed as an untagged one.
pub proof fn law_untagged_is_unknown<E: Clone>(
    v: TransformVisitor,
    old: Template<E>,
    new: Template<E>,
    r: TransformResult,
)
    requires
        v.spec_tag() is None,
        v.tpl_step(old, new, r),
    ensures
        v.unknown_step(old, new, r),
{
}

/// The HTML minifier is given the settings' choices for inline CSS, inline
/// JavaScript and comments, each in the option of the same name, and keeps
/// the markup as written otherwise.
pub proof fn law_html_options_follow_settings(settings: HtmlSettings)
    ensures
        html_minify_options(settings).minify_css == settings.minify_css,
        html_minify_options(settings).minify_js == settings.minify_js,
        html_minify_options(settings).keep_comments == settings.keep_comments,
        html_minify_options(settings).keep_closing_tags,
        html_minify_options(settings).keep_html_and_head_opening_tags,
        html_minify_options(settings).keep_spaces_between_attributes,
        html_minify_options(settings).keep_input_type_text_attr,
        html_minify_options(settings).keep_ssi_comments,
        html_minify_options(settings).do_not_minify_doctype,
        html_minify_options(settings).ensure_spec_compliant_unquoted_attribute_values,
        html_minify_options(settings).preserve_brace_template_syntax,
        html_minify_options(settings).preserve_chevron_percent_template_syntax,
        !html_minify_options(settings).remove_bangs,
        !html_minify_options(settings).remove_processing_instructions,
{
}

} // verus!
