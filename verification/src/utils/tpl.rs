//! Template handling with numbered placeholders: the quasis are joined with
//! `base N suffix` between them, where `N` counts the expressions, so that the
//! expressions can be found again, and reordered, after the text was rewritten.
use vstd::prelude::*;

use crate::tpl_processor::Template;
use crate::utils::text::{
    chars_of, contains_seq, decimal, decimal_string, find_in, is_digit,
    lacks_char, lemma_decimal, lemma_find_after, lemma_no_occurrence_concat,
    lemma_no_occurrence_in_prefix, lemma_parse_decimal, occurs_at, lemma_split_whole, parse_u32, parse_u32_in,
    split, split_once, split_ranges, str_views, unbordered,
};

verus! {

broadcast use vstd::seq_lib::group_seq_properties;

/// The placeholder that stands for expression `n`.
pub open spec fn placeholder(base: Seq<char>, suffix: Seq<char>, n: nat) -> Seq<char> {
    base + decimal(n) + suffix
}

/// The pieces with the placeholders of expressions `first`, `first + 1`, ...
/// between each two neighbours.
pub open spec fn join_numbered(
    parts: Seq<Seq<char>>,
    base: Seq<char>,
    suffix: Seq<char>,
    first: nat,
) -> Seq<char>
    decreases parts.len(),
{
    if parts.len() == 0 {
        Seq::empty()
    } else if parts.len() == 1 {
        parts[0]
    } else {
        parts[0] + placeholder(base, suffix, first) + join_numbered(
            parts.drop_first(),
            base,
            suffix,
            first + 1,
        )
    }
}

/// Joining one piece more appends the next placeholder and that piece.
pub proof fn lemma_join_numbered_push(
    parts: Seq<Seq<char>>,
    base: Seq<char>,
    suffix: Seq<char>,
    first: nat,
    x: Seq<char>,
)
    requires
        parts.len() >= 1,
    ensures
        join_numbered(parts.push(x), base, suffix, first) == join_numbered(
            parts,
            base,
            suffix,
            first,
        ) + placeholder(base, suffix, (first + parts.len() - 1) as nat) + x,
    decreases parts.len(),
{
    let p = parts.push(x);
    assert(p[0] == parts[0]);
    if parts.len() == 1 {
        assert(p.drop_first() =~= seq![x]);
        assert(join_numbered(seq![x], base, suffix, first + 1) == x);
    } else {
        assert(p.drop_first() =~= parts.drop_first().push(x));
        lemma_join_numbered_push(parts.drop_first(), base, suffix, first + 1, x);
        assert(join_numbered(p, base, suffix, first) =~= join_numbered(parts, base, suffix, first)
            + placeholder(base, suffix, (first + parts.len() - 1) as nat) + x);
    }
}

/// The conditions under which numbered placeholders are found again exactly
/// where they were put: `base` cannot overlap itself, and neither a digit nor
/// a character of `suffix` can start it, nor can a digit start `suffix`.
pub open spec fn placeholder_shape(base: Seq<char>, suffix: Seq<char>) -> bool {
    &&& base.len() > 0
    &&& suffix.len() > 0
    &&& unbordered(base)
    &&& !is_digit(base[0])
    &&& lacks_char(suffix, base[0])
    &&& !is_digit(suffix[0])
}

/// A decimal notation lacks every non-digit character.
pub proof fn lemma_decimal_lacks(n: nat, c: char)
    requires
        !is_digit(c),
    ensures
        lacks_char(decimal(n), c),
{
    lemma_decimal(n);
    assert forall|i: int| 0 <= i < decimal(n).len() implies #[trigger] decimal(n)[i] != c by {
        assert(is_digit(decimal(n)[i]));
    }
}

/// Splitting, at `base`, text that starts with `pre` and goes on with quasis
/// joined by numbered placeholders gives `pre` with the first quasi, then for
/// each later quasi its placeholder's number and suffix followed by the quasi.
pub proof fn lemma_split_join_numbered(
    pre: Seq<char>,
    q: Seq<Seq<char>>,
    base: Seq<char>,
    suffix: Seq<char>,
    first: nat,
)
    requires
        placeholder_shape(base, suffix),
        q.len() >= 1,
        lacks_char(pre, base[0]),
        forall|i: int| 0 <= i < q.len() ==> !#[trigger] contains_seq(q[i], base),
    ensures
        split(pre + join_numbered(q, base, suffix, first), base) == seq![pre + q[0]] + Seq::new(
            (q.len() - 1) as nat,
            |i: int| decimal((first + i) as nat) + suffix + q[i + 1],
        ),
    decreases q.len(),
{
    let s = pre + join_numbered(q, base, suffix, first);
    let a = pre + q[0];
    assert(!contains_seq(q[0], base));
    lemma_no_occurrence_concat(pre, q[0], base);
    if q.len() == 1 {
        assert(s =~= a);
        lemma_split_whole(a, base);
        assert(split(s, base) =~= seq![a] + Seq::new(
            0,
            |i: int| decimal((first + i) as nat) + suffix + q[i + 1],
        ));
    } else {
        let q2 = q.drop_first();
        let pre2 = decimal(first) + suffix;
        let b = pre2 + join_numbered(q2, base, suffix, first + 1);
        assert(s =~= a + base + b);
        lemma_no_occurrence_in_prefix(a, base, b);
        lemma_find_after(a, base, b);
        assert((a + base + b).take(a.len() as int) =~= a);
        assert((a + base + b).skip((a.len() + base.len()) as int) =~= b);
        assert(split(s, base) == seq![a] + split(b, base));
        lemma_decimal_lacks(first, base[0]);
        assert(lacks_char(pre2, base[0])) by {
            assert forall|i: int| 0 <= i < pre2.len() implies #[trigger] pre2[i] != base[0] by {
                if i >= decimal(first).len() {
                    assert(pre2[i] == suffix[i - decimal(first).len()]);
                }
            }
        }
        assert forall|i: int| 0 <= i < q2.len() implies !#[trigger] contains_seq(q2[i], base) by {
            assert(q2[i] == q[i + 1]);
        }
        lemma_split_join_numbered(pre2, q2, base, suffix, first + 1);
        assert(split(s, base) =~= seq![pre + q[0]] + Seq::new(
            (q.len() - 1) as nat,
            |i: int| decimal((first + i) as nat) + suffix + q[i + 1],
        ));
    }
}

/// Position `j` of `pre + join_numbered(q, base, suffix, first)` is where one
/// of its placeholders starts.
pub open spec fn placeholder_start(
    pre: Seq<char>,
    q: Seq<Seq<char>>,
    base: Seq<char>,
    suffix: Seq<char>,
    first: nat,
    j: int,
) -> bool
    decreases q.len(),
{
    if q.len() < 2 {
        false
    } else {
        let a = (pre + q[0]).len() as int;
        j == a || placeholder_start(
            decimal(first) + suffix,
            q.drop_first(),
            base,
            suffix,
            first + 1,
            j - (a + base.len()),
        )
    }
}

/// `base` occurs in `pre + join_numbered(q, base, suffix, first)` only where
/// one of its placeholders starts.
pub open spec fn base_only_at_placeholders(
    pre: Seq<char>,
    q: Seq<Seq<char>>,
    base: Seq<char>,
    suffix: Seq<char>,
    first: nat,
) -> bool {
    forall|j: int|
        #[trigger] occurs_at(pre + join_numbered(q, base, suffix, first), base, j)
            ==> placeholder_start(pre, q, base, suffix, first, j)
}

/// A placeholder starts after the text before it.
pub proof fn lemma_placeholder_start_after(
    pre: Seq<char>,
    q: Seq<Seq<char>>,
    base: Seq<char>,
    suffix: Seq<char>,
    first: nat,
    j: int,
)
    requires
        placeholder_start(pre, q, base, suffix, first, j),
    ensures
        j >= (pre + q[0]).len(),
    decreases q.len(),
{
    let a = (pre + q[0]).len() as int;
    if j != a {
        let q2 = q.drop_first();
        lemma_placeholder_start_after(
            decimal(first) + suffix,
            q2,
            base,
            suffix,
            first + 1,
            j - (a + base.len()),
        );
    }
}

/// Splitting, at `base`, text that starts with `pre` and goes on with quasis
/// joined by numbered placeholders gives `pre` with the first quasi, then for
/// each later quasi its placeholder's number and suffix followed by the quasi,
/// whenever `base` occurs only where a placeholder starts.
pub proof fn lemma_split_join_numbered_at_placeholders(
    pre: Seq<char>,
    q: Seq<Seq<char>>,
    base: Seq<char>,
    suffix: Seq<char>,
    first: nat,
)
    requires
        base.len() > 0,
        q.len() >= 1,
        base_only_at_placeholders(pre, q, base, suffix, first),
    ensures
        split(pre + join_numbered(q, base, suffix, first), base) == seq![pre + q[0]] + Seq::new(
            (q.len() - 1) as nat,
            |i: int| decimal((first + i) as nat) + suffix + q[i + 1],
        ),
    decreases q.len(),
{
    let s = pre + join_numbered(q, base, suffix, first);
    let a = pre + q[0];
    if q.len() == 1 {
        assert(s =~= a);
        assert(!contains_seq(a, base)) by {
            assert forall|j: int| !#[trigger] occurs_at(a, base, j) by {
                if occurs_at(a, base, j) {
                    assert(occurs_at(s, base, j));
                }
            }
        }
        lemma_split_whole(a, base);
        assert(split(s, base) =~= seq![a] + Seq::new(
            0,
            |i: int| decimal((first + i) as nat) + suffix + q[i + 1],
        ));
    } else {
        let q2 = q.drop_first();
        let pre2 = decimal(first) + suffix;
        let b = pre2 + join_numbered(q2, base, suffix, first + 1);
        assert(s =~= a + base + b);
        assert forall|j: int| 0 <= j < a.len() implies !#[trigger] occurs_at(a + base + b, base, j) by {
            if occurs_at(a + base + b, base, j) {
                assert(occurs_at(s, base, j));
                if j != a.len() {
                    lemma_placeholder_start_after(
                        pre2,
                        q2,
                        base,
                        suffix,
                        first + 1,
                        j - (a.len() + base.len()),
                    );
                }
            }
        }
        lemma_find_after(a, base, b);
        assert((a + base + b).take(a.len() as int) =~= a);
        assert((a + base + b).skip((a.len() + base.len()) as int) =~= b);
        assert(split(s, base) == seq![a] + split(b, base));
        assert forall|j: int| #[trigger] occurs_at(b, base, j) implies placeholder_start(
            pre2,
            q2,
            base,
            suffix,
            first + 1,
            j,
        ) by {
            let k = j + a.len() + base.len();
            assert((a + base + b).subrange(k, k + base.len()) =~= b.subrange(j, j + base.len()));
            assert(occurs_at(s, base, k));
            assert(q2.len() >= 1);
            assert(k != a.len());
        }
        lemma_split_join_numbered_at_placeholders(pre2, q2, base, suffix, first + 1);
        assert(split(s, base) =~= seq![pre + q[0]] + Seq::new(
            (q.len() - 1) as nat,
            |i: int| decimal((first + i) as nat) + suffix + q[i + 1],
        ));
    }
}

/// A piece made of a placeholder's number, the suffix and a quasi gives back
/// that number and that quasi.
pub proof fn lemma_numbered_part(n: nat, suffix: Seq<char>, q: Seq<char>)
    requires
        suffix.len() > 0,
        !is_digit(suffix[0]),
        n <= u32::MAX,
    ensures
        part_number(decimal(n) + suffix + q, suffix) == Some(decimal(n)),
        part_quasi(decimal(n) + suffix + q, suffix) == q,
        parse_u32(decimal(n)) == Some(n as u32),
{
    let x = decimal(n);
    let s = x + suffix + q;
    lemma_decimal_lacks(n, suffix[0]);
    assert forall|j: int| 0 <= j < x.len() implies !#[trigger] crate::utils::text::occurs_at(
        s,
        suffix,
        j,
    ) by {
        assert(s.subrange(j, j + suffix.len())[0] == x[j]);
    }
    lemma_find_after(x, suffix, q);
    assert(s.take(x.len() as int) =~= x);
    assert(s.skip((x.len() + suffix.len()) as int) =~= q);
    lemma_parse_decimal(n);
}

/// The quasi that a piece of rewritten text holds: what follows the number of
/// its placeholder, or the whole piece when it has none.
pub open spec fn part_quasi(part: Seq<char>, suffix: Seq<char>) -> Seq<char> {
    match split_once(part, suffix) {
        Some((_, quasi)) => quasi,
        None => part,
    }
}

/// The number text of a piece's placeholder, if the piece has one.
pub open spec fn part_number(part: Seq<char>, suffix: Seq<char>) -> Option<Seq<char>> {
    match split_once(part, suffix) {
        Some((num, _)) => Some(num),
        None => None,
    }
}

/// Every placeholder number in the pieces reads as a `u32`.
pub open spec fn numbers_readable(parts: Seq<Seq<char>>, suffix: Seq<char>) -> bool {
    forall|i: int|
        0 <= i < parts.len() ==> (#[trigger] part_number(parts[i], suffix) matches Some(n)
            ==> parse_u32(n) is Some)
}

/// The numbers of the pieces' placeholders, in order.
pub open spec fn parts_numbers(parts: Seq<Seq<char>>, suffix: Seq<char>) -> Seq<u32>
    decreases parts.len(),
{
    if parts.len() == 0 {
        Seq::empty()
    } else {
        parts_numbers(parts.drop_last(), suffix) + match part_number(parts.last(), suffix) {
            Some(n) => match parse_u32(n) {
                Some(v) => seq![v],
                None => Seq::empty(),
            },
            None => Seq::empty(),
        }
    }
}

/// The quasis that rewritten text holds once its placeholders are taken out.
pub open spec fn new_quasis_of(s: Seq<char>, base: Seq<char>, suffix: Seq<char>) -> Seq<Seq<char>> {
    split(s, base).map_values(|p: Seq<char>| part_quasi(p, suffix))
}

/// The expression numbers of the placeholders in rewritten text, in order.
pub open spec fn new_expr_ixs_of(s: Seq<char>, base: Seq<char>, suffix: Seq<char>) -> Seq<u32> {
    parts_numbers(split(s, base), suffix)
}

/// Every placeholder in the rewritten text carries a number that reads as a `u32`.
pub open spec fn placeholders_readable(s: Seq<char>, base: Seq<char>, suffix: Seq<char>) -> bool {
    numbers_readable(split(s, base), suffix)
}

/// The old quasis, with the first of them replaced by the new ones, pairwise.
pub open spec fn zip_replace(old: Seq<Seq<char>>, new: Seq<Seq<char>>) -> Seq<Seq<char>> {
    Seq::new(old.len(), |i: int| if i < new.len() { new[i] } else { old[i] })
}

/// Every placeholder of the rewritten text carries a readable number that
/// names one of `n_exprs` expressions.
pub open spec fn placeholders_fit(s: Seq<char>, base: Seq<char>, suffix: Seq<char>, n_exprs: nat) -> bool {
    &&& placeholders_readable(s, base, suffix)
    &&& forall|i: int|
        0 <= i < new_expr_ixs_of(s, base, suffix).len() ==> (#[trigger] new_expr_ixs_of(
            s,
            base,
            suffix,
        )[i] as int) < n_exprs
}

/// `new` is `old` rewritten after the text `s`: the quasis take the text
/// between the placeholders, and the expressions follow the placeholders.
pub open spec fn numbered_applied<E: Clone>(
    old: Template<E>,
    new: Template<E>,
    s: Seq<char>,
    base: Seq<char>,
    suffix: Seq<char>,
) -> bool {
    let ixs = new_expr_ixs_of(s, base, suffix);
    &&& placeholders_fit(s, base, suffix, old.exprs@.len())
    &&& new.raws() == zip_replace(old.raws(), new_quasis_of(s, base, suffix))
    &&& new.exprs.len() == ixs.len()
    &&& forall|i: int|
        0 <= i < ixs.len() ==> cloned(old.exprs@[ixs[i] as int], #[trigger] new.exprs@[i])
}

/// The placeholders of the rewritten text name each of `n` expressions
/// exactly once, and no other piece of text stands between them.
pub open spec fn placeholders_exact(s: Seq<char>, base: Seq<char>, suffix: Seq<char>, n: nat) -> bool {
    let ixs = new_expr_ixs_of(s, base, suffix);
    &&& placeholders_fit(s, base, suffix, n)
    &&& ixs.len() == n
    &&& new_quasis_of(s, base, suffix).len() == n + 1
    &&& forall|i: int, j: int| 0 <= i < j < ixs.len() ==> #[trigger] ixs[i] != #[trigger] ixs[j]
}

/// Whether the placeholders of the rewritten text name each of `n`
/// expressions exactly once, with nothing else between them.
pub fn check_placeholders_exact(new_raw: &str, ph_base: &str, ph_suffix: &str, n: usize) -> (r:
    bool)
    ensures
        r == placeholders_exact(new_raw@, ph_base@, ph_suffix@, n as nat),
{
    let (ixs, quasis) = match try_split_new_quasis(new_raw, ph_base, ph_suffix) {
        Some(parts) => parts,
        None => {
            return false;
        },
    };
    let ghost spec_ixs = new_expr_ixs_of(new_raw@, ph_base@, ph_suffix@);
    assert(quasis@.len() == new_quasis_of(new_raw@, ph_base@, ph_suffix@).len());
    if ixs.len() != n || quasis.len() == 0 || quasis.len() - 1 != n {
        return false;
    }
    let mut seen: Vec<bool> = Vec::new();
    let mut k: usize = 0;
    while k < n
        invariant
            k <= n,
            seen.len() == k,
            forall|m: int| 0 <= m < k ==> !#[trigger] seen@[m],
        decreases n - k,
    {
        seen.push(false);
        k += 1;
    }
    let mut i: usize = 0;
    while i < n
        invariant
            i <= n == ixs.len() == seen.len(),
            ixs@ == spec_ixs,
            spec_ixs == new_expr_ixs_of(new_raw@, ph_base@, ph_suffix@),
            forall|j: int| 0 <= j < i ==> (#[trigger] ixs@[j] as int) < n,
            forall|a: int, b: int| 0 <= a < b < i ==> #[trigger] ixs@[a] != #[trigger] ixs@[b],
            forall|m: int|
                0 <= m < n ==> (#[trigger] seen@[m] <==> exists|j: int|
                    0 <= j < i && ixs@[j] as int == m),
        decreases n - i,
    {
        let ix = ixs[i] as usize;
        if ix >= n {
            assert(!placeholders_fit(new_raw@, ph_base@, ph_suffix@, n as nat)) by {
                assert(spec_ixs[i as int] as int >= n);
            }
            return false;
        }
        if seen[ix] {
            let ghost j = choose|j: int| 0 <= j < i && ixs@[j] as int == ix;
            assert(ixs@[j] == ixs@[i as int]);
            assert(!placeholders_exact(new_raw@, ph_base@, ph_suffix@, n as nat)) by {
                assert(spec_ixs[j] == spec_ixs[i as int]);
            }
            return false;
        }
        seen.set(ix, true);
        i += 1;
    }
    true
}

/// Rewrites the template after the text `new_raw`, whose placeholders name its
/// expressions: the quasis take the text between the placeholders and the
/// expressions follow the placeholders.  When a placeholder names no
/// expression, the template stays as it is and the result is `false`.
pub fn apply_numbered<E: Clone>(
    tpl: &mut Template<E>,
    new_raw: &str,
    ph_base: &str,
    ph_suffix: &str,
) -> (fit: bool)
    ensures
        fit == placeholders_fit(new_raw@, ph_base@, ph_suffix@, old(tpl).exprs@.len()),
        fit ==> numbered_applied(*old(tpl), *final(tpl), new_raw@, ph_base@, ph_suffix@),
        !fit ==> final(tpl).same_as(*old(tpl)),
{
    let (new_expr_ixs, new_quasis) = match try_split_new_quasis(new_raw, ph_base, ph_suffix) {
        Some(parts) => parts,
        None => {
            return false;
        },
    };
    let n = new_expr_ixs.len();
    let mut i: usize = 0;
    while i < n
        invariant
            i <= n == new_expr_ixs.len(),
            new_expr_ixs@ == new_expr_ixs_of(new_raw@, ph_base@, ph_suffix@),
            tpl.exprs@.len() == old(tpl).exprs@.len(),
            forall|j: int| 0 <= j < i ==> (#[trigger] new_expr_ixs@[j] as int) < tpl.exprs.len(),
        decreases n - i,
    {
        if new_expr_ixs[i] as usize >= tpl.exprs.len() {
            assert(new_expr_ixs_of(new_raw@, ph_base@, ph_suffix@)[i as int] as int
                >= old(tpl).exprs@.len());
            return false;
        }
        i += 1;
    }
    replace_quasis(tpl, new_quasis);
    reorder_exprs(tpl, new_expr_ixs);
    true
}

/// The quasis of the template joined with numbered placeholders, counting from 0.
pub fn join_quasis<E>(tpl: &Template<E>, ph_base: &str, ph_suffix: &str) -> (res: String)
    ensures
        res@ == join_numbered(tpl.raws(), ph_base@, ph_suffix@, 0),
{
    let ghost raws = tpl.raws();
    let mut res = String::new();
    let n = tpl.quasis.len();
    let mut i: usize = 0;
    while i < n
        invariant
            i <= n == tpl.quasis.len(),
            raws == tpl.raws(),
            res@ == join_numbered(raws.take(i as int), ph_base@, ph_suffix@, 0),
        decreases n - i,
    {
        if i > 0 {
            res.append(ph_base);
            let num = decimal_string(i - 1);
            res.append(num.as_str());
            res.append(ph_suffix);
            proof {
                lemma_join_numbered_push(raws.take(i as int), ph_base@, ph_suffix@, 0, raws[i as int]);
            }
        } else {
            assert(join_numbered(raws.take(1), ph_base@, ph_suffix@, 0) == raws[0]);
        }
        res.append(tpl.quasis[i].as_str());
        assert(raws.take(i + 1) =~= raws.take(i as int).push(raws[i as int]));
        i += 1;
    }
    assert(raws.take(n as int) =~= raws);
    res
}

/// Splits rewritten text at its placeholders: the expression numbers that the
/// placeholders carry, in order, and the quasis between them; or nothing when
/// a placeholder's number does not read as a `u32`.
pub fn try_split_new_quasis<'raw>(new_raw: &'raw str, ph_base: &str, ph_suffix: &str) -> (r:
    Option<(Vec<u32>, Vec<&'raw str>)>)
    ensures
        match r {
            Some((ixs, quasis)) => {
                &&& placeholders_readable(new_raw@, ph_base@, ph_suffix@)
                &&& ixs@ == new_expr_ixs_of(new_raw@, ph_base@, ph_suffix@)
                &&& str_views(quasis@) == new_quasis_of(new_raw@, ph_base@, ph_suffix@)
            },
            None => !placeholders_readable(new_raw@, ph_base@, ph_suffix@),
        },
{
    let s = chars_of(new_raw);
    let base = chars_of(ph_base);
    let suffix = chars_of(ph_suffix);
    let ranges = split_ranges(&s, &base);
    let ghost parts = split(s@, base@);
    let ghost qf = |p: Seq<char>| part_quasi(p, suffix@);
    let mut ixs: Vec<u32> = Vec::new();
    let mut quasis: Vec<&'raw str> = Vec::new();
    let mut i: usize = 0;
    while i < ranges.len()
        invariant
            i <= ranges.len() == parts.len(),
            s@ == new_raw@,
            base@ == ph_base@,
            suffix@ == ph_suffix@,
            parts == split(s@, base@),
            qf == (|p: Seq<char>| part_quasi(p, suffix@)),
            forall|j: int|
                0 <= j < ranges.len() ==> {
                    &&& (#[trigger] ranges@[j]).0 <= ranges@[j].1 <= s.len()
                    &&& s@.subrange(ranges@[j].0 as int, ranges@[j].1 as int) == parts[j]
                },
            quasis.len() == i,
            str_views(quasis@) == parts.take(i as int).map_values(qf),
            ixs@ == parts_numbers(parts.take(i as int), suffix@),
            numbers_readable(parts.take(i as int), suffix@),
        decreases ranges.len() - i,
    {
        let (start, end) = ranges[i];
        let ghost part = parts[i as int];
        assert(s@.subrange(start as int, end as int) == part) by {
            assert(ranges@[i as int] == (start, end));
        }
        let ghost done = parts.take(i as int);
        let ghost next = parts.take(i + 1);
        assert(next =~= done.push(part));
        assert(next.drop_last() =~= done);
        let ghost before = quasis@;
        let so = find_in(&s, &suffix, start, end);
        match so {
            Some(m) => {
                proof {
                    assert(part.take(m - start) =~= s@.subrange(start as int, m as int));
                    assert(part.skip(m - start + suffix@.len()) =~= s@.subrange(
                        m + suffix@.len(),
                        end as int,
                    ));
                }
                let num = parse_u32_in(&s, start, m);
                match num {
                    Some(v) => {
                        ixs.push(v);
                    },
                    None => {
                        proof {
                            assert(part_number(parts[i as int], suffix@) == Some(
                                s@.subrange(start as int, m as int),
                            ));
                        }
                        return None;
                    },
                }
                quasis.push(new_raw.substring_char(m + suffix.len(), end));
            },
            None => {
                proof {
                    assert(part =~= s@.subrange(start as int, end as int));
                }
                quasis.push(new_raw.substring_char(start, end));
            },
        }
        proof {
            assert(quasis@ == before.push(quasis@[i as int]));
            assert(quasis@[i as int]@ == qf(part));
            assert forall|j: int| 0 <= j <= i implies #[trigger] str_views(quasis@)[j]
                == next.map_values(qf)[j] by {
                if j < i {
                    assert(quasis@[j] == before[j]);
                    assert(str_views(before)[j] == before[j]@);
                }
            }
            assert(str_views(quasis@) =~= next.map_values(qf));
            assert forall|j: int| 0 <= j < next.len() implies (#[trigger] part_number(
                next[j],
                suffix@,
            ) matches Some(nn) ==> parse_u32(nn) is Some) by {
                if j < i {
                    assert(next[j] == done[j]);
                }
            }
        }
        i += 1;
    }
    assert(parts.take(i as int) =~= parts);
    Some((ixs, quasis))
}

/// Splits rewritten text at its placeholders: the expression numbers that the
/// placeholders carry, in order, and the quasis between them.
pub fn split_new_quasis<'raw>(new_raw: &'raw str, ph_base: &str, ph_suffix: &str) -> (r: (
    Vec<u32>,
    Vec<&'raw str>,
))
    requires
        placeholders_readable(new_raw@, ph_base@, ph_suffix@),
    ensures
        r.0@ == new_expr_ixs_of(new_raw@, ph_base@, ph_suffix@),
        str_views(r.1@) == new_quasis_of(new_raw@, ph_base@, ph_suffix@),
{
    match try_split_new_quasis(new_raw, ph_base, ph_suffix) {
        Some(r) => r,
        None => (Vec::new(), Vec::new()),
    }
}

/// The expressions become, in order, copies of the expressions that the
/// indexes name.
pub fn reorder_exprs<E: Clone>(tpl: &mut Template<E>, new_expr_ixs: Vec<u32>)
    requires
        forall|i: int|
            0 <= i < new_expr_ixs.len() ==> (#[trigger] new_expr_ixs@[i] as int) < old(
                tpl,
            ).exprs.len(),
    ensures
        final(tpl).quasis@ == old(tpl).quasis@,
        final(tpl).exprs.len() == new_expr_ixs.len(),
        forall|i: int|
            0 <= i < new_expr_ixs.len() ==> cloned(
                old(tpl).exprs@[new_expr_ixs@[i] as int],
                #[trigger] final(tpl).exprs@[i],
            ),
{
    let mut new_exprs: Vec<E> = Vec::new();
    let n = new_expr_ixs.len();
    let mut i: usize = 0;
    while i < n
        invariant
            i <= n == new_expr_ixs.len(),
            tpl == old(tpl),
            forall|j: int|
                0 <= j < new_expr_ixs.len() ==> (#[trigger] new_expr_ixs@[j] as int)
                    < tpl.exprs.len(),
            new_exprs.len() == i,
            forall|j: int|
                0 <= j < i ==> cloned(
                    tpl.exprs@[new_expr_ixs@[j] as int],
                    #[trigger] new_exprs@[j],
                ),
        decreases n - i,
    {
        let ix = new_expr_ixs[i] as usize;
        let e = tpl.exprs[ix].clone();
        new_exprs.push(e);
        i += 1;
    }
    tpl.exprs = new_exprs;
}

/// Each quasi takes the text of the new quasi at its position; quasis beyond
/// the new ones keep their text, and new ones beyond the quasis are ignored.
pub fn replace_quasis<E>(tpl: &mut Template<E>, new_quasis: Vec<&str>)
    ensures
        final(tpl).raws() == zip_replace(old(tpl).raws(), str_views(new_quasis@)),
        final(tpl).exprs@ == old(tpl).exprs@,
{
    let ghost old_raws = old(tpl).raws();
    let ghost new_views = str_views(new_quasis@);
    let n = tpl.quasis.len();
    let mut i: usize = 0;
    while i < n
        invariant
            i <= n == tpl.quasis.len(),
            old_raws.len() == n,
            new_views == str_views(new_quasis@),
            tpl.exprs@ == old(tpl).exprs@,
            forall|j: int|
                0 <= j < n ==> #[trigger] tpl.raws()[j] == if j < i && j < new_views.len() {
                    new_views[j]
                } else {
                    old_raws[j]
                },
        decreases n - i,
    {
        let ghost prev = tpl.raws();
        if i < new_quasis.len() {
            let q = new_quasis[i].to_owned();
            tpl.quasis.set(i, q);
            assert(tpl.raws() =~= prev.update(i as int, new_views[i as int]));
        }
        i += 1;
    }
    assert(tpl.raws() =~= zip_replace(old_raws, new_views));
}

} // verus!
