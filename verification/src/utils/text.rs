//! Character-level text operations on which the template handling is built:
//! searching, splitting, joining, and decimal numbers.
use vstd::prelude::*;

verus! {

broadcast use vstd::seq_lib::group_seq_properties;

// ---------------------------------------------------------------------------
// Searching
// ---------------------------------------------------------------------------

/// `pat` occurs in `s` starting at position `i`.
pub open spec fn occurs_at(s: Seq<char>, pat: Seq<char>, i: int) -> bool {
    &&& 0 <= i
    &&& i + pat.len() <= s.len()
    &&& s.subrange(i, i + pat.len()) == pat
}

/// `pat` occurs somewhere in `s`.
pub open spec fn contains_seq(s: Seq<char>, pat: Seq<char>) -> bool {
    exists|i: int| occurs_at(s, pat, i)
}

/// The first position at or after `i` at which `pat` occurs in `s`.
pub open spec fn find_from(s: Seq<char>, pat: Seq<char>, i: int) -> Option<int>
    decreases s.len() - i,
{
    if i < 0 || i + pat.len() > s.len() {
        None
    } else if occurs_at(s, pat, i) {
        Some(i)
    } else if i >= s.len() {
        None
    } else {
        find_from(s, pat, i + 1)
    }
}

/// The first position at which `pat` occurs in `s` (what `str::find` gives).
pub open spec fn find(s: Seq<char>, pat: Seq<char>) -> Option<int> {
    find_from(s, pat, 0)
}

/// `find_from` gives the least occurrence at or after `i`, or none when there is none.
pub proof fn lemma_find_from(s: Seq<char>, pat: Seq<char>, i: int)
    requires
        0 <= i,
    ensures
        match find_from(s, pat, i) {
            Some(k) => i <= k && occurs_at(s, pat, k) && forall|j: int|
                i <= j < k ==> !#[trigger] occurs_at(s, pat, j),
            None => forall|j: int| i <= j ==> !#[trigger] occurs_at(s, pat, j),
        },
    decreases s.len() - i,
{
    if i + pat.len() > s.len() {
    } else if occurs_at(s, pat, i) {
    } else if i >= s.len() {
        if pat.len() == 0 {
            assert(s.subrange(i, i) =~= pat);
        }
    } else {
        lemma_find_from(s, pat, i + 1);
    }
}

/// The least occurrence of `pat` is what `find` returns.
pub proof fn lemma_find_is(s: Seq<char>, pat: Seq<char>, k: int)
    requires
        occurs_at(s, pat, k),
        forall|j: int| 0 <= j < k ==> !#[trigger] occurs_at(s, pat, j),
    ensures
        find(s, pat) == Some(k),
{
    lemma_find_from(s, pat, 0);
}

/// Without an occurrence, `find` gives nothing.
pub proof fn lemma_find_none(s: Seq<char>, pat: Seq<char>)
    requires
        forall|j: int| 0 <= j ==> !#[trigger] occurs_at(s, pat, j),
    ensures
        find(s, pat) is None,
{
    lemma_find_from(s, pat, 0);
}

/// What `find` returns is an occurrence, and the first one.
pub proof fn lemma_find(s: Seq<char>, pat: Seq<char>)
    ensures
        match find(s, pat) {
            Some(k) => occurs_at(s, pat, k) && forall|j: int|
                0 <= j < k ==> !#[trigger] occurs_at(s, pat, j),
            None => !contains_seq(s, pat),
        },
{
    lemma_find_from(s, pat, 0);
}

/// No non-empty proper suffix of `pat` is also a prefix of it, so that two
/// occurrences of `pat` never overlap.
pub open spec fn unbordered(pat: Seq<char>) -> bool {
    forall|k: int| 0 < k < pat.len() ==> #[trigger] pat.skip(k) != pat.take(pat.len() - k)
}

/// No character of `x` is `c`.
pub open spec fn lacks_char(x: Seq<char>, c: char) -> bool {
    forall|i: int| 0 <= i < x.len() ==> #[trigger] x[i] != c
}

/// In `x + pat + y`, the first occurrence of `pat` is the one after `x`, when
/// no occurrence starts inside `x`.
pub proof fn lemma_find_after(x: Seq<char>, pat: Seq<char>, y: Seq<char>)
    requires
        pat.len() > 0,
        forall|j: int| 0 <= j < x.len() ==> !#[trigger] occurs_at(x + pat + y, pat, j),
    ensures
        find(x + pat + y, pat) == Some(x.len() as int),
{
    let s = x + pat + y;
    assert(s.subrange(x.len() as int, (x.len() + pat.len()) as int) =~= pat);
    lemma_find_is(s, pat, x.len() as int);
}

/// An occurrence of `pat` that starts inside `x` in `x + pat + y` lies inside
/// `x` or overlaps the `pat` after it; the first is ruled out when `x` holds
/// no `pat`, the second when `pat` is unbordered.
pub proof fn lemma_no_occurrence_in_prefix(x: Seq<char>, pat: Seq<char>, y: Seq<char>)
    requires
        pat.len() > 0,
        !contains_seq(x, pat),
        unbordered(pat),
    ensures
        forall|j: int| 0 <= j < x.len() ==> !#[trigger] occurs_at(x + pat + y, pat, j),
{
    let s = x + pat + y;
    assert forall|j: int| 0 <= j < x.len() implies !#[trigger] occurs_at(s, pat, j) by {
        if occurs_at(s, pat, j) {
            if j + pat.len() <= x.len() {
                assert(x.subrange(j, j + pat.len()) =~= s.subrange(j, j + pat.len()));
                assert(occurs_at(x, pat, j));
            } else {
                let k = x.len() - j;
                assert(pat.skip(k) =~= pat.take(pat.len() - k)) by {
                    assert forall|t: int| 0 <= t < pat.len() - k implies pat.skip(k)[t] == pat.take(
                        pat.len() - k,
                    )[t] by {
                        assert(s.subrange(j, j + pat.len())[k + t] == s[x.len() + t]);
                        assert(s[x.len() + t] == pat[t]);
                    }
                }
            }
        }
    }
}

/// An occurrence of `pat` in `x + y` lies in `y` when `x` lacks the first
/// character of `pat`.
pub proof fn lemma_no_occurrence_concat(x: Seq<char>, y: Seq<char>, pat: Seq<char>)
    requires
        pat.len() > 0,
        lacks_char(x, pat[0]),
        !contains_seq(y, pat),
    ensures
        !contains_seq(x + y, pat),
{
    let s = x + y;
    assert forall|j: int| !#[trigger] occurs_at(s, pat, j) by {
        if occurs_at(s, pat, j) {
            if j < x.len() {
                assert(s.subrange(j, j + pat.len())[0] == x[j]);
            } else {
                assert(y.subrange(j - x.len(), j - x.len() + pat.len()) =~= s.subrange(
                    j,
                    j + pat.len(),
                ));
                assert(occurs_at(y, pat, j - x.len()));
            }
        }
    }
}

/// Text without an occurrence of `pat` is not split by it.
pub proof fn lemma_split_whole(s: Seq<char>, sep: Seq<char>)
    requires
        sep.len() > 0,
        !contains_seq(s, sep),
    ensures
        split(s, sep) == seq![s],
        split_once(s, sep) is None,
{
    lemma_find(s, sep);
}

// ---------------------------------------------------------------------------
// Splitting and joining
// ---------------------------------------------------------------------------

/// The pieces of `s` between the non-overlapping occurrences of `sep`, taken
/// from the left (what `str::split` yields).  An empty separator matches
/// before and after each character, which gives an empty piece, each
/// character alone, and another empty piece.
pub open spec fn split(s: Seq<char>, sep: Seq<char>) -> Seq<Seq<char>>
    decreases s.len(),
{
    if sep.len() == 0 {
        seq![Seq::empty()] + Seq::new(s.len(), |i: int| seq![s[i]]) + seq![Seq::empty()]
    } else {
        match find(s, sep) {
            Some(i) => if 0 <= i && i + sep.len() <= s.len() {
                seq![s.take(i)] + split(s.skip(i + sep.len()), sep)
            } else {
                seq![s]
            },
            None => seq![s],
        }
    }
}

/// Joining the pieces of a split with the separator gives back the text.
pub proof fn lemma_join_split(s: Seq<char>, sep: Seq<char>)
    requires
        sep.len() > 0,
    ensures
        split(s, sep).len() >= 1,
        join(split(s, sep), sep) == s,
    decreases s.len(),
{
    lemma_find(s, sep);
    match find(s, sep) {
        Some(i) => {
            let rest = s.skip(i + sep.len());
            lemma_join_split(rest, sep);
            let p = split(s, sep);
            assert(p =~= seq![s.take(i)] + split(rest, sep));
            assert(p.drop_first() =~= split(rest, sep));
            assert(p[0] == s.take(i));
            assert(s.take(i) + sep + rest =~= s);
        },
        None => {},
    }
}

/// The text before and after the first occurrence of `pat` (what `str::split_once` gives).
pub open spec fn split_once(s: Seq<char>, pat: Seq<char>) -> Option<(Seq<char>, Seq<char>)> {
    match find(s, pat) {
        Some(i) => Some((s.take(i), s.skip(i + pat.len()))),
        None => None,
    }
}

/// The pieces with `sep` between each two neighbours.
pub open spec fn join(parts: Seq<Seq<char>>, sep: Seq<char>) -> Seq<char>
    decreases parts.len(),
{
    if parts.len() == 0 {
        Seq::empty()
    } else if parts.len() == 1 {
        parts[0]
    } else {
        parts[0] + sep + join(parts.drop_first(), sep)
    }
}

/// Joining one piece more appends the separator and that piece.
pub proof fn lemma_join_push(parts: Seq<Seq<char>>, sep: Seq<char>, x: Seq<char>)
    requires
        parts.len() >= 1,
    ensures
        join(parts.push(x), sep) == join(parts, sep) + sep + x,
    decreases parts.len(),
{
    let p = parts.push(x);
    assert(p[0] == parts[0]);
    if parts.len() == 1 {
        assert(p.drop_first() =~= seq![x]);
        assert(join(seq![x], sep) == x);
        assert(join(p, sep) == parts[0] + sep + x);
    } else {
        assert(p.drop_first() =~= parts.drop_first().push(x));
        lemma_join_push(parts.drop_first(), sep, x);
        assert(join(p, sep) =~= join(parts, sep) + sep + x);
    }
}

// ---------------------------------------------------------------------------
// Decimal numbers
// ---------------------------------------------------------------------------

/// The character of the decimal digit `d`.
pub open spec fn digit_char(d: nat) -> char {
    (48 + d) as char
}

/// `c` is one of `0` to `9`.
pub open spec fn is_digit(c: char) -> bool {
    48 <= c as int <= 57
}

/// The value of the decimal digit `c`.
pub open spec fn digit_value(c: char) -> int {
    c as int - 48
}

/// Every character of `s` is a decimal digit.
pub open spec fn all_digits(s: Seq<char>) -> bool {
    forall|i: int| 0 <= i < s.len() ==> #[trigger] is_digit(s[i])
}

/// The number that the digits `s` spell in base ten.
pub open spec fn digits_value(s: Seq<char>) -> int
    decreases s.len(),
{
    if s.len() == 0 {
        0
    } else {
        digits_value(s.drop_last()) * 10 + digit_value(s.last())
    }
}

/// The decimal notation of `n`, without sign or leading zeros.
pub open spec fn decimal(n: nat) -> Seq<char>
    decreases n,
{
    if n < 10 {
        seq![digit_char(n)]
    } else {
        decimal(n / 10) + seq![digit_char(n % 10)]
    }
}

/// What `str::parse::<u32>` gives: an optional `+`, then one or more decimal
/// digits whose value fits in a `u32`.
pub open spec fn parse_u32(s: Seq<char>) -> Option<u32> {
    let d = if s.len() > 0 && s[0] == '+' {
        s.drop_first()
    } else {
        s
    };
    if d.len() > 0 && all_digits(d) && digits_value(d) <= u32::MAX {
        Some(digits_value(d) as u32)
    } else {
        None
    }
}

/// The digit character of `d` is a digit whose value is `d`.
pub proof fn lemma_digit_char(d: nat)
    requires
        d < 10,
    ensures
        is_digit(digit_char(d)),
        digit_value(digit_char(d)) == d,
{
}

/// The decimal notation of a number is made of digits and spells that number.
pub proof fn lemma_decimal(n: nat)
    ensures
        decimal(n).len() > 0,
        all_digits(decimal(n)),
        digits_value(decimal(n)) == n,
    decreases n,
{
    lemma_digit_char(n % 10);
    if n < 10 {
        assert(decimal(n).drop_last() =~= Seq::<char>::empty());
        assert(digits_value(decimal(n)) == digits_value(Seq::<char>::empty()) * 10 + digit_value(
            digit_char(n),
        ));
    } else {
        lemma_decimal(n / 10);
        let d = decimal(n);
        assert(d.drop_last() =~= decimal(n / 10));
        assert(d.last() == digit_char(n % 10));
        assert(digits_value(d) == (n / 10) as int * 10 + (n % 10) as int);
        assert forall|i: int| 0 <= i < d.len() implies #[trigger] is_digit(d[i]) by {
            if i < d.len() - 1 {
                assert(d[i] == decimal(n / 10)[i]);
            }
        }
    }
}

/// Reading back the decimal notation of a `u32` gives that number.
pub proof fn lemma_parse_decimal(n: nat)
    requires
        n <= u32::MAX,
    ensures
        parse_u32(decimal(n)) == Some(n as u32),
{
    lemma_decimal(n);
    assert(is_digit(decimal(n)[0]));
}

// ---------------------------------------------------------------------------
// Executable counterparts
// ---------------------------------------------------------------------------

/// The characters of `s`, one by one.
pub fn chars_of(s: &str) -> (v: Vec<char>)
    ensures
        v@ == s@,
{
    broadcast use vstd::string::group_string_axioms;

    let mut v: Vec<char> = Vec::new();
    for c in it: s.chars()
        invariant
            v@ == it.seq().take(it.index() as int),
    {
        v.push(c);
    }
    v
}

/// Whether `pat` stands in `s` at position `i`.
pub fn occurs_at_exec(s: &Vec<char>, pat: &Vec<char>, i: usize) -> (r: bool)
    requires
        i <= s.len(),
        pat.len() <= s.len() - i,
    ensures
        r == occurs_at(s@, pat@, i as int),
{
    let mut j: usize = 0;
    while j < pat.len()
        invariant
            j <= pat.len(),
            i + pat.len() <= s.len(),
            forall|k: int| 0 <= k < j ==> s@[i + k] == pat@[k],
        decreases pat.len() - j,
    {
        if s[i + j] != pat[j] {
            assert(s@.subrange(i as int, i + pat.len())[j as int] != pat@[j as int]);
            return false;
        }
        j += 1;
    }
    assert(s@.subrange(i as int, i + pat.len()) =~= pat@);
    true
}

/// The first occurrence of `pat` in the range `from..to` of `s`, as a position in `s`.
pub fn find_in(s: &Vec<char>, pat: &Vec<char>, from: usize, to: usize) -> (r: Option<usize>)
    requires
        from <= to <= s.len(),
    ensures
        match r {
            Some(k) => from <= k && k + pat.len() <= to && find(
                s@.subrange(from as int, to as int),
                pat@,
            ) == Some(k - from),
            None => find(s@.subrange(from as int, to as int), pat@) is None,
        },
{
    let ghost sub = s@.subrange(from as int, to as int);
    if pat.len() > to - from {
        proof {
            lemma_find_none(sub, pat@);
        }
        return None;
    }
    let last = to - pat.len();
    let mut i = from;
    while i <= last
        invariant
            from <= i <= last + 1,
            last + pat.len() == to,
            to <= s.len(),
            sub == s@.subrange(from as int, to as int),
            forall|j: int| 0 <= j < i - from ==> !#[trigger] occurs_at(sub, pat@, j),
        decreases last + 1 - i,
    {
        let here = occurs_at_exec(s, pat, i);
        assert(sub.subrange(i - from, i - from + pat.len()) =~= s@.subrange(
            i as int,
            i + pat.len(),
        ));
        if here {
            proof {
                lemma_find_is(sub, pat@, i - from);
            }
            return Some(i);
        }
        i += 1;
    }
    proof {
        lemma_find_none(sub, pat@);
    }
    None
}

/// Reads the characters `from..to` of `s` as `str::parse::<u32>` does.
pub fn parse_u32_in(s: &Vec<char>, from: usize, to: usize) -> (r: Option<u32>)
    requires
        from <= to <= s.len(),
    ensures
        r == parse_u32(s@.subrange(from as int, to as int)),
{
    let ghost t = s@.subrange(from as int, to as int);
    let mut start = from;
    if from < to && s[from] == '+' {
        start = from + 1;
    }
    let ghost d = s@.subrange(start as int, to as int);
    assert(d =~= if t.len() > 0 && t[0] == '+' {
        t.drop_first()
    } else {
        t
    });
    if start == to {
        return None;
    }
    let mut acc: u32 = 0;
    let mut i = start;
    while i < to
        invariant
            start <= i <= to <= s.len(),
            d == s@.subrange(start as int, to as int),
            t == s@.subrange(from as int, to as int),
            d.len() > 0,
            d == (if t.len() > 0 && t[0] == '+' {
                t.drop_first()
            } else {
                t
            }),
            all_digits(d.take(i - start)),
            acc == digits_value(d.take(i - start)),
        decreases to - i,
    {
        let c = s[i];
        assert(d[i - start] == c);
        let v = match digit_of(c) {
            Some(v) => v,
            None => {
                assert(!all_digits(d)) by {
                    assert(!is_digit(d[i - start]));
                }
                return None;
            },
        };
        let ghost prefix = d.take(i - start + 1);
        assert(prefix.drop_last() =~= d.take(i - start));
        assert(prefix.last() == c);
        assert(all_digits(prefix)) by {
            assert forall|k: int| 0 <= k < prefix.len() implies #[trigger] is_digit(prefix[k]) by {
                if k < prefix.len() - 1 {
                    assert(prefix[k] == d.take(i - start)[k]);
                }
            }
        }
        let next = acc.checked_mul(10);
        match next {
            None => {
                proof {
                    assert(digits_value(prefix) == acc * 10 + v);
                    if all_digits(d) {
                        lemma_digits_value_prefix(d, i - start + 1);
                    }
                }
                return None;
            }
            Some(m) => {
                match m.checked_add(v) {
                    None => {
                        proof {
                            assert(digits_value(prefix) == acc * 10 + v);
                            if all_digits(d) {
                                lemma_digits_value_prefix(d, i - start + 1);
                            }
                        }
                        return None;
                    }
                    Some(a) => {
                        acc = a;
                    }
                }
            }
        }
        i += 1;
    }
    assert(d.take(to - start) =~= d);
    Some(acc)
}

/// The value of `c` when it is a decimal digit.
pub fn digit_of(c: char) -> (r: Option<u32>)
    ensures
        match r {
            Some(v) => is_digit(c) && v == digit_value(c),
            None => !is_digit(c),
        },
{
    match c {
        '0' => Some(0),
        '1' => Some(1),
        '2' => Some(2),
        '3' => Some(3),
        '4' => Some(4),
        '5' => Some(5),
        '6' => Some(6),
        '7' => Some(7),
        '8' => Some(8),
        '9' => Some(9),
        _ => None,
    }
}

/// The value of a prefix of a run of digits is at most the value of the whole run.
pub proof fn lemma_digits_value_prefix(d: Seq<char>, k: int)
    requires
        0 <= k <= d.len(),
        all_digits(d),
    ensures
        digits_value(d.take(k)) <= digits_value(d),
        0 <= digits_value(d.take(k)),
    decreases d.len() - k,
{
    lemma_digits_value_nonneg(d.take(k));
    if k < d.len() {
        lemma_digits_value_prefix(d, k + 1);
        let p = d.take(k + 1);
        assert(p.drop_last() =~= d.take(k));
        assert(is_digit(d[k]));
    } else {
        assert(d.take(k) =~= d);
    }
}

/// Digits never spell a negative number.
pub proof fn lemma_digits_value_nonneg(d: Seq<char>)
    requires
        all_digits(d),
    ensures
        0 <= digits_value(d),
    decreases d.len(),
{
    if d.len() > 0 {
        assert(all_digits(d.drop_last())) by {
            assert forall|k: int| 0 <= k < d.len() - 1 implies #[trigger] is_digit(
                d.drop_last()[k],
            ) by {
                assert(is_digit(d[k]));
            }
        }
        lemma_digits_value_nonneg(d.drop_last());
        assert(is_digit(d.last()));
    }
}

/// The bounds, in `s`, of the pieces between the occurrences of `sep`.
pub fn split_ranges(s: &Vec<char>, sep: &Vec<char>) -> (r: Vec<(usize, usize)>)
    ensures
        r.len() == split(s@, sep@).len(),
        forall|i: int|
            0 <= i < r.len() ==> {
                &&& (#[trigger] r@[i]).0 <= r@[i].1 <= s.len()
                &&& s@.subrange(r@[i].0 as int, r@[i].1 as int) == split(s@, sep@)[i]
            },
{
    let n = s.len();
    let mut out: Vec<(usize, usize)> = Vec::new();
    if sep.len() == 0 {
        let ghost parts = split(s@, sep@);
        out.push((0, 0));
        assert(s@.subrange(0, 0) =~= parts[0]);
        let mut i: usize = 0;
        while i < n
            invariant
                i <= n == s.len(),
                sep@.len() == 0,
                parts == split(s@, sep@),
                parts.len() == n + 2,
                out.len() == i + 1,
                forall|j: int|
                    0 <= j < out.len() ==> {
                        &&& (#[trigger] out@[j]).0 <= out@[j].1 <= s.len()
                        &&& s@.subrange(out@[j].0 as int, out@[j].1 as int) == parts[j]
                    },
            decreases n - i,
        {
            out.push((i, i + 1));
            assert(s@.subrange(i as int, i + 1) =~= parts[i + 1]);
            i += 1;
        }
        out.push((n, n));
        assert(s@.subrange(n as int, n as int) =~= parts[n + 1]);
        return out;
    }
    let ghost mut done: Seq<Seq<char>> = Seq::empty();
    let mut start: usize = 0;
    assert(s@.skip(0) =~= s@);
    loop
        invariant
            start <= n == s@.len(),
            sep@.len() > 0,
            split(s@, sep@) == done + split(s@.skip(start as int), sep@),
            out.len() == done.len(),
            forall|j: int|
                0 <= j < out.len() ==> {
                    &&& (#[trigger] out@[j]).0 <= out@[j].1 <= s.len()
                    &&& s@.subrange(out@[j].0 as int, out@[j].1 as int) == done[j]
                },
        decreases n - start,
    {
        let ghost rest = s@.skip(start as int);
        assert(s@.subrange(start as int, n as int) =~= rest);
        let found = find_in(s, sep, start, n);
        let ghost old_done = done;
        match found {
            Some(k) => {
                out.push((start, k));
                proof {
                    let piece = s@.subrange(start as int, k as int);
                    assert(rest.take(k - start) =~= piece);
                    assert(rest.skip(k - start + sep@.len()) =~= s@.skip(k + sep@.len()));
                    done = done.push(piece);
                    assert(split(s@, sep@) =~= done + split(s@.skip(k + sep@.len()), sep@));
                }
                start = k + sep.len();
            },
            None => {
                out.push((start, n));
                proof {
                    let piece = s@.subrange(start as int, n as int);
                    assert(piece =~= rest);
                    done = done.push(piece);
                    assert(split(s@, sep@) =~= done);
                }
                return out;
            },
        }
    }
}

/// The views of borrowed text pieces.
pub open spec fn str_views(v: Seq<&str>) -> Seq<Seq<char>> {
    v.map_values(|q: &str| q@)
}

/// The pieces of `s` between the occurrences of `sep` (what `str::split` yields).
pub fn split_str<'a>(s: &'a str, sep: &str) -> (r: Vec<&'a str>)
    ensures
        str_views(r@) == split(s@, sep@),
{
    let cs = chars_of(s);
    let sp = chars_of(sep);
    let ranges = split_ranges(&cs, &sp);
    let ghost parts = split(s@, sep@);
    let mut out: Vec<&'a str> = Vec::new();
    let mut i: usize = 0;
    while i < ranges.len()
        invariant
            i <= ranges.len() == parts.len(),
            parts == split(s@, sep@),
            cs@ == s@,
            forall|j: int|
                0 <= j < ranges.len() ==> {
                    &&& (#[trigger] ranges@[j]).0 <= ranges@[j].1 <= cs.len()
                    &&& cs@.subrange(ranges@[j].0 as int, ranges@[j].1 as int) == parts[j]
                },
            out.len() == i,
            str_views(out@) == parts.take(i as int),
        decreases ranges.len() - i,
    {
        let (a, b) = ranges[i];
        let piece = s.substring_char(a, b);
        assert(piece@ == parts[i as int]) by {
            assert(ranges@[i as int] == (a, b));
        }
        let ghost before = out@;
        out.push(piece);
        assert(out@ == before.push(piece));
        assert(str_views(before) == parts.take(i as int));
        assert forall|j: int| 0 <= j <= i implies #[trigger] str_views(out@)[j] == parts.take(
            i + 1,
        )[j] by {
            if j < i {
                assert(str_views(out@)[j] == out@[j]@);
                assert(out@[j] == before[j]);
                assert(str_views(before)[j] == before[j]@);
            }
        }
        assert(str_views(out@) =~= parts.take(i + 1));
        i += 1;
    }
    assert(parts.take(i as int) =~= parts);
    out
}

/// Whether two texts hold the same characters.
pub fn same_text(a: &str, b: &str) -> (r: bool)
    ensures
        r == (a@ == b@),
{
    let ca = chars_of(a);
    let cb = chars_of(b);
    if ca.len() != cb.len() {
        return false;
    }
    let r = occurs_at_exec(&ca, &cb, 0);
    assert(ca@.subrange(0, ca@.len() as int) =~= ca@);
    r
}

/// Whether two lists of text pieces hold the same pieces in the same order.
pub fn same_pieces(a: &Vec<&str>, b: &Vec<&str>) -> (r: bool)
    ensures
        r == (str_views(a@) == str_views(b@)),
{
    if a.len() != b.len() {
        assert(str_views(a@).len() != str_views(b@).len());
        return false;
    }
    let mut i: usize = 0;
    while i < a.len()
        invariant
            i <= a.len() == b.len(),
            forall|j: int| 0 <= j < i ==> (#[trigger] a@[j])@ == b@[j]@,
        decreases a.len() - i,
    {
        if !same_text(a[i], b[i]) {
            assert(str_views(a@)[i as int] != str_views(b@)[i as int]);
            return false;
        }
        i += 1;
    }
    assert(str_views(a@) =~= str_views(b@));
    true
}

/// The digit `d` as a one-character string.
fn digit_str(d: usize) -> (r: &'static str)
    requires
        d < 10,
    ensures
        r@ == seq![digit_char(d as nat)],
{
    let digits = "0123456789";
    proof {
        reveal_strlit("0123456789");
    }
    let r = digits.substring_char(d, d + 1);
    assert(digits@[d as int] == digit_char(d as nat));
    assert(r@ =~= seq![digit_char(d as nat)]);
    r
}

/// The decimal notation of `n`.
pub fn decimal_string(n: usize) -> (r: String)
    ensures
        r@ == decimal(n as nat),
    decreases n,
{
    if n < 10 {
        digit_str(n).to_owned()
    } else {
        let mut r = decimal_string(n / 10);
        r.append(digit_str(n % 10));
        r
    }
}

} // verus!
