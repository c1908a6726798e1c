//! Release-version comparison for the "is there a newer release?" notice.
//!
//! A version string is read as `major.minor.patch`: it is cut at each `.`,
//! the first three pieces are kept, each piece is cut at its first `-` (a
//! SemVer pre-release suffix is ignored) and read as a `u32` the way
//! `str::parse::<u32>` reads it. A missing or unparseable piece counts as 0.

use vstd::prelude::*;

use vstd::string::*;

use crate::text::chars_of;

verus! {

/// The releases page named in the update notice.
pub const RELEASES_PAGE: &'static str = "https://github.com/SummerBasilisk/gmod-buttplug/releases";

// ---------------------------------------------------------------------------
// Specification
// ---------------------------------------------------------------------------

pub open spec fn is_digit(c: char) -> bool {
    '0' <= c && c <= '9'
}

pub open spec fn digit_value(c: char) -> nat {
    (c as int - '0' as int) as nat
}

pub open spec fn all_digits(d: Seq<char>) -> bool {
    forall|i: int| 0 <= i < d.len() ==> is_digit(#[trigger] d[i])
}

/// The number that a string of decimal digits denotes.
pub open spec fn digits_value(d: Seq<char>) -> nat
    decreases d.len(),
{
    if d.len() == 0 {
        0
    } else {
        digits_value(d.drop_last()) * 10 + digit_value(d.last())
    }
}

/// What `str::parse::<u32>` gives: an optional leading `+`, then one or
/// more decimal digits whose value fits in a `u32`.
pub open spec fn parse_u32_spec(s: Seq<char>) -> Option<u32> {
    let d = if s.len() > 0 && s[0] == '+' {
        s.drop_first()
    } else {
        s
    };
    if d.len() > 0 && all_digits(d) && digits_value(d) <= u32::MAX {
        Some(digits_value(d) as u32)
    } else {
        None
    }
}

/// Index of the first `c` in `s`, or `s.len()` when there is none.
pub open spec fn find_char(s: Seq<char>, c: char) -> nat
    decreases s.len(),
{
    if s.len() == 0 {
        0
    } else if s[0] == c {
        0
    } else {
        1 + find_char(s.drop_first(), c)
    }
}

/// The part of `s` before its first `c` (all of `s` when there is none).
pub open spec fn before_char(s: Seq<char>, c: char) -> Seq<char> {
    s.take(find_char(s, c) as int)
}

/// The part of `s` after its first `c`, or `None` when `s` holds no `c`.
pub open spec fn after_char(s: Seq<char>, c: char) -> Option<Seq<char>> {
    let k = find_char(s, c);
    if k < s.len() {
        Some(s.skip(k + 1 as int))
    } else {
        None
    }
}

/// What is left of `s` once its first `k` pieces, cut at `c`, are taken away.
pub open spec fn remainder_after(s: Seq<char>, c: char, k: nat) -> Option<Seq<char>>
    decreases k,
{
    if k == 0 {
        Some(s)
    } else {
        match remainder_after(s, c, (k - 1) as nat) {
            Some(r) => after_char(r, c),
            None => None,
        }
    }
}

/// The `k`-th piece (from 0) of `s` cut at `c`, as `str::split` yields it.
pub open spec fn nth_segment(s: Seq<char>, c: char, k: nat) -> Option<Seq<char>> {
    match remainder_after(s, c, k) {
        Some(r) => Some(before_char(r, c)),
        None => None,
    }
}

/// The number a version piece stands for.
pub open spec fn version_part(seg: Option<Seq<char>>) -> u32 {
    match seg {
        Some(p) => match parse_u32_spec(before_char(p, '-')) {
            Some(v) => v,
            None => 0,
        },
        None => 0,
    }
}

/// `(major, minor, patch)` of a version string.
pub open spec fn version_triple(s: Seq<char>) -> (u32, u32, u32) {
    (
        version_part(nth_segment(s, '.', 0)),
        version_part(nth_segment(s, '.', 1)),
        version_part(nth_segment(s, '.', 2)),
    )
}

/// Lexicographic "greater than" on version triples.
pub open spec fn triple_newer(a: (u32, u32, u32), b: (u32, u32, u32)) -> bool {
    a.0 > b.0 || (a.0 == b.0 && (a.1 > b.1 || (a.1 == b.1 && a.2 > b.2)))
}

/// Whether `latest` names a later release than `current`.
pub open spec fn newer_spec(latest: Seq<char>, current: Seq<char>) -> bool {
    triple_newer(version_triple(latest), version_triple(current))
}

/// Number of copies of `c` at the front of `s`.
pub open spec fn leading_count(s: Seq<char>, c: char) -> nat
    decreases s.len(),
{
    if s.len() > 0 && s[0] == c {
        1 + leading_count(s.drop_first(), c)
    } else {
        0
    }
}

/// `s` with every leading `c` removed, as `str::trim_start_matches` does.
pub open spec fn trim_leading(s: Seq<char>, c: char) -> Seq<char> {
    s.skip(leading_count(s, c) as int)
}

/// The two-line console notice announcing `latest` over `current`.
pub open spec fn notice_text(current: Seq<char>, latest: Seq<char>) -> Seq<char> {
    "[gmod-buttplug] update available: installed v"@ + current + ", latest v"@ + latest
        + "\n[gmod-buttplug]   "@ + RELEASES_PAGE@
}

/// The notice owed for a release tagged `tag` when `current` is installed.
pub open spec fn update_notice_spec(tag: Option<Seq<char>>, current: Seq<char>) -> Option<Seq<char>> {
    match tag {
        Some(t) => if newer_spec(trim_leading(t, 'v'), current) {
            Some(notice_text(current, trim_leading(t, 'v')))
        } else {
            None
        },
        None => None,
    }
}

// ---------------------------------------------------------------------------
// Lemmas
// ---------------------------------------------------------------------------

pub(crate) proof fn lemma_find_char_bound(s: Seq<char>, c: char)
    ensures
        find_char(s, c) <= s.len(),
        find_char(s, c) < s.len() ==> s[find_char(s, c) as int] == c,
        forall|j: int| 0 <= j < find_char(s, c) ==> s[j] != c,
    decreases s.len(),
{
    if s.len() > 0 && s[0] != c {
        lemma_find_char_bound(s.drop_first(), c);
        assert forall|j: int| 0 <= j < find_char(s, c) implies s[j] != c by {
            if j > 0 {
                assert(s[j] == s.drop_first()[j - 1]);
            }
        }
    }
}

pub(crate) proof fn lemma_find_char_is(s: Seq<char>, c: char, e: nat)
    requires
        e <= s.len(),
        e < s.len() ==> s[e as int] == c,
        forall|j: int| 0 <= j < e ==> s[j] != c,
    ensures
        find_char(s, c) == e,
    decreases s.len(),
{
    if s.len() > 0 && e > 0 {
        let t = s.drop_first();
        assert forall|j: int| 0 <= j < e - 1 implies t[j] != c by {
            assert(t[j] == s[j + 1]);
        }
        if e - 1 < t.len() {
            assert(t[e - 1] == s[e as int]);
        }
        lemma_find_char_is(t, c, (e - 1) as nat);
    }
}

proof fn lemma_digits_value_step(d: Seq<char>, i: int)
    requires
        0 <= i < d.len(),
    ensures
        digits_value(d.take(i + 1)) == digits_value(d.take(i)) * 10 + digit_value(d[i]),
{
    assert(d.take(i + 1).drop_last() =~= d.take(i));
}

proof fn lemma_leading_count(s: Seq<char>, c: char, e: nat)
    requires
        e <= s.len(),
        e < s.len() ==> s[e as int] != c,
        forall|j: int| 0 <= j < e ==> s[j] == c,
    ensures
        leading_count(s, c) == e,
    decreases s.len(),
{
    if s.len() > 0 && e > 0 {
        let t = s.drop_first();
        assert forall|j: int| 0 <= j < e - 1 implies t[j] == c by {
            assert(t[j] == s[j + 1]);
        }
        if e - 1 < t.len() {
            assert(t[e - 1] == s[e as int]);
        }
        lemma_leading_count(t, c, (e - 1) as nat);
    }
}


// ---------------------------------------------------------------------------
// Laws
// ---------------------------------------------------------------------------

/// No version is newer than itself.
pub proof fn law_newer_irreflexive(v: Seq<char>)
    ensures
        !newer_spec(v, v),
{
}

/// Of two versions, at most one is newer than the other.
pub proof fn law_newer_asymmetric(a: Seq<char>, b: Seq<char>)
    ensures
        newer_spec(a, b) ==> !newer_spec(b, a),
{
}

/// "Newer" is transitive.
pub proof fn law_newer_transitive(a: Seq<char>, b: Seq<char>, c: Seq<char>)
    ensures
        newer_spec(a, b) && newer_spec(b, c) ==> newer_spec(a, c),
{
}

/// Two versions that read as different triples are ordered one way or the
/// other; versions that read as the same triple are never newer than each
/// other.
pub proof fn law_newer_total(a: Seq<char>, b: Seq<char>)
    ensures
        version_triple(a) != version_triple(b) ==> newer_spec(a, b) || newer_spec(b, a),
        version_triple(a) == version_triple(b) ==> !newer_spec(a, b),
{
}

/// Missing pieces count as 0: a version with fewer than three pieces reads
/// as 0 in the places it lacks.
pub proof fn law_missing_parts_count_as_zero(v: Seq<char>)
    ensures
        remainder_after(v, '.', 1) is None ==> version_triple(v).1 == 0 && version_triple(v).2 == 0,
        remainder_after(v, '.', 2) is None ==> version_triple(v).2 == 0,
{
    assert(remainder_after(v, '.', 2) == match remainder_after(v, '.', 1) {
        Some(r) => after_char(r, '.'),
        None => None,
    });
}

proof fn lemma_find_concat(a: Seq<char>, b: Seq<char>, c: char)
    ensures
        find_char(a, c) < a.len() ==> find_char(a + b, c) == find_char(a, c),
        find_char(a, c) == a.len() ==> find_char(a + b, c) == a.len() + find_char(b, c),
{
    lemma_find_char_bound(a, c);
    lemma_find_char_bound(b, c);
    let ab = a + b;
    let fa = find_char(a, c);
    if fa < a.len() {
        assert forall|j: int| 0 <= j < fa implies ab[j] != c by {
            assert(ab[j] == a[j]);
        }
        assert(ab[fa as int] == a[fa as int]);
        lemma_find_char_is(ab, c, fa);
    } else {
        let e = a.len() + find_char(b, c);
        assert forall|j: int| 0 <= j < e implies ab[j] != c by {
            if j < a.len() {
                assert(ab[j] == a[j]);
            } else {
                assert(ab[j] == b[j - a.len()]);
            }
        }
        if e < ab.len() {
            assert(ab[e as int] == b[find_char(b, c) as int]);
        }
        lemma_find_char_is(ab, c, e);
    }
}

/// Extending a string whose first `c` is already present leaves the part
/// before it alone and extends the part after it.
proof fn lemma_cut_concat(r: Seq<char>, x: Seq<char>, c: char)
    requires
        after_char(r, c) is Some,
    ensures
        before_char(r + x, c) == before_char(r, c),
        after_char(r + x, c) == Some(after_char(r, c)->0 + x),
{
    lemma_find_char_bound(r, c);
    lemma_find_concat(r, x, c);
    let k = find_char(r, c);
    assert((r + x).take(k as int) =~= r.take(k as int));
    assert((r + x).skip(k + 1 as int) =~= r.skip(k + 1 as int) + x);
}

/// What is left after cutting keeps none of the characters `s` lacks.
proof fn lemma_remainder_lacks(s: Seq<char>, c: char, k: nat, d: char)
    requires
        forall|i: int| 0 <= i < s.len() ==> s[i] != d,
    ensures
        remainder_after(s, c, k) matches Some(r) ==> forall|i: int| 0 <= i < r.len() ==> r[i] != d,
    decreases k,
{
    if k > 0 {
        lemma_remainder_lacks(s, c, (k - 1) as nat, d);
        match remainder_after(s, c, (k - 1) as nat) {
            Some(r) => {
                lemma_find_char_bound(r, c);
                let f = find_char(r, c);
                if f < r.len() {
                    let q = r.skip(f + 1 as int);
                    assert forall|i: int| 0 <= i < q.len() implies q[i] != d by {
                        assert(q[i] == r[i + f + 1]);
                    }
                }
            },
            None => {},
        }
    }
}

/// A piece with no `c` in it is its own part before `c`.
proof fn lemma_before_absent(r: Seq<char>, c: char)
    requires
        forall|i: int| 0 <= i < r.len() ==> r[i] != c,
    ensures
        before_char(r, c) == r,
{
    lemma_find_char_is(r, c, r.len());
    assert(r.take(r.len() as int) =~= r);
}

/// A SemVer pre-release suffix is ignored: appending `-<anything>` to a
/// version with at least three pieces and no `-` of its own does not change
/// the triple it reads as.
pub proof fn law_prerelease_suffix_ignored(v: Seq<char>, suffix: Seq<char>)
    requires
        forall|i: int| 0 <= i < v.len() ==> v[i] != '-',
        remainder_after(v, '.', 2) is Some,
    ensures
        version_triple(v + seq!['-'] + suffix) == version_triple(v),
{
    let x = seq!['-'] + suffix;
    assert(v + seq!['-'] + suffix =~= v + x);
    let w = v + x;
    let r1 = remainder_after(v, '.', 1);
    let r2 = remainder_after(v, '.', 2);
    assert(remainder_after(v, '.', 0) == Some(v));
    assert(remainder_after(w, '.', 0) == Some(w));
    assert(r1 == after_char(v, '.'));
    assert(r1 is Some);
    assert(r2 == after_char(r1->0, '.'));
    lemma_cut_concat(v, x, '.');
    assert(remainder_after(w, '.', 1) == Some(r1->0 + x));
    lemma_cut_concat(r1->0, x, '.');
    assert(remainder_after(w, '.', 2) == Some(r2->0 + x));
    assert(nth_segment(w, '.', 0) == nth_segment(v, '.', 0));
    assert(nth_segment(w, '.', 1) == nth_segment(v, '.', 1));
    let r = r2->0;
    lemma_remainder_lacks(v, '.', 2, '-');
    if after_char(r, '.') is Some {
        lemma_cut_concat(r, x, '.');
        assert(nth_segment(w, '.', 2) == nth_segment(v, '.', 2));
    } else {
        lemma_find_char_bound(r, '.');
        lemma_find_char_bound(x, '.');
        lemma_find_concat(r, x, '.');
        assert(x[0] == '-');
        let fx = find_char(x, '.');
        assert(fx >= 1);
        let seg_w = before_char(r + x, '.');
        assert(seg_w =~= r + x.take(fx as int));
        assert forall|i: int| 0 <= i < r.len() implies r[i] != '.' by {
            lemma_find_char_bound(r, '.');
        }
        lemma_before_absent(r, '.');
        lemma_before_absent(r, '-');
        assert(seg_w[r.len() as int] == '-');
        assert forall|j: int| 0 <= j < r.len() implies seg_w[j] != '-' by {
            assert(seg_w[j] == r[j]);
        }
        lemma_find_char_is(seg_w, '-', r.len());
        assert(before_char(seg_w, '-') =~= r);
        assert(version_part(nth_segment(w, '.', 2)) == version_part(nth_segment(v, '.', 2)));
    }
}

// ---------------------------------------------------------------------------
// Implementation
// ---------------------------------------------------------------------------

/// Reads `cs[lo..hi]` the way `str::parse::<u32>` reads a string.
fn parse_u32_range(cs: &Vec<char>, lo: usize, hi: usize) -> (r: Option<u32>)
    requires
        lo <= hi <= cs@.len(),
    ensures
        r == parse_u32_spec(cs@.subrange(lo as int, hi as int)),
{
    let ghost s = cs@.subrange(lo as int, hi as int);
    let mut start = lo;
    if lo < hi && cs[lo] == '+' {
        start = lo + 1;
    }
    let ghost d = cs@.subrange(start as int, hi as int);
    assert(d =~= (if s.len() > 0 && s[0] == '+' {
        s.drop_first()
    } else {
        s
    }));
    if start == hi {
        return None;
    }
    let mut acc: u64 = 0;
    let mut i: usize = start;
    while i < hi
        invariant
            lo <= start < hi <= cs@.len(),
            start <= i <= hi,
            d == cs@.subrange(start as int, hi as int),
            s == cs@.subrange(lo as int, hi as int),
            d == (if s.len() > 0 && s[0] == '+' {
                s.drop_first()
            } else {
                s
            }),
            all_digits(d.take(i - start)),
            digits_value(d.take(i - start)) <= u32::MAX ==> acc == digits_value(
                d.take(i - start),
            ),
            digits_value(d.take(i - start)) > u32::MAX ==> acc == 0x1_0000_0000,
        decreases hi - i,
    {
        let c = cs[i];
        let ghost k = i - start;
        assert(d[k] == c);
        if !('0' <= c && c <= '9') {
            assert(!is_digit(d[k]));
            assert(!all_digits(d));
            assert(parse_u32_spec(s) is None);
            return None;
        }
        let dv: u64 = ((c as u32) - ('0' as u32)) as u64;
        proof {
            lemma_digits_value_step(d, k);
            assert(all_digits(d.take(k + 1))) by {
                assert forall|j: int| 0 <= j < k + 1 implies is_digit(#[trigger] d.take(k + 1)[j]) by {
                    if j < k {
                        assert(d.take(k + 1)[j] == d.take(k)[j]);
                    }
                }
            }
        }
        if acc > 0xFFFF_FFFF {
            acc = 0x1_0000_0000;
        } else {
            let t = acc * 10 + dv;
            if t > 0xFFFF_FFFF {
                acc = 0x1_0000_0000;
            } else {
                acc = t;
            }
        }
        i = i + 1;
    }
    assert(d.take(i - start) =~= d);
    if acc > 0xFFFF_FFFF {
        None
    } else {
        Some(acc as u32)
    }
}

/// Index of the first `c` in `cs[from..hi]`, or `hi` when there is none.
pub(crate) fn find_in(cs: &Vec<char>, from: usize, hi: usize, c: char) -> (r: usize)
    requires
        from <= hi <= cs@.len(),
    ensures
        r == from + find_char(cs@.subrange(from as int, hi as int), c),
        from <= r <= hi,
{
    let ghost s = cs@.subrange(from as int, hi as int);
    let mut i = from;
    while i < hi
        invariant
            from <= i <= hi <= cs@.len(),
            s == cs@.subrange(from as int, hi as int),
            forall|j: int| 0 <= j < i - from ==> s[j] != c,
        decreases hi - i,
    {
        if cs[i] == c {
            proof {
                lemma_find_char_is(s, c, (i - from) as nat);
            }
            return i;
        }
        i = i + 1;
    }
    proof {
        lemma_find_char_is(s, c, (i - from) as nat);
    }
    i
}

/// What remains of `cs` from position `p`, if anything remains.
spec fn rest_of(cs: Seq<char>, p: Option<usize>) -> Option<Seq<char>> {
    match p {
        Some(q) => Some(cs.skip(q as int)),
        None => None,
    }
}

/// Reads the next version piece of `cs` from position `rest`, and where the
/// piece after it starts.
fn next_part(cs: &Vec<char>, rest: Option<usize>) -> (r: (u32, Option<usize>))
    requires
        rest matches Some(p) ==> p <= cs@.len(),
    ensures
        r.0 == version_part(
            match rest_of(cs@, rest) {
                Some(t) => Some(before_char(t, '.')),
                None => None,
            },
        ),
        rest_of(cs@, r.1) == (match rest_of(cs@, rest) {
            Some(t) => after_char(t, '.'),
            None => None,
        }),
        r.1 matches Some(q) ==> q <= cs@.len(),
{
    match rest {
        None => (0, None),
        Some(p) => {
            let n = cs.len();
            let ghost t = cs@.skip(p as int);
            assert(t =~= cs@.subrange(p as int, n as int));
            let e = find_in(cs, p, n, '.');
            let ghost seg = before_char(t, '.');
            assert(seg =~= cs@.subrange(p as int, e as int));
            let f = find_in(cs, p, e, '-');
            assert(before_char(seg, '-') =~= cs@.subrange(p as int, f as int));
            let v = match parse_u32_range(cs, p, f) {
                Some(v) => v,
                None => 0,
            };
            if e < n {
                assert(cs@.skip(e + 1) =~= t.skip(e - p + 1));
                (v, Some(e + 1))
            } else {
                (v, None)
            }
        },
    }
}

/// Parses `major.minor.patch` to a tuple for lexicographic comparison.
/// Missing or unparseable pieces count as 0; a `-` suffix on a piece is
/// ignored.
pub fn parse_version(s: &str) -> (r: (u32, u32, u32))
    ensures
        r == version_triple(s@),
{
    let cs = chars_of(s);
    assert(cs@.skip(0) =~= s@);
    let (a, r1) = next_part(&cs, Some(0));
    let (b, r2) = next_part(&cs, r1);
    let (c, _r3) = next_part(&cs, r2);
    assert(remainder_after(s@, '.', 0) == rest_of(cs@, Some(0)));
    assert(remainder_after(s@, '.', 1) == rest_of(cs@, r1));
    assert(remainder_after(s@, '.', 2) == rest_of(cs@, r2));
    (a, b, c)
}

/// Whether `latest` is a strictly higher version than `current`.
pub fn is_newer(latest: &str, current: &str) -> (r: bool)
    ensures
        r == newer_spec(latest@, current@),
{
    let l = parse_version(latest);
    let c = parse_version(current);
    l.0 > c.0 || (l.0 == c.0 && (l.1 > c.1 || (l.1 == c.1 && l.2 > c.2)))
}

/// `s` without its leading `v`s.
fn trim_leading_v(s: &str) -> (r: &str)
    ensures
        r@ == trim_leading(s@, 'v'),
{
    let cs = chars_of(s);
    let mut i: usize = 0;
    while i < cs.len() && cs[i] == 'v'
        invariant
            cs@ == s@,
            i <= cs@.len(),
            forall|j: int| 0 <= j < i ==> cs@[j] == 'v',
        decreases cs@.len() - i,
    {
        i = i + 1;
    }
    proof {
        lemma_leading_count(s@, 'v', i as nat);
    }
    s.substring_char(i, cs.len())
}

/// The console notice to print when the release tagged `latest_tag` (as the
/// releases API reports it, possibly with a leading `v`) is newer than the
/// installed `current`; `None` when there is no tag or nothing newer.
pub fn update_notice(latest_tag: Option<&str>, current: &str) -> (r: Option<String>)
    ensures
        r matches Some(m) ==> update_notice_spec(opt_view(latest_tag), current@) == Some(m@),
        r is None ==> update_notice_spec(opt_view(latest_tag), current@) is None,
{
    match latest_tag {
        None => None,
        Some(tag) => {
            let latest = trim_leading_v(tag);
            if is_newer(latest, current) {
                let mut m = String::from_str("[gmod-buttplug] update available: installed v");
                m.append(current);
                m.append(", latest v");
                m.append(latest);
                m.append("\n[gmod-buttplug]   ");
                m.append(RELEASES_PAGE);
                Some(m)
            } else {
                None
            }
        },
    }
}

/// The `tag_name` string of the JSON object that the releases API sent as
/// `body`, if `body` is JSON whose top level is an object with a string
/// `tag_name`.
pub uninterp spec fn release_tag_of(body: Seq<u8>) -> Option<Seq<char>>;

/// `serde_json::from_slice::<serde_json::Value>(body)`, then
/// `Value::get("tag_name")` and `Value::as_str` on what it finds.
///
/// Claims only that the tag depends on the body bytes alone: parsing reads
/// no other input and a duplicate key resolves the same way every time.
/// Which bodies give which tag is not stated.
#[verifier::external_body]
fn release_tag(body: &[u8]) -> (r: Option<String>)
    ensures
        match r {
            Some(t) => release_tag_of(body@) == Some(t@),
            None => release_tag_of(body@) is None,
        },
{
    match serde_json::from_slice::<serde_json::Value>(body) {
        Ok(v) => v.get("tag_name").and_then(|t| t.as_str()).map(|t| t.to_string()),
        Err(_) => None,
    }
}

/// The console notice to print for the releases API's reply `body`, when it
/// names a release newer than the installed `current`; `None` when the body
/// is not JSON, has no string `tag_name`, or names nothing newer.
pub fn update_notice_for_release(body: &[u8], current: &str) -> (r: Option<String>)
    ensures
        r matches Some(m) ==> update_notice_spec(release_tag_of(body@), current@) == Some(m@),
        r is None ==> update_notice_spec(release_tag_of(body@), current@) is None,
{
    let tag = release_tag(body);
    match tag {
        Some(t) => update_notice(Some(t.as_str()), current),
        None => update_notice(None, current),
    }
}

/// The view of an optional string slice.
pub open spec fn opt_view(s: Option<&str>) -> Option<Seq<char>> {
    match s {
        Some(t) => Some(t@),
        None => None,
    }
}

} // verus!
