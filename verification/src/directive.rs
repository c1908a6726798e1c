//! Which filter directives the `EnvFilter` parser reads without panicking.
//!
//! The parser walks each directive with its surrounding whitespace trimmed,
//! and at certain characters slices the *untrimmed* directive at the byte
//! offsets of that walk. When the directive starts with whitespace those
//! offsets are shifted, and a slice that lands inside a multi-byte character
//! panics. [`directive_safe`] follows the walk and holds when every slice
//! lands on a character boundary.

use vstd::prelude::*;

verus! {

// ---------------------------------------------------------------------------
// Characters and their UTF-8 sizes
// ---------------------------------------------------------------------------

/// `char::is_whitespace`: the Unicode `White_Space` characters.
pub open spec fn is_whitespace(c: char) -> bool {
    ('\u{9}' <= c && c <= '\u{d}') || c == ' ' || c == '\u{85}' || c == '\u{a0}' || c == '\u{1680}'
        || ('\u{2000}' <= c && c <= '\u{200a}') || c == '\u{2028}' || c == '\u{2029}' || c
        == '\u{202f}' || c == '\u{205f}' || c == '\u{3000}'
}

/// Whether `char::is_alphanumeric` holds of `c` (Unicode `Alphabetic` or
/// `Numeric`).
pub uninterp spec fn char_alphanumeric(c: char) -> bool;

/// `char::is_alphanumeric`.
///
/// Claims only that the answer depends on the character alone.
#[verifier::external_body]
fn is_alphanumeric(c: char) -> (r: bool)
    ensures
        r == char_alphanumeric(c),
{
    c.is_alphanumeric()
}

pub(crate) fn is_whitespace_char(c: char) -> (r: bool)
    ensures
        r == is_whitespace(c),
{
    ('\u{9}' <= c && c <= '\u{d}') || c == ' ' || c == '\u{85}' || c == '\u{a0}' || c == '\u{1680}'
        || ('\u{2000}' <= c && c <= '\u{200a}') || c == '\u{2028}' || c == '\u{2029}' || c
        == '\u{202f}' || c == '\u{205f}' || c == '\u{3000}'
}

/// The number of bytes UTF-8 spends on `c`.
pub open spec fn utf8_width(c: char) -> nat {
    if (c as u32) < 0x80 {
        1
    } else if (c as u32) < 0x800 {
        2
    } else if (c as u32) < 0x10000 {
        3
    } else {
        4
    }
}

/// The number of bytes UTF-8 spends on `s`.
pub open spec fn utf8_size(s: Seq<char>) -> nat
    decreases s.len(),
{
    if s.len() == 0 {
        0
    } else {
        utf8_size(s.drop_last()) + utf8_width(s.last())
    }
}

/// Byte offset `b` falls between two characters of `s` (or at either end).
pub open spec fn is_char_boundary_of(s: Seq<char>, b: int) -> bool {
    exists|j: int| 0 <= j <= s.len() && utf8_size(#[trigger] s.take(j)) == b
}

/// Number of whitespace characters at the front of `s`.
pub open spec fn leading_ws(s: Seq<char>) -> nat
    decreases s.len(),
{
    if s.len() > 0 && is_whitespace(s[0]) {
        1 + leading_ws(s.drop_first())
    } else {
        0
    }
}

/// Number of whitespace characters at the back of `s`.
pub open spec fn trailing_ws(s: Seq<char>) -> nat
    decreases s.len(),
{
    if s.len() > 0 && is_whitespace(s.last()) {
        1 + trailing_ws(s.drop_last())
    } else {
        0
    }
}

/// `str::trim`: `s` without its leading and trailing whitespace.
pub open spec fn trimmed(s: Seq<char>) -> Seq<char> {
    let r = s.skip(leading_ws(s) as int);
    r.take(r.len() - trailing_ws(r))
}

// ---------------------------------------------------------------------------
// The parser's walk
// ---------------------------------------------------------------------------

/// Where the parser's walk over a trimmed directive stands; positions are
/// character indices into the trimmed directive.
pub enum Walk {
    Start,
    LevelOrTarget { start: usize },
    Span { start: usize },
    Field { start: usize },
    Fields,
    Target,
    Level { start: usize },
    Complete,
    /// The parser has returned an error: the walk is over.
    Failed,
}

/// One step of the walk: the next state and the positions the parser slices
/// the untrimmed directive at (a range `a..b`, or `a..` when only `a` is
/// given).
pub struct Step {
    pub next: Walk,
    pub cut_a: Option<usize>,
    pub cut_b: Option<usize>,
}

/// The parser's reaction to character `c` at position `k` in state `st`. A
/// field that is not empty is taken to parse; the field parser can only
/// fail, not panic, so this leaves no panic out.
pub open spec fn step_spec(st: Walk, c: char, k: usize) -> Step {
    let k1 = (k + 1) as usize;
    match st {
        Walk::Start => if c == '[' {
            Step { next: Walk::Span { start: k1 }, cut_a: None, cut_b: None }
        } else if c == '-' || c == ':' || c == '_' || char_alphanumeric(c) {
            Step { next: Walk::LevelOrTarget { start: k }, cut_a: None, cut_b: None }
        } else {
            Step { next: Walk::Failed, cut_a: None, cut_b: None }
        },
        Walk::LevelOrTarget { start } => if c == '=' {
            Step { next: Walk::Level { start: k1 }, cut_a: Some(start), cut_b: Some(k) }
        } else if c == '[' {
            Step { next: Walk::Span { start: k1 }, cut_a: Some(start), cut_b: Some(k) }
        } else if c == ',' {
            Step { next: Walk::Complete, cut_a: Some(start), cut_b: None }
        } else {
            Step { next: st, cut_a: None, cut_b: None }
        },
        Walk::Target => if c == '=' {
            Step { next: Walk::Level { start: k1 }, cut_a: None, cut_b: None }
        } else {
            Step { next: Walk::Failed, cut_a: None, cut_b: None }
        },
        Walk::Span { start } => if c == ']' {
            Step { next: Walk::Target, cut_a: Some(start), cut_b: Some(k) }
        } else if c == '{' {
            Step { next: Walk::Field { start: k1 }, cut_a: Some(start), cut_b: Some(k) }
        } else {
            Step { next: st, cut_a: None, cut_b: None }
        },
        Walk::Field { start } => if c == '}' {
            Step {
                next: if start == k {
                    Walk::Failed
                } else {
                    Walk::Fields
                },
                cut_a: Some(start),
                cut_b: Some(k),
            }
        } else if c == ',' {
            Step {
                next: if start == k {
                    Walk::Failed
                } else {
                    Walk::Field { start: k1 }
                },
                cut_a: Some(start),
                cut_b: Some(k),
            }
        } else {
            Step { next: st, cut_a: None, cut_b: None }
        },
        Walk::Fields => if c == ']' {
            Step { next: Walk::Target, cut_a: None, cut_b: None }
        } else {
            Step { next: Walk::Failed, cut_a: None, cut_b: None }
        },
        Walk::Level { start } => if c == ',' {
            Step { next: Walk::Complete, cut_a: Some(start), cut_b: Some(k) }
        } else {
            Step { next: st, cut_a: None, cut_b: None }
        },
        Walk::Complete => Step { next: Walk::Failed, cut_a: None, cut_b: None },
        Walk::Failed => Step { next: Walk::Failed, cut_a: None, cut_b: None },
    }
}

/// The positions a state holds do not lie past position `k`.
pub open spec fn positions_within(st: Walk, k: nat) -> bool {
    match st {
        Walk::LevelOrTarget { start } => start <= k,
        Walk::Span { start } => start <= k,
        Walk::Field { start } => start <= k,
        Walk::Level { start } => start <= k,
        _ => true,
    }
}

/// Where the parser slices once the walk has reached the end in state `st`.
pub open spec fn end_cut(st: Walk) -> Option<usize> {
    match st {
        Walk::LevelOrTarget { start } => Some(start),
        Walk::Level { start } => Some(start),
        _ => None,
    }
}

/// Slicing the untrimmed directive `d` at the offset of position `p` of its
/// trimmed form `t` lands on a character boundary.
pub open spec fn cut_ok(d: Seq<char>, t: Seq<char>, p: Option<usize>) -> bool {
    match p {
        Some(q) => is_char_boundary_of(d, utf8_size(t.take(q as int)) as int),
        None => true,
    }
}

/// Every slice of the walk over `t` from position `k` in state `st` lands on
/// a character boundary of `d`.
pub open spec fn walk_ok(d: Seq<char>, t: Seq<char>, st: Walk, k: nat) -> bool
    decreases t.len() - k,
{
    if k >= t.len() {
        cut_ok(d, t, end_cut(st))
    } else if st is Failed {
        true
    } else {
        let s = step_spec(st, t[k as int], k as usize);
        cut_ok(d, t, s.cut_a) && cut_ok(d, t, s.cut_b) && walk_ok(d, t, s.next, k + 1)
    }
}

/// The parser reads directive `d` without slicing inside a character.
pub open spec fn directive_safe(d: Seq<char>) -> bool {
    walk_ok(d, trimmed(d), Walk::Start, 0)
}

// ---------------------------------------------------------------------------
// Lemmas
// ---------------------------------------------------------------------------

proof fn lemma_utf8_size_concat(a: Seq<char>, b: Seq<char>)
    ensures
        utf8_size(a + b) == utf8_size(a) + utf8_size(b),
    decreases b.len(),
{
    if b.len() > 0 {
        assert((a + b).drop_last() =~= a + b.drop_last());
        lemma_utf8_size_concat(a, b.drop_last());
    } else {
        assert(a + b =~= a);
    }
}

proof fn lemma_utf8_size_take_step(s: Seq<char>, j: int)
    requires
        0 <= j < s.len(),
    ensures
        utf8_size(s.take(j + 1)) == utf8_size(s.take(j)) + utf8_width(s[j]),
{
    assert(s.take(j + 1).drop_last() =~= s.take(j));
}

proof fn lemma_leading_ws_is(s: Seq<char>, e: nat)
    requires
        e <= s.len(),
        e < s.len() ==> !is_whitespace(s[e as int]),
        forall|j: int| 0 <= j < e ==> is_whitespace(s[j]),
    ensures
        leading_ws(s) == e,
    decreases s.len(),
{
    if s.len() > 0 && e > 0 {
        let t = s.drop_first();
        assert forall|j: int| 0 <= j < e - 1 implies is_whitespace(t[j]) by {
            assert(t[j] == s[j + 1]);
        }
        if e - 1 < t.len() {
            assert(t[e - 1] == s[e as int]);
        }
        lemma_leading_ws_is(t, (e - 1) as nat);
    }
}

proof fn lemma_trailing_ws_is(s: Seq<char>, e: nat)
    requires
        e <= s.len(),
        e < s.len() ==> !is_whitespace(s[s.len() - 1 - e]),
        forall|j: int| s.len() - e <= j < s.len() ==> is_whitespace(s[j]),
    ensures
        trailing_ws(s) == e,
    decreases s.len(),
{
    if s.len() > 0 && e > 0 {
        let t = s.drop_last();
        assert forall|j: int| t.len() - (e - 1) <= j < t.len() implies is_whitespace(t[j]) by {
            assert(t[j] == s[j]);
        }
        if e - 1 < t.len() {
            assert(t[t.len() - 1 - (e - 1)] == s[s.len() - 1 - e]);
        }
        lemma_trailing_ws_is(t, (e - 1) as nat);
    }
}

proof fn lemma_trailing_ws_bound(s: Seq<char>)
    ensures
        trailing_ws(s) <= s.len(),
    decreases s.len(),
{
    if s.len() > 0 && is_whitespace(s.last()) {
        lemma_trailing_ws_bound(s.drop_last());
    }
}

proof fn lemma_walk_ok_prefix(d: Seq<char>, t: Seq<char>, st: Walk, k: nat)
    requires
        t.len() <= d.len(),
        t == d.take(t.len() as int),
        t.len() < usize::MAX,
        k <= t.len(),
        positions_within(st, k),
    ensures
        walk_ok(d, t, st, k),
    decreases t.len() - k,
{
    assert forall|q: usize| q <= t.len() implies cut_ok(d, t, Some(q)) by {
        assert(t.take(q as int) =~= d.take(q as int));
        assert(0 <= q <= d.len() && utf8_size(d.take(q as int)) == utf8_size(t.take(q as int)));
    }
    if k < t.len() && !(st is Failed) {
        let s = step_spec(st, t[k as int], k as usize);
        lemma_walk_ok_prefix(d, t, s.next, k + 1);
    }
}

/// A directive that does not start with whitespace is always read without
/// panicking: its trimmed form is a prefix of it, so every offset of the
/// walk is one of its own character boundaries.
pub proof fn law_unindented_directive_safe(d: Seq<char>)
    requires
        d.len() < usize::MAX,
        d.len() == 0 || !is_whitespace(d[0]),
    ensures
        directive_safe(d),
{
    lemma_leading_ws_is(d, 0);
    assert(d.skip(0) =~= d);
    lemma_trailing_ws_bound(d);
    let t = trimmed(d);
    assert(t =~= d.take(t.len() as int));
    lemma_walk_ok_prefix(d, t, Walk::Start, 0);
}

// ---------------------------------------------------------------------------
// Implementation
// ---------------------------------------------------------------------------

/// One step of the walk; see [`step_spec`].
fn step(st: Walk, c: char, k: usize) -> (r: Step)
    requires
        k < usize::MAX,
    ensures
        r == step_spec(st, c, k),
{
    let k1 = k + 1;
    match st {
        Walk::Start => if c == '[' {
            Step { next: Walk::Span { start: k1 }, cut_a: None, cut_b: None }
        } else if c == '-' || c == ':' || c == '_' || is_alphanumeric(c) {
            Step { next: Walk::LevelOrTarget { start: k }, cut_a: None, cut_b: None }
        } else {
            Step { next: Walk::Failed, cut_a: None, cut_b: None }
        },
        Walk::LevelOrTarget { start } => if c == '=' {
            Step { next: Walk::Level { start: k1 }, cut_a: Some(start), cut_b: Some(k) }
        } else if c == '[' {
            Step { next: Walk::Span { start: k1 }, cut_a: Some(start), cut_b: Some(k) }
        } else if c == ',' {
            Step { next: Walk::Complete, cut_a: Some(start), cut_b: None }
        } else {
            Step { next: Walk::LevelOrTarget { start }, cut_a: None, cut_b: None }
        },
        Walk::Target => if c == '=' {
            Step { next: Walk::Level { start: k1 }, cut_a: None, cut_b: None }
        } else {
            Step { next: Walk::Failed, cut_a: None, cut_b: None }
        },
        Walk::Span { start } => if c == ']' {
            Step { next: Walk::Target, cut_a: Some(start), cut_b: Some(k) }
        } else if c == '{' {
            Step { next: Walk::Field { start: k1 }, cut_a: Some(start), cut_b: Some(k) }
        } else {
            Step { next: Walk::Span { start }, cut_a: None, cut_b: None }
        },
        Walk::Field { start } => if c == '}' {
            let next = if start == k {
                Walk::Failed
            } else {
                Walk::Fields
            };
            Step { next, cut_a: Some(start), cut_b: Some(k) }
        } else if c == ',' {
            let next = if start == k {
                Walk::Failed
            } else {
                Walk::Field { start: k1 }
            };
            Step { next, cut_a: Some(start), cut_b: Some(k) }
        } else {
            Step { next: Walk::Field { start }, cut_a: None, cut_b: None }
        },
        Walk::Fields => if c == ']' {
            Step { next: Walk::Target, cut_a: None, cut_b: None }
        } else {
            Step { next: Walk::Failed, cut_a: None, cut_b: None }
        },
        Walk::Level { start } => if c == ',' {
            Step { next: Walk::Complete, cut_a: Some(start), cut_b: Some(k) }
        } else {
            Step { next: Walk::Level { start }, cut_a: None, cut_b: None }
        },
        Walk::Complete => Step { next: Walk::Failed, cut_a: None, cut_b: None },
        Walk::Failed => Step { next: Walk::Failed, cut_a: None, cut_b: None },
    }
}

/// Whether byte offset `o` is one of the prefix sizes `pb`.
fn is_listed(pb: &Vec<u128>, o: u128) -> (r: bool)
    ensures
        r == exists|j: int| 0 <= j < pb@.len() && pb@[j] == o,
{
    let mut j: usize = 0;
    while j < pb.len()
        invariant
            j <= pb@.len(),
            forall|i: int| 0 <= i < j ==> pb@[i] != o,
        decreases pb@.len() - j,
    {
        if pb[j] == o {
            return true;
        }
        j = j + 1;
    }
    false
}

/// Whether `cs[lo..hi]` is a [`directive_safe`] directive.
pub(crate) fn directive_safe_at(cs: &Vec<char>, lo: usize, hi: usize) -> (r: bool)
    requires
        lo <= hi <= cs@.len(),
    ensures
        r == directive_safe(cs@.subrange(lo as int, hi as int)),
{
    let ghost d = cs@.subrange(lo as int, hi as int);
    let n = hi - lo;
    // Byte sizes of the prefixes of `d`.
    let mut pb: Vec<u128> = Vec::new();
    pb.push(0);
    assert(d.take(0) =~= Seq::<char>::empty());
    let mut j: usize = 0;
    while j < n
        invariant
            n == hi - lo,
            lo <= hi <= cs@.len(),
            d == cs@.subrange(lo as int, hi as int),
            j <= n,
            pb@.len() == j + 1,
            forall|i: int| 0 <= i <= j ==> pb@[i] == utf8_size(#[trigger] d.take(i)),
            forall|i: int| 0 <= i <= j ==> pb@[i] <= 4 * i,
        decreases n - j,
    {
        let c = cs[lo + j];
        assert(d[j as int] == c);
        proof {
            lemma_utf8_size_take_step(d, j as int);
        }
        let w: u128 = if (c as u32) < 0x80 {
            1
        } else if (c as u32) < 0x800 {
            2
        } else if (c as u32) < 0x10000 {
            3
        } else {
            4
        };
        let prev = pb[j];
        pb.push(prev + w);
        j = j + 1;
    }
    // Leading whitespace.
    let mut l: usize = 0;
    while l < n && is_whitespace_char(cs[lo + l])
        invariant
            n == hi - lo,
            lo <= hi <= cs@.len(),
            d == cs@.subrange(lo as int, hi as int),
            l <= n,
            forall|i: int| 0 <= i < l ==> is_whitespace(d[i]),
        decreases n - l,
    {
        l = l + 1;
    }
    proof {
        lemma_leading_ws_is(d, l as nat);
    }
    let ghost rest = d.skip(l as int);
    // Trailing whitespace of what follows.
    let mut e: usize = n;
    while e > l && is_whitespace_char(cs[lo + e - 1])
        invariant
            n == hi - lo,
            lo <= hi <= cs@.len(),
            d == cs@.subrange(lo as int, hi as int),
            rest == d.skip(l as int),
            l <= e <= n,
            forall|i: int| e <= i < n ==> is_whitespace(d[i]),
        decreases e - l,
    {
        e = e - 1;
    }
    proof {
        assert forall|i: int| rest.len() - (n - e) <= i < rest.len() implies is_whitespace(rest[i]) by {
            assert(rest[i] == d[i + l]);
        }
        if n - e < rest.len() {
            assert(rest[rest.len() - 1 - (n - e)] == d[e - 1]);
        }
        lemma_trailing_ws_is(rest, (n - e) as nat);
    }
    let ghost t = trimmed(d);
    assert(t =~= d.subrange(l as int, e as int));
    let m = e - l;
    let base = pb[l];
    let mut st = Walk::Start;
    let mut k: usize = 0;
    while k < m
        invariant
            n == hi - lo,
            lo <= hi <= cs@.len(),
            d == cs@.subrange(lo as int, hi as int),
            l <= e <= n,
            m == e - l,
            t == d.subrange(l as int, e as int),
            pb@.len() == n + 1,
            forall|i: int| 0 <= i <= n ==> pb@[i] == utf8_size(#[trigger] d.take(i)),
            base == pb@[l as int],
            k <= m,
            positions_within(st, k as nat),
            directive_safe(d) == walk_ok(d, t, st, k as nat),
        decreases m - k,
    {
        if let Walk::Failed = st {
            return true;
        }
        let c = cs[lo + l + k];
        assert(t[k as int] == c);
        let s = step(st, c, k);
        let a_ok = cut_at(&pb, base, l, e, s.cut_a, Ghost(d), Ghost(t));
        if !a_ok {
            return false;
        }
        let b_ok = cut_at(&pb, base, l, e, s.cut_b, Ghost(d), Ghost(t));
        if !b_ok {
            return false;
        }
        st = s.next;
        k = k + 1;
    }
    let end = match st {
        Walk::LevelOrTarget { start } => Some(start),
        Walk::Level { start } => Some(start),
        _ => None,
    };
    cut_at(&pb, base, l, e, end, Ghost(d), Ghost(t))
}

/// Whether position `p` of the trimmed directive `t = d[l..e]` lies at a
/// character boundary of `d`; see [`cut_ok`].
fn cut_at(
    pb: &Vec<u128>,
    base: u128,
    l: usize,
    e: usize,
    p: Option<usize>,
    Ghost(d): Ghost<Seq<char>>,
    Ghost(t): Ghost<Seq<char>>,
) -> (r: bool)
    requires
        l <= e <= d.len(),
        pb@.len() == d.len() + 1,
        forall|i: int| 0 <= i <= d.len() ==> pb@[i] == utf8_size(#[trigger] d.take(i)),
        base == pb@[l as int],
        t == d.subrange(l as int, e as int),
        p matches Some(q) ==> q <= e - l,
    ensures
        r == cut_ok(d, t, p),
{
    match p {
        None => true,
        Some(q) => {
            proof {
                assert(d.take(l + q) =~= d.take(l as int) + t.take(q as int));
                lemma_utf8_size_concat(d.take(l as int), t.take(q as int));
            }
            let o = pb[l + q] - base;
            let found = is_listed(pb, o);
            proof {
                if found {
                    let j = choose|j: int| 0 <= j < pb@.len() && pb@[j] == o;
                    assert(utf8_size(d.take(j)) == o);
                } else {
                    assert forall|j: int| 0 <= j <= d.len() implies utf8_size(#[trigger] d.take(j)) != o by {
                        assert(pb@[j] != o);
                    }
                }
            }
            found
        },
    }
}

} // verus!
