//! Reading a crate's resolved version out of a `Cargo.lock` text, for the
//! module-load banner, without a TOML parser.
//!
//! The lock is cut at each `[[package]]`; the first piece that mentions
//! `name = "<crate>"` and holds a line starting with `version = "` gives the
//! text between that opening quote and the next one.

use vstd::prelude::*;
use vstd::string::*;

use crate::text::{chars_of, has_prefix};
use crate::version::{after_char, before_char, find_char, find_in};

verus! {

/// `pat` occurs in `s` at position `j`.
pub open spec fn occurs_at(s: Seq<char>, pat: Seq<char>, j: int) -> bool {
    0 <= j && j + pat.len() <= s.len() && s.subrange(j, j + pat.len()) == pat
}

/// Position of the first occurrence of `pat` in `s`, as `str::find` gives it.
pub open spec fn sub_index(s: Seq<char>, pat: Seq<char>) -> Option<nat>
    decreases s.len(),
{
    if pat.len() > s.len() {
        None
    } else if s.take(pat.len() as int) == pat {
        Some(0)
    } else if s.len() == 0 {
        None
    } else {
        match sub_index(s.drop_first(), pat) {
            Some(k) => Some(k + 1),
            None => None,
        }
    }
}

/// The line `name = "<crate_name>"` that marks a crate's package block.
pub open spec fn name_line(crate_name: Seq<char>) -> Seq<char> {
    "name = \""@ + crate_name + "\""@
}

/// The version a single line declares, if it starts with `version = "` and
/// closes the quote.
pub open spec fn version_of_line(line: Seq<char>) -> Option<Seq<char>> {
    let p = "version = \""@;
    if has_prefix(line, p) {
        let rest = line.skip(p.len() as int);
        let k = find_char(rest, '"');
        if k < rest.len() {
            Some(rest.take(k as int))
        } else {
            None
        }
    } else {
        None
    }
}

/// The version of the first line of `block` that declares one.
pub open spec fn first_version(block: Seq<char>) -> Option<Seq<char>>
    decreases block.len(),
{
    match version_of_line(before_char(block, '\n')) {
        Some(v) => Some(v),
        None => match after_char(block, '\n') {
            Some(rest) => first_version(rest),
            None => None,
        },
    }
}

/// The version a package block gives for the crate whose name line is `name`.
pub open spec fn block_version(block: Seq<char>, name: Seq<char>) -> Option<Seq<char>> {
    if sub_index(block, name) is Some {
        first_version(block)
    } else {
        None
    }
}

/// The version the first package block of `lock` that names the crate gives.
pub open spec fn lock_version(lock: Seq<char>, name: Seq<char>) -> Option<Seq<char>>
    decreases lock.len(),
{
    let sep = "[[package]]"@;
    match sub_index(lock, sep) {
        Some(k) => match block_version(lock.take(k as int), name) {
            Some(v) => Some(v),
            None => {
                proof {
                    reveal_strlit("[[package]]");
                    lemma_sub_index_bound(lock, sep);
                }
                lock_version(lock.skip(k + sep.len() as int), name)
            },
        },
        None => block_version(lock, name),
    }
}

pub open spec fn opt_string_view(o: Option<String>) -> Option<Seq<char>> {
    match o {
        Some(s) => Some(s@),
        None => None,
    }
}

// ---------------------------------------------------------------------------
// Lemmas
// ---------------------------------------------------------------------------

/// Where `sub_index` finds `pat`, `pat` occurs.
pub proof fn lemma_sub_index_bound(s: Seq<char>, pat: Seq<char>)
    ensures
        sub_index(s, pat) matches Some(k) ==> occurs_at(s, pat, k as int),
    decreases s.len(),
{
    if pat.len() <= s.len() && s.take(pat.len() as int) != pat && s.len() > 0 {
        let t = s.drop_first();
        lemma_sub_index_bound(t, pat);
        if let Some(k) = sub_index(t, pat) {
            assert(s.subrange(k + 1 as int, k + 1 + pat.len() as int) =~= t.subrange(k as int, k + pat.len() as int));
        }
    } else if pat.len() <= s.len() && s.take(pat.len() as int) == pat {
        assert(s.subrange(0, pat.len() as int) =~= s.take(pat.len() as int));
    }
}

/// `sub_index` is the first position where `pat` occurs.
proof fn lemma_sub_index_is(s: Seq<char>, pat: Seq<char>, k: nat)
    requires
        occurs_at(s, pat, k as int),
        forall|j: int| 0 <= j < k ==> !occurs_at(s, pat, j),
    ensures
        sub_index(s, pat) == Some(k),
    decreases s.len(),
{
    if k == 0 {
        assert(s.take(pat.len() as int) =~= s.subrange(0, pat.len() as int));
    } else {
        assert(!occurs_at(s, pat, 0));
        assert(s.take(pat.len() as int) =~= s.subrange(0, pat.len() as int));
        let t = s.drop_first();
        assert(t.subrange(k - 1, k - 1 + pat.len()) =~= s.subrange(k as int, k + pat.len() as int));
        assert forall|j: int| 0 <= j < k - 1 implies !occurs_at(t, pat, j) by {
            if occurs_at(t, pat, j) {
                assert(s.subrange(j + 1, j + 1 + pat.len()) =~= t.subrange(j, j + pat.len()));
                assert(occurs_at(s, pat, j + 1));
            }
        }
        lemma_sub_index_is(t, pat, (k - 1) as nat);
    }
}

/// `sub_index` is `None` when `pat` occurs nowhere.
proof fn lemma_sub_index_none(s: Seq<char>, pat: Seq<char>)
    requires
        forall|j: int| !occurs_at(s, pat, j),
    ensures
        sub_index(s, pat) is None,
    decreases s.len(),
{
    if pat.len() <= s.len() {
        assert(!occurs_at(s, pat, 0));
        assert(s.take(pat.len() as int) =~= s.subrange(0, pat.len() as int));
        if s.len() > 0 {
            let t = s.drop_first();
            assert forall|j: int| !occurs_at(t, pat, j) by {
                if occurs_at(t, pat, j) {
                    assert(s.subrange(j + 1, j + 1 + pat.len()) =~= t.subrange(j, j + pat.len()));
                    assert(occurs_at(s, pat, j + 1));
                }
            }
            lemma_sub_index_none(t, pat);
        }
    }
}

// ---------------------------------------------------------------------------
// Implementation
// ---------------------------------------------------------------------------

/// Whether `pat` occurs in `cs` at position `i`, within `cs[..hi]`.
fn occurs_at_pos(cs: &Vec<char>, i: usize, hi: usize, pat: &Vec<char>) -> (r: bool)
    requires
        i <= hi <= cs@.len(),
    ensures
        r == (i + pat@.len() <= hi && cs@.subrange(i as int, i + pat@.len()) == pat@),
{
    let m = pat.len();
    if m > hi - i {
        return false;
    }
    let mut t: usize = 0;
    while t < m
        invariant
            i + m <= hi <= cs@.len(),
            m == pat@.len(),
            t <= m,
            forall|j: int| 0 <= j < t ==> cs@[i + j] == pat@[j],
        decreases m - t,
    {
        if cs[i + t] != pat[t] {
            assert(cs@.subrange(i as int, i + m)[t as int] != pat@[t as int]);
            return false;
        }
        t = t + 1;
    }
    assert(cs@.subrange(i as int, i + m) =~= pat@);
    true
}

/// Absolute position of the first occurrence of `pat` in `cs[lo..hi]`.
fn find_sub(cs: &Vec<char>, lo: usize, hi: usize, pat: &Vec<char>) -> (r: Option<usize>)
    requires
        lo <= hi <= cs@.len(),
    ensures
        r matches Some(e) ==> lo <= e && e + pat@.len() <= hi && sub_index(
            cs@.subrange(lo as int, hi as int),
            pat@,
        ) == Some((e - lo) as nat),
        r is None ==> sub_index(cs@.subrange(lo as int, hi as int), pat@) is None,
{
    let ghost s = cs@.subrange(lo as int, hi as int);
    let m = pat.len();
    let mut i = lo;
    while i < hi
        invariant
            lo <= i <= hi,
            hi <= cs@.len(),
            m == pat@.len(),
            s == cs@.subrange(lo as int, hi as int),
            forall|j: int| 0 <= j < i - lo ==> !occurs_at(s, pat@, j),
        decreases hi - i,
    {
        if occurs_at_pos(cs, i, hi, pat) {
            proof {
                assert(s.subrange(i - lo, i - lo + m) =~= cs@.subrange(i as int, i + m));
                lemma_sub_index_is(s, pat@, (i - lo) as nat);
            }
            return Some(i);
        }
        proof {
            if occurs_at(s, pat@, i - lo) {
                assert(s.subrange(i - lo, i - lo + m) =~= cs@.subrange(i as int, i + m));
            }
        }
        i = i + 1;
    }
    if occurs_at_pos(cs, hi, hi, pat) {
        proof {
            assert(s.subrange(hi - lo, hi - lo + m) =~= cs@.subrange(hi as int, hi + m));
            lemma_sub_index_is(s, pat@, (hi - lo) as nat);
        }
        return Some(hi);
    }
    proof {
        if occurs_at(s, pat@, hi - lo) {
            assert(s.subrange(hi - lo, hi - lo + m) =~= cs@.subrange(hi as int, hi + m));
        }
    }
    proof {
        assert forall|j: int| !occurs_at(s, pat@, j) by {
            if j >= 0 && j + m <= s.len() && j != hi - lo {
                assert(j < i - lo);
            }
        }
        lemma_sub_index_none(s, pat@);
    }
    None
}

/// The version the lines of `cs[lo..hi]` declare first; see [`first_version`].
fn first_version_in(lock: &str, cs: &Vec<char>, lo: usize, hi: usize, prefix: &Vec<char>) -> (r: Option<String>)
    requires
        cs@ == lock@,
        lo <= hi <= cs@.len(),
        prefix@ == "version = \""@,
    ensures
        opt_string_view(r) == first_version(cs@.subrange(lo as int, hi as int)),
{
    let mut p = lo;
    loop
        invariant
            cs@ == lock@,
            lo <= p <= hi <= cs@.len(),
            prefix@ == "version = \""@,
            first_version(cs@.subrange(lo as int, hi as int)) == first_version(
                cs@.subrange(p as int, hi as int),
            ),
        decreases hi - p,
    {
        let ghost t = cs@.subrange(p as int, hi as int);
        let e = find_in(cs, p, hi, '\n');
        let ghost line = cs@.subrange(p as int, e as int);
        assert(before_char(t, '\n') =~= line);
        let m = prefix.len();
        if occurs_at_pos(cs, p, e, prefix) {
            assert(line.subrange(0, m as int) =~= cs@.subrange(p as int, p + m));
            assert(has_prefix(line, prefix@));
            let q = find_in(cs, p + m, e, '"');
            let ghost rest = line.skip(m as int);
            assert(rest =~= cs@.subrange(p + m, e as int));
            if q < e {
                let v = lock.substring_char(p + m, q);
                assert(rest.take(q - (p + m)) =~= cs@.subrange(p + m, q as int));
                return Some(v.to_string());
            }
        } else {
            proof {
                if has_prefix(line, prefix@) {
                    assert(line.subrange(0, m as int) =~= cs@.subrange(p as int, p + m));
                }
            }
        }
        assert(version_of_line(line) is None);
        if e < hi {
            assert(t.skip(e - p + 1) =~= cs@.subrange(e + 1, hi as int));
            p = e + 1;
        } else {
            return None;
        }
    }
}

/// Scans the `[[package]]` blocks of a `Cargo.lock` text for the crate named
/// `crate_name` and returns its resolved version: the first block that
/// contains `name = "<crate_name>"` and a line starting with `version = "`
/// gives the text up to the next `"` on that line.
pub fn find_crate_version(lock: &str, crate_name: &str) -> (r: Option<String>)
    ensures
        opt_string_view(r) == lock_version(lock@, name_line(crate_name@)),
{
    let cs = chars_of(lock);
    let mut name = String::from_str("name = \"");
    name.append(crate_name);
    name.append("\"");
    let pat = chars_of(name.as_str());
    let sep = chars_of("[[package]]");
    let prefix = chars_of("version = \"");
    let ghost nl = name_line(crate_name@);
    assert(pat@ == nl);
    let n = cs.len();
    let mut start: usize = 0;
    assert(cs@.subrange(0, n as int) =~= lock@);
    loop
        invariant
            n == cs@.len(),
            cs@ == lock@,
            start <= n,
            pat@ == nl,
            nl == name_line(crate_name@),
            sep@ == "[[package]]"@,
            prefix@ == "version = \""@,
            lock_version(lock@, nl) == lock_version(cs@.subrange(start as int, n as int), nl),
        decreases n - start,
    {
        let ghost t = cs@.subrange(start as int, n as int);
        let found = find_sub(&cs, start, n, &sep);
        let end = match found {
            Some(e) => e,
            None => n,
        };
        let ghost block = cs@.subrange(start as int, end as int);
        proof {
            if let Some(e) = found {
                assert(t.take(e - start) =~= block);
            } else {
                assert(t =~= block);
            }
        }
        proof {
            match found {
                Some(e) => {
                    assert(sub_index(t, "[[package]]"@) == Some((e - start) as nat));
                    assert(lock_version(t, nl) == match block_version(block, nl) {
                        Some(v) => Some(v),
                        None => lock_version(t.skip(e - start + "[[package]]"@.len()), nl),
                    });
                },
                None => {
                    assert(sub_index(t, "[[package]]"@) is None);
                    assert(lock_version(t, nl) == block_version(block, nl));
                },
            }
        }
        let named = find_sub(&cs, start, end, &pat);
        if named.is_some() {
            let v = first_version_in(lock, &cs, start, end, &prefix);
            if v.is_some() {
                assert(block_version(block, nl) == opt_string_view(v));
                assert(lock_version(t, nl) == opt_string_view(v));
                return v;
            }
        }
        assert(block_version(block, nl) is None);
        match found {
            Some(e) => {
                proof {
                    reveal_strlit("[[package]]");
                }
                assert(t.skip(e - start + sep@.len()) =~= cs@.subrange(e + sep@.len(), n as int));
                start = e + sep.len();
            },
            None => {
                assert(lock_version(t, nl) is None);
                return None;
            },
        }
    }
}

} // verus!
