//! Filter handling of the runtime-togglable tracing subscriber.
//!
//! The subscriber is installed once at module load with the filter named by
//! `RUST_LOG` (or [`DEFAULT_FILTER`] when that names none), behind a reload
//! handle; `buttplug.SetLogFilter(spec)` parses a new filter spec and applies
//! it to the live subscriber.

use vstd::prelude::*;
use vstd::string::*;

use crate::directive::{directive_safe, directive_safe_at, law_unindented_directive_safe};
pub use crate::envfilter::{env_filter_accepts, env_filter_error_text, LogFilter};
use crate::envfilter::{env_filter_lossy, parse_env_filter};
use crate::text::chars_of;
use crate::version::{after_char, before_char, find_in, lemma_find_char_is, opt_view};

verus! {

/// The filter used when `RUST_LOG` gives none: quiet unless something goes wrong.
pub const DEFAULT_FILTER: &'static str = "warn";


// ---------------------------------------------------------------------------
// Which specs the parser handles
// ---------------------------------------------------------------------------

/// Every comma-separated directive of `s` is [`directive_safe`]: a spec the
/// `EnvFilter` parser reads without slicing inside a character, which is
/// the one way it panics.
pub open spec fn directives_safe(s: Seq<char>) -> bool
    decreases s.len(),
{
    directive_safe(before_char(s, ','))
        && match after_char(s, ',') {
        Some(rest) => directives_safe(rest),
        None => true,
    }
}

/// Whether the `EnvFilter` parser handles `spec` without panicking, as far
/// as [`directives_safe`] tells; callers test this before parsing.
pub fn filter_spec_is_safe(spec: &str) -> (r: bool)
    ensures
        r == directives_safe(spec@),
{
    let cs = chars_of(spec);
    let n = cs.len();
    let mut p: usize = 0;
    assert(cs@.skip(0) =~= cs@);
    loop
        invariant
            n == cs@.len(),
            p <= n,
            directives_safe(spec@) == directives_safe(cs@.skip(p as int)),
            cs@ == spec@,
        decreases n - p,
    {
        let ghost t = cs@.skip(p as int);
        assert(t =~= cs@.subrange(p as int, n as int));
        let e = find_in(&cs, p, n, ',');
        assert(before_char(t, ',') =~= cs@.subrange(p as int, e as int));
        let safe = directive_safe_at(&cs, p, e);
        if !safe {
            return false;
        }
        if e < n {
            assert(t.skip(e - p + 1) =~= cs@.skip(e + 1));
            p = e + 1;
        } else {
            return true;
        }
    }
}

pub(crate) proof fn lemma_default_filter_safe()
    ensures
        directives_safe(DEFAULT_FILTER@),
{
    reveal_strlit("warn");
    let s = DEFAULT_FILTER@;
    assert(s.len() == 4 && s[0] == 'w' && s[1] == 'a' && s[2] == 'r' && s[3] == 'n');
    lemma_find_char_is(s, ',', 4);
    assert(before_char(s, ',') =~= s);
    assert(after_char(s, ',') is None);
    law_unindented_directive_safe(s);
}

// ---------------------------------------------------------------------------
// Filters of the subscriber
// ---------------------------------------------------------------------------

/// The directive list the subscriber starts with, given the value of
/// `RUST_LOG`.
pub open spec fn initial_filter_source(rust_log: Option<Seq<char>>) -> Seq<char> {
    match rust_log {
        Some(s) => if env_filter_accepts(s) {
            s
        } else {
            DEFAULT_FILTER@
        },
        None => DEFAULT_FILTER@,
    }
}

/// Whether the subscriber's first filter is parsed strictly from `RUST_LOG`
/// (rather than built leniently from [`DEFAULT_FILTER`]).
pub open spec fn initial_filter_strict(rust_log: Option<Seq<char>>) -> bool {
    match rust_log {
        Some(s) => env_filter_accepts(s),
        None => false,
    }
}

/// The filter the subscriber starts with, given the value of `RUST_LOG`
/// (`None` when unset or not Unicode): that value when it parses, otherwise
/// [`DEFAULT_FILTER`].
pub fn initial_filter(rust_log: Option<&str>) -> (r: LogFilter)
    requires
        rust_log matches Some(s) ==> directives_safe(s@),
    ensures
        r.source() == initial_filter_source(opt_view(rust_log)),
        r.strict() == initial_filter_strict(opt_view(rust_log)),
{
    match rust_log {
        Some(s) => match parse_env_filter(s) {
            Ok(f) => {
                return f;
            },
            Err(_) => {},
        },
        None => {},
    }
    proof {
        lemma_default_filter_safe();
    }
    env_filter_lossy(DEFAULT_FILTER)
}

/// The outcome of a filter update, given the spec and whether the subscriber
/// (and so its reload handle) has been installed.
pub open spec fn filter_update_error(spec: Seq<char>, installed: bool) -> Option<Seq<char>> {
    if !env_filter_accepts(spec) {
        Some("invalid filter: "@ + env_filter_error_text(spec))
    } else if !installed {
        Some("log subsystem not initialized"@)
    } else {
        None
    }
}

/// Parses `spec` (e.g. `"debug"`, `"btleplug=trace,buttplug=debug"`) into
/// the filter to hand to the live subscriber's reload handle. Errs with
/// `"invalid filter: <reason>"` if the spec is malformed, and otherwise with
/// `"log subsystem not initialized"` if no subscriber was `installed`.
pub fn filter_update(spec: &str, installed: bool) -> (r: Result<LogFilter, String>)
    requires
        directives_safe(spec@),
    ensures
        r is Ok <==> filter_update_error(spec@, installed) is None,
        r matches Ok(f) ==> f.source() == spec@ && f.strict(),
        r matches Err(e) ==> filter_update_error(spec@, installed) == Some(e@),
{
    let filter = match parse_env_filter(spec) {
        Ok(f) => f,
        Err(reason) => {
            let mut e = String::from_str("invalid filter: ");
            e.append(reason.as_str());
            return Err(e);
        },
    };
    if !installed {
        return Err(String::from_str("log subsystem not initialized"));
    }
    Ok(filter)
}

} // verus!

verus! {

/// `RUST_LOG` overrides the default: when it parses, the subscriber starts
/// with exactly that filter, parsed strictly; otherwise (unset, not
/// Unicode, or not a valid filter) it starts with `warn`.
pub proof fn law_rust_log_overrides_default(s: Seq<char>)
    ensures
        env_filter_accepts(s) ==> initial_filter_source(Some(s)) == s && initial_filter_strict(
            Some(s),
        ),
        !env_filter_accepts(s) ==> initial_filter_source(Some(s)) == DEFAULT_FILTER@
            && !initial_filter_strict(Some(s)),
        initial_filter_source(None) == DEFAULT_FILTER@ && !initial_filter_strict(None),
{
}

/// A filter update succeeds exactly when the spec parses and a subscriber is
/// installed; a spec that does not parse is reported as such whether or
/// not one is.
pub proof fn law_update_needs_parse_and_subscriber(spec: Seq<char>, installed: bool)
    ensures
        filter_update_error(spec, installed) is None <==> env_filter_accepts(spec) && installed,
        !env_filter_accepts(spec) ==> filter_update_error(spec, installed) == Some(
            "invalid filter: "@ + env_filter_error_text(spec),
        ),
{
}

} // verus!
