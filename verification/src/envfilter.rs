//! The parsed `EnvFilter` and the two calls that build one.
//!
//! A [`LogFilter`] can only be made here, by the parser calls, so the
//! directive list it records, and whether it was parsed strictly, always
//! describe the filter it holds.

use tracing_subscriber::EnvFilter;
use vstd::prelude::*;

use crate::logging::directives_safe;

verus! {

#[verifier::external_type_specification]
#[verifier::external_body]
pub struct ExEnvFilter(EnvFilter);

/// An `EnvFilter` together with the directive list it was built from and
/// how it was built from it.
pub struct LogFilter {
    filter: EnvFilter,
    source: Ghost<Seq<char>>,
    strict: Ghost<bool>,
}

impl LogFilter {
    /// The directive list this filter was built from.
    pub closed spec fn source(&self) -> Seq<char> {
        self.source@
    }

    /// Whether the filter was parsed strictly (`EnvFilter::from_str`: no
    /// default directive, every directive valid) rather than built leniently
    /// (`EnvFilter::new`: an `ERROR` default, invalid directives skipped).
    pub closed spec fn strict(&self) -> bool {
        self.strict@
    }

    /// The filter itself, to hand to the subscriber.
    pub fn into_env_filter(self) -> EnvFilter {
        self.filter
    }
}

// ---------------------------------------------------------------------------
// Calls into the parser
// ---------------------------------------------------------------------------

/// Whether `EnvFilter::from_str` accepts the directive list `spec`.
pub uninterp spec fn env_filter_accepts(spec: Seq<char>) -> bool;

/// The `Display` text of the `ParseError` that `EnvFilter::from_str`
/// returns for a directive list `spec` it rejects.
pub uninterp spec fn env_filter_error_text(spec: Seq<char>) -> Seq<char>;

/// `spec.parse::<EnvFilter>()` (`EnvFilter::from_str`), with the filter
/// tagged with `spec` and a rejection turned into the error's `Display` text.
///
/// Claims that whether the spec is accepted, and the text of the rejection,
/// depend on the spec alone, and that an empty spec is accepted (the
/// builder returns an empty filter for it before splitting directives).
/// Which specs are accepted is not stated. The parser slices each directive
/// at offsets taken from its trimmed form and panics when one lands inside
/// a character; `requires` leaves out exactly those specs (reading a
/// non-empty field value as parsing, so a directive whose field fails to
/// parse before a bad slice is left out too).
#[verifier::external_body]
pub(crate) fn parse_env_filter(spec: &str) -> (r: Result<LogFilter, String>)
    requires
        directives_safe(spec@),
    ensures
        r is Ok <==> env_filter_accepts(spec@),
        r matches Ok(f) ==> f.source() == spec@ && f.strict(),
        r matches Err(text) ==> text@ == env_filter_error_text(spec@),
        spec@.len() == 0 ==> r is Ok,
{
    match spec.parse::<EnvFilter>() {
        Ok(filter) => Ok(LogFilter { filter, source: Ghost(spec@), strict: Ghost(true) }),
        Err(e) => Err(format!("{e}")),
    }
}

/// `EnvFilter::new(spec)`: a filter with an `ERROR` default built from the
/// directives of `spec` that parse (the others are reported on stderr and
/// skipped), tagged with `spec` as built leniently. `requires` leaves out
/// the specs on which the directive parser panics.
#[verifier::external_body]
pub(crate) fn env_filter_lossy(spec: &str) -> (f: LogFilter)
    requires
        directives_safe(spec@),
    ensures
        f.source() == spec@,
        !f.strict(),
{
    LogFilter { filter: EnvFilter::new(spec), source: Ghost(spec@), strict: Ghost(false) }
}

} // verus!
