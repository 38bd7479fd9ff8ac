use vstd::prelude::*;

verus! {

// Names for what the semver library computes. Each one is a function of its
// argument strings alone: node_semver parses deterministically, and its
// comparison and satisfaction checks read only the parsed values.

/// Whether `node_semver::Range::parse` accepts `s`.
pub uninterp spec fn range_valid(s: Seq<char>) -> bool;

/// Whether `node_semver::Version::parse` accepts `s`.
pub uninterp spec fn version_valid(s: Seq<char>) -> bool;

/// The `major` field of the version that node_semver parses out of `s`.
pub uninterp spec fn major_of(s: Seq<char>) -> u64;

/// Whether the version written in `v` lies in the range written in `r`,
/// as node_semver decides it; false when it rejects either string.
pub uninterp spec fn sat(r: Seq<char>, v: Seq<char>) -> bool;

/// Whether the version written in `a` precedes or equals the version written
/// in `b` in semver precedence order. A string that node_semver rejects sorts
/// below every accepted one, and two rejected strings tie.
pub uninterp spec fn version_le(a: Seq<char>, b: Seq<char>) -> bool;

/// Relies on node_semver::Range::parse: whether `s` is a well-formed range.
#[verifier::external_body]
pub fn is_valid_range(s: &str) -> (r: bool)
    ensures
        r == range_valid(s@),
{
    node_semver::Range::parse(s).is_ok()
}

/// Relies on node_semver::Version::parse: the major component of the version
/// written in `s`, or None where the parser rejects `s`.
#[verifier::external_body]
pub fn parse_version_major(s: &str) -> (r: Option<u64>)
    ensures
        r is Some <==> version_valid(s@),
        r is Some ==> r->0 == major_of(s@),
{
    match node_semver::Version::parse(s) {
        Ok(v) => Some(v.major),
        Err(_) => None,
    }
}

/// Relies on node_semver::Range::satisfies (with Range::parse and
/// Version::parse): whether the version written in `v` lies in the range
/// written in `r`; false where either string is rejected.
#[verifier::external_body]
pub fn range_satisfies(r: &str, v: &str) -> (res: bool)
    ensures
        res == sat(r@, v@),
        res ==> range_valid(r@) && version_valid(v@),
{
    match (node_semver::Range::parse(r), node_semver::Version::parse(v)) {
        (Ok(range), Ok(version)) => range.satisfies(&version),
        _ => false,
    }
}

/// Relies on node_semver::Version's Ord, documented as the semver precedence
/// order and total; so of the two directions of a comparison at least one
/// holds. A rejected string is taken as below every other, so totality also
/// holds of the fallback arms below.
#[verifier::external_body]
pub fn version_le_exec(a: &str, b: &str) -> (r: bool)
    ensures
        r == version_le(a@, b@),
        !r ==> version_le(b@, a@),
{
    match (node_semver::Version::parse(a), node_semver::Version::parse(b)) {
        (Ok(va), Ok(vb)) => va <= vb,
        (Err(_), _) => true,
        (_, Err(_)) => false,
    }
}

} // verus!
