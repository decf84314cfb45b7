//! The structured version model: parsing, ordering, and canonical rendering
//! of `epoch:major.minor.patch-release` identifiers.
//!
//! Parsing is deliberately lenient: a missing epoch means "no epoch
//! asserted", a missing release means zero, and malformed numeric fragments
//! degrade to their defaults instead of failing.

use vstd::prelude::*;

use crate::text::{
    append_u32, dec_digits, find_char, find_char_str, has_char, lemma_dec_digits_wf,
    lemma_digits_no_sep, lemma_find_char_absent, lemma_find_char_concat_mid,
    lemma_has_char_concat, lemma_has_char_single, lemma_parse_digits,
    lemma_rfind_char_concat_mid, num_or_zero, num_or_zero_str, parse_u32_spec, parse_u32_str,
    rfind_char, rfind_char_str,
};

verus! {

/// The optional epoch: a present value always outranks an absent one.
#[derive(Debug, Clone, Copy, PartialEq, Eq, PartialOrd, Ord)]
pub struct Epoch(pub Option<u32>);

/// The upstream version triple.
#[derive(Debug, Clone, Copy, PartialEq, Eq, PartialOrd, Ord)]
pub struct Version {
    pub major: u32,
    pub minor: u32,
    pub patch: u32,
}

/// The rebuild counter that trails the upstream version.
#[derive(Debug, Clone, Copy, PartialEq, Eq, PartialOrd, Ord)]
pub struct Release(pub u32);

/// The full structured version: epoch, version triple, and release.
#[derive(Debug, Clone, Copy, PartialEq, Eq, PartialOrd, Ord)]
pub struct FullVersion {
    pub epoch: Epoch,
    pub version: Version,
    pub release: Release,
}

// ---------------------------------------------------------------------------
// Parsing
// ---------------------------------------------------------------------------

/// What the epoch fragment parses to: absent when empty, otherwise whatever
/// the numeric parse yields, unparsable values degrading to absent.
pub open spec fn parse_epoch_spec(s: Seq<char>) -> Epoch {
    if s.len() == 0 {
        Epoch(None)
    } else {
        Epoch(parse_u32_spec(s))
    }
}

/// The fragment before the first `.`, or all of `s` when there is none.
pub open spec fn first_part(s: Seq<char>) -> Seq<char> {
    match find_char(s, '.') {
        Some(i) => s.take(i),
        None => s,
    }
}

/// The fragment after the first `.`, when there is one.
pub open spec fn rest_after(s: Seq<char>) -> Option<Seq<char>> {
    match find_char(s, '.') {
        Some(i) => Some(s.skip(i + 1)),
        None => None,
    }
}

/// What a version fragment parses to: up to three dot-separated numeric
/// components, each defaulting to zero when missing or unparsable.
pub open spec fn parse_version_spec(s: Seq<char>) -> Version {
    Version {
        major: num_or_zero(first_part(s)),
        minor: match rest_after(s) {
            Some(r) => num_or_zero(first_part(r)),
            None => 0,
        },
        patch: match rest_after(s) {
            Some(r) => match rest_after(r) {
                Some(r2) => num_or_zero(first_part(r2)),
                None => 0,
            },
            None => 0,
        },
    }
}

/// What a release fragment parses to: zero when empty or unparsable.
pub open spec fn parse_release_spec(s: Seq<char>) -> Release {
    Release(num_or_zero(s))
}

/// What a full version string parses to: an optional epoch before the first
/// `:`, then a version fragment and a release fragment split on the last `-`.
/// This never fails; malformed fragments degrade to their defaults.
pub open spec fn parse_full_spec(s: Seq<char>) -> FullVersion {
    let epoch_text = match find_char(s, ':') {
        Some(i) => s.take(i),
        None => Seq::<char>::empty(),
    };
    let rest = match find_char(s, ':') {
        Some(i) => s.skip(i + 1),
        None => s,
    };
    FullVersion {
        epoch: parse_epoch_spec(epoch_text),
        version: match rfind_char(rest, '-') {
            Some(i) => parse_version_spec(rest.take(i)),
            None => parse_version_spec(rest),
        },
        release: match rfind_char(rest, '-') {
            Some(i) => parse_release_spec(rest.skip(i + 1)),
            None => Release(0),
        },
    }
}

impl Epoch {
    /// Parse an epoch fragment: empty means absent, otherwise numeric.
    pub fn from(s: &str) -> (e: Epoch)
        ensures
            e == parse_epoch_spec(s@),
    {
        if s.is_empty() {
            Epoch(None)
        } else {
            Epoch(parse_u32_str(s))
        }
    }
}

impl Version {
    /// Parse a version fragment of up to three dot-separated components.
    pub fn from(s: &str) -> (v: Version)
        ensures
            v == parse_version_spec(s@),
    {
        let n = s.unicode_len();
        match find_char_str(s, '.') {
            None => Version { major: num_or_zero_str(s), minor: 0, patch: 0 },
            Some(i) => {
                let major = num_or_zero_str(s.substring_char(0, i));
                let rest = s.substring_char(i + 1, n);
                let m = rest.unicode_len();
                match find_char_str(rest, '.') {
                    None => Version { major, minor: num_or_zero_str(rest), patch: 0 },
                    Some(j) => {
                        let minor = num_or_zero_str(rest.substring_char(0, j));
                        let rest2 = rest.substring_char(j + 1, m);
                        let patch = match find_char_str(rest2, '.') {
                            None => num_or_zero_str(rest2),
                            Some(l) => num_or_zero_str(rest2.substring_char(0, l)),
                        };
                        Version { major, minor, patch }
                    },
                }
            },
        }
    }
}

impl Release {
    /// Parse a release fragment, defaulting to zero.
    pub fn from(s: &str) -> (r: Release)
        ensures
            r == parse_release_spec(s@),
    {
        Release(num_or_zero_str(s))
    }
}

impl FullVersion {
    /// Parse a full version string of the form
    /// `[epoch:]major.minor.patch[-release]`, leniently.
    pub fn from(s: &str) -> (v: FullVersion)
        ensures
            v == parse_full_spec(s@),
    {
        let n = s.unicode_len();
        let colon = find_char_str(s, ':');
        let epoch = match colon {
            Some(i) => Epoch::from(s.substring_char(0, i)),
            None => Epoch(None),
        };
        proof {
            if colon is None {
                assert(parse_epoch_spec(Seq::<char>::empty()) == Epoch(None));
            }
        }
        let rest = match colon {
            Some(i) => s.substring_char(i + 1, n),
            None => s,
        };
        let m = rest.unicode_len();
        match rfind_char_str(rest, '-') {
            Some(i) => FullVersion {
                epoch,
                version: Version::from(rest.substring_char(0, i)),
                release: Release::from(rest.substring_char(i + 1, m)),
            },
            None => FullVersion { epoch, version: Version::from(rest), release: Release(0) },
        }
    }
}

// ---------------------------------------------------------------------------
// Rendering
// ---------------------------------------------------------------------------

/// Canonical rendering of a version triple: `major.minor.patch`.
pub open spec fn format_version_spec(v: Version) -> Seq<char> {
    dec_digits(v.major as nat) + seq!['.'] + dec_digits(v.minor as nat) + seq!['.'] + dec_digits(
        v.patch as nat,
    )
}

/// Canonical rendering of a full version: `[epoch:]major.minor.patch-release`,
/// with the epoch segment omitted entirely when absent.
pub open spec fn format_full_spec(v: FullVersion) -> Seq<char> {
    (match v.epoch.0 {
        Some(e) => dec_digits(e as nat) + seq![':'],
        None => Seq::<char>::empty(),
    }) + format_version_spec(v.version) + seq!['-'] + dec_digits(v.release.0 as nat)
}

impl FullVersion {
    /// Render the canonical text of this version.
    pub fn render(&self) -> (r: String)
        ensures
            r@ == format_full_spec(*self),
    {
        let mut out = String::new();
        match self.epoch.0 {
            Some(e) => {
                append_u32(&mut out, e);
                out.append(":");
            },
            None => {},
        }
        append_u32(&mut out, self.version.major);
        out.append(".");
        append_u32(&mut out, self.version.minor);
        out.append(".");
        append_u32(&mut out, self.version.patch);
        out.append("-");
        append_u32(&mut out, self.release.0);
        proof {
            reveal_strlit(":");
            reveal_strlit(".");
            reveal_strlit("-");
            assert(":"@ =~= seq![':']);
            assert("."@ =~= seq!['.']);
            assert("-"@ =~= seq!['-']);
            assert(out@ =~= format_full_spec(*self));
        }
        out
    }
}

// ---------------------------------------------------------------------------
// Ordering
// ---------------------------------------------------------------------------

/// Epoch precedence: an absent epoch sorts strictly below any present one;
/// present epochs compare numerically.
pub open spec fn epoch_lt(a: Epoch, b: Epoch) -> bool {
    match (a.0, b.0) {
        (Option::None, Option::Some(_)) => true,
        (Option::Some(x), Option::Some(y)) => x < y,
        _ => false,
    }
}

/// Lexicographic order on the version triple.
pub open spec fn version_lt(a: Version, b: Version) -> bool {
    a.major < b.major || (a.major == b.major && (a.minor < b.minor || (a.minor == b.minor
        && a.patch < b.patch)))
}

/// The total order on full versions: epoch dominates the version triple,
/// which dominates the release.
pub open spec fn full_version_lt(a: FullVersion, b: FullVersion) -> bool {
    epoch_lt(a.epoch, b.epoch) || (a.epoch == b.epoch && (version_lt(a.version, b.version) || (
    a.version == b.version && a.release.0 < b.release.0)))
}

impl FullVersion {
    /// Whether this version sorts strictly before `other`.
    pub fn lt(&self, other: &FullVersion) -> (r: bool)
        ensures
            r == full_version_lt(*self, *other),
    {
        let e_lt: bool = match (self.epoch.0, other.epoch.0) {
            (Option::None, Option::Some(_)) => true,
            (Option::Some(x), Option::Some(y)) => x < y,
            _ => false,
        };
        let e_eq: bool = match (self.epoch.0, other.epoch.0) {
            (Option::None, Option::None) => true,
            (Option::Some(x), Option::Some(y)) => x == y,
            _ => false,
        };
        if e_lt {
            true
        } else if !e_eq {
            false
        } else if self.version.major != other.version.major {
            self.version.major < other.version.major
        } else if self.version.minor != other.version.minor {
            self.version.minor < other.version.minor
        } else if self.version.patch != other.version.patch {
            self.version.patch < other.version.patch
        } else {
            self.release.0 < other.release.0
        }
    }
}

/// The version order is total: of `a < b`, `a == b` and `b < a`, exactly one
/// holds for every pair of full versions.
pub proof fn lemma_version_order_total(a: FullVersion, b: FullVersion)
    ensures
        full_version_lt(a, b) || a == b || full_version_lt(b, a),
        full_version_lt(a, b) ==> a != b && !full_version_lt(b, a),
        a == b ==> !full_version_lt(a, b) && !full_version_lt(b, a),
{
    if !full_version_lt(a, b) && !full_version_lt(b, a) {
        assert(a.epoch.0 == b.epoch.0);
        assert(a.epoch == b.epoch);
        assert(a.version == b.version);
        assert(a.release == b.release);
    }
}

// ---------------------------------------------------------------------------
// Round trip
// ---------------------------------------------------------------------------

/// Parsing the canonical rendering of a version triple gives it back.
proof fn lemma_version_roundtrip(u: Version)
    ensures
        parse_version_spec(format_version_spec(u)) == u,
{
    let d_major = dec_digits(u.major as nat);
    let d_minor = dec_digits(u.minor as nat);
    let d_patch = dec_digits(u.patch as nat);
    lemma_dec_digits_wf(u.major as nat);
    lemma_dec_digits_wf(u.minor as nat);
    lemma_dec_digits_wf(u.patch as nat);
    lemma_digits_no_sep(d_major, '.');
    lemma_digits_no_sep(d_minor, '.');
    lemma_digits_no_sep(d_patch, '.');
    lemma_parse_digits(u.major as nat);
    lemma_parse_digits(u.minor as nat);
    lemma_parse_digits(u.patch as nat);
    let ver = format_version_spec(u);
    let tail1 = d_minor + seq!['.'] + d_patch;
    assert(ver =~= d_major + seq!['.'] + tail1);
    lemma_find_char_concat_mid(d_major, '.', tail1);
    assert(find_char(ver, '.') == Some(d_major.len() as int));
    assert(ver.take(d_major.len() as int) =~= d_major);
    assert(ver.skip(d_major.len() as int + 1) =~= tail1);
    lemma_find_char_concat_mid(d_minor, '.', d_patch);
    assert(find_char(tail1, '.') == Some(d_minor.len() as int));
    assert(tail1.take(d_minor.len() as int) =~= d_minor);
    assert(tail1.skip(d_minor.len() as int + 1) =~= d_patch);
    lemma_find_char_absent(d_patch, '.');
}

/// The version-and-release tail of a rendered version holds no ':'.
proof fn lemma_tail_no_colon(u: Version, r: u32)
    ensures
        !has_char(format_version_spec(u) + seq!['-'] + dec_digits(r as nat), ':'),
{
    let d_major = dec_digits(u.major as nat);
    let d_minor = dec_digits(u.minor as nat);
    let d_patch = dec_digits(u.patch as nat);
    let d_rel = dec_digits(r as nat);
    lemma_dec_digits_wf(u.major as nat);
    lemma_dec_digits_wf(u.minor as nat);
    lemma_dec_digits_wf(u.patch as nat);
    lemma_dec_digits_wf(r as nat);
    lemma_digits_no_sep(d_major, ':');
    lemma_digits_no_sep(d_minor, ':');
    lemma_digits_no_sep(d_patch, ':');
    lemma_digits_no_sep(d_rel, ':');
    lemma_has_char_single('.', ':');
    lemma_has_char_single('-', ':');
    let ver = format_version_spec(u);
    lemma_has_char_concat(d_major, seq!['.'], ':');
    lemma_has_char_concat(d_major + seq!['.'], d_minor, ':');
    lemma_has_char_concat(d_major + seq!['.'] + d_minor, seq!['.'], ':');
    lemma_has_char_concat(d_major + seq!['.'] + d_minor + seq!['.'], d_patch, ':');
    assert(!has_char(ver, ':'));
    lemma_has_char_concat(ver, seq!['-'], ':');
    lemma_has_char_concat(ver + seq!['-'], d_rel, ':');
}

/// Parsing the canonical rendering of any full version gives that version
/// back unchanged.
pub proof fn lemma_parse_render_roundtrip(v: FullVersion)
    ensures
        parse_full_spec(format_full_spec(v)) == v,
{
    let d_rel = dec_digits(v.release.0 as nat);
    lemma_dec_digits_wf(v.release.0 as nat);
    lemma_digits_no_sep(d_rel, '-');
    lemma_parse_digits(v.release.0 as nat);
    lemma_version_roundtrip(v.version);
    lemma_tail_no_colon(v.version, v.release.0);

    let ver = format_version_spec(v.version);
    let rest = ver + seq!['-'] + d_rel;
    let s = format_full_spec(v);

    // split on the first ':' recovers the epoch fragment and the tail
    match v.epoch.0 {
        Some(e) => {
            let de = dec_digits(e as nat);
            lemma_dec_digits_wf(e as nat);
            lemma_digits_no_sep(de, ':');
            lemma_parse_digits(e as nat);
            assert(s =~= de + seq![':'] + rest);
            lemma_find_char_concat_mid(de, ':', rest);
            assert(find_char(s, ':') == Some(de.len() as int));
            assert(s.take(de.len() as int) =~= de);
            assert(s.skip(de.len() as int + 1) =~= rest);
            assert(parse_epoch_spec(de) == Epoch(Some(e)));
        },
        None => {
            assert(s =~= rest);
            lemma_find_char_absent(s, ':');
            assert(parse_epoch_spec(Seq::<char>::empty()) == Epoch(None));
        },
    }

    // split on the last '-' recovers the version fragment and the release
    lemma_rfind_char_concat_mid(ver, '-', d_rel);
    assert(rfind_char(rest, '-') == Some(ver.len() as int));
    assert(rest.take(ver.len() as int) =~= ver);
    assert(rest.skip(ver.len() as int + 1) =~= d_rel);
    assert(parse_release_spec(d_rel) == v.release);
    assert(parse_version_spec(ver) == v.version);
}

} // verus!
