//! Declarative package-set management: a structured `epoch:version-release`
//! version model, parsing of installed-package listings, and a
//! synchronization engine that reconciles a desired package list against the
//! set of packages installed on a host.

pub mod sync;
pub mod text;
pub mod versioning;

use vstd::prelude::*;

use crate::text::{find_char, find_char_str, first_ws_token, first_ws_token_str, spec_lines, strip_cr};
use crate::versioning::{parse_full_spec, FullVersion};

verus! {

/// A package entry: a name plus an optional structured version.
#[derive(Debug, PartialEq, Eq)]
pub struct Package {
    pub name: String,
    pub version: Option<FullVersion>,
}

/// The mathematical content of a [`Package`].
pub struct PackageView {
    pub name: Seq<char>,
    pub version: Option<FullVersion>,
}

impl View for Package {
    type V = PackageView;

    open spec fn view(&self) -> PackageView {
        PackageView { name: self.name@, version: self.version }
    }
}

/// An insertion-ordered list of packages. Names need not be unique; callers
/// that need set semantics deduplicate first.
#[derive(Debug, PartialEq, Eq)]
pub struct PackageList {
    pub packages: Vec<Package>,
}

impl View for PackageList {
    type V = Seq<PackageView>;

    open spec fn view(&self) -> Seq<PackageView> {
        self.packages@.map_values(|p: Package| p@)
    }
}

/// What one listing line parses to: the text before the first space is the
/// name; a nonempty tail after it is a version string, an empty one means no
/// version.
pub open spec fn parse_line_spec(s: Seq<char>) -> PackageView {
    match find_char(s, ' ') {
        None => PackageView { name: s, version: None },
        Some(i) => PackageView {
            name: s.take(i),
            version: if s.skip(i + 1).len() == 0 {
                None
            } else {
                Some(parse_full_spec(s.skip(i + 1)))
            },
        },
    }
}

impl Package {
    /// Parse one `name [version]` line into a package.
    pub fn from(s: &str) -> (p: Package)
        ensures
            p@ == parse_line_spec(s@),
    {
        let n = s.unicode_len();
        match find_char_str(s, ' ') {
            None => Package { name: s.to_owned(), version: None },
            Some(i) => {
                let name = s.substring_char(0, i).to_owned();
                let tail = s.substring_char(i + 1, n);
                if tail.is_empty() {
                    Package { name, version: None }
                } else {
                    Package { name, version: Some(FullVersion::from(tail)) }
                }
            },
        }
    }
}

/// What one line of an installed-package listing parses to. With `versioned`
/// the whole line is read as `name [version]`; otherwise only the first
/// white-space-delimited token is kept as the name.
pub open spec fn parse_listing_line_spec(l: Seq<char>, versioned: bool) -> PackageView {
    if versioned {
        parse_line_spec(l)
    } else {
        PackageView { name: first_ws_token(l), version: None }
    }
}

/// What a whole installed-package listing parses to: one package per line.
pub open spec fn parse_listing_spec(s: Seq<char>, versioned: bool) -> Seq<PackageView> {
    spec_lines(s).map_values(|l: Seq<char>| parse_listing_line_spec(l, versioned))
}

/// Parse the raw output of an "list explicitly installed packages" query into
/// a package list, one package per line, optionally with versions. Blank or
/// malformed lines degrade to a package with an empty name.
pub fn parse_explicit_packages(output: &str, versioned: bool) -> (list: PackageList)
    ensures
        list@ == parse_listing_spec(output@, versioned),
{
    let ghost f = |l: Seq<char>| parse_listing_line_spec(l, versioned);
    let ghost g = |p: Package| p@;
    let mut pkgs: Vec<Package> = Vec::new();
    let mut rem: &str = output;
    while !rem.is_empty()
        invariant
            pkgs@.map_values(g) + spec_lines(rem@).map_values(f) == parse_listing_spec(
                output@,
                versioned,
            ),
            f == (|l: Seq<char>| parse_listing_line_spec(l, versioned)),
            g == (|p: Package| p@),
        decreases rem@.len(),
    {
        let ghost prev = rem@;
        let ghost prev_pkgs = pkgs@;
        let n = rem.unicode_len();
        let (line, next): (&str, &str) = match find_char_str(rem, '\n') {
            Some(i) => {
                let mut line = rem.substring_char(0, i);
                if i > 0 && line.get_char(i - 1) == '\r' {
                    line = line.substring_char(0, i - 1);
                }
                proof {
                    assert(line@ =~= strip_cr(prev.take(i as int)));
                }
                (line, rem.substring_char(i + 1, n))
            },
            None => (rem, rem.substring_char(n, n)),
        };
        proof {
            assert(spec_lines(prev) == seq![line@] + spec_lines(next@));
        }
        let p = if versioned {
            Package::from(line)
        } else {
            Package { name: first_ws_token_str(line).to_owned(), version: None }
        };
        pkgs.push(p);
        rem = next;
        proof {
            assert(spec_lines(prev).map_values(f) =~= seq![f(line@)] + spec_lines(
                next@,
            ).map_values(f));
            assert(pkgs@.map_values(g) =~= prev_pkgs.map_values(g) + seq![p@]);
            assert(pkgs@.map_values(g) + spec_lines(rem@).map_values(f) =~= prev_pkgs.map_values(g)
                + spec_lines(prev).map_values(f));
        }
    }
    proof {
        assert(spec_lines(rem@).map_values(f) =~= Seq::<PackageView>::empty());
        assert(pkgs@.map_values(g) =~= parse_listing_spec(output@, versioned));
    }
    PackageList { packages: pkgs }
}

} // verus!
