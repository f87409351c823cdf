//! Package metadata for a polyglot workspace: versions with hints for other
//! languages, version constraints, dependencies and hot-swap validation.

use crate::error::texts;
use crate::text::chars_of;
use crate::text::compare_char_vecs;
use crate::text::compare_chars;
use crate::text::cut;
use crate::text::cut_at;
use crate::text::decimal;
use crate::text::find_char;
use crate::text::parse_number;
use crate::text::parse_number_spec;
use crate::text::render_number;
use crate::text::slice_chars;
use crate::text::trim_chars;
use crate::text::trimmed;
use crate::version::opt_text;
use crate::version::split_patch;
use crate::version::split_patch_token;
use crate::version::text_of;
use crate::semver::patch_token;
use vstd::prelude::*;

verus! {

/// What a `SemverX` holds, as plain values.
pub struct PackageVersion {
    pub major: nat,
    pub minor: nat,
    pub patch: nat,
    pub prerelease: Option<Seq<char>>,
    pub build_metadata: Option<Seq<char>>,
    pub polyglot_hints: Seq<Seq<char>>,
}

/// A semantic version with hints for other languages.
#[derive(Debug, Clone, PartialEq, Eq, PartialOrd, Ord)]
pub struct SemverX {
    pub major: u32,
    pub minor: u32,
    pub patch: u32,
    pub prerelease: Option<String>,
    pub build_metadata: Option<String>,
    pub polyglot_hints: Vec<String>,
}

impl View for SemverX {
    type V = PackageVersion;

    open spec fn view(&self) -> PackageVersion {
        PackageVersion {
            major: self.major as nat,
            minor: self.minor as nat,
            patch: self.patch as nat,
            prerelease: opt_text(self.prerelease),
            build_metadata: opt_text(self.build_metadata),
            polyglot_hints: texts(self.polyglot_hints@),
        }
    }
}

/// Why a text is not a version.
#[derive(Clone, Copy, Debug, PartialEq, Eq, Structural)]
pub enum VersionParseError {
    InvalidFormat,
    InvalidMajor,
    InvalidMinor,
    InvalidPatch,
}

/// The sign of the order between two optional texts: a missing text comes
/// before any text, and two texts go by their code points.
pub open spec fn order_optional(a: Option<Seq<char>>, b: Option<Seq<char>>) -> int {
    match (a, b) {
        (None, None) => 0,
        (None, Some(_)) => -1,
        (Some(_), None) => 1,
        (Some(x), Some(y)) => compare_chars(x, y),
    }
}

/// The sign of the order between two lists of texts: by the first place
/// where they differ, and a list comes before every list that it starts.
pub open spec fn order_lists(a: Seq<Seq<char>>, b: Seq<Seq<char>>) -> int
    decreases a.len(),
{
    if a.len() == 0 && b.len() == 0 {
        0
    } else if a.len() == 0 {
        -1
    } else if b.len() == 0 {
        1
    } else if compare_chars(a[0], b[0]) != 0 {
        compare_chars(a[0], b[0])
    } else {
        order_lists(a.drop_first(), b.drop_first())
    }
}

/// The sign of the order between two versions: field by field, in the order
/// major, minor, patch, prerelease, build metadata, hints.
pub open spec fn package_order(a: PackageVersion, b: PackageVersion) -> int {
    if a.major != b.major {
        if a.major < b.major {
            -1
        } else {
            1
        }
    } else if a.minor != b.minor {
        if a.minor < b.minor {
            -1
        } else {
            1
        }
    } else if a.patch != b.patch {
        if a.patch < b.patch {
            -1
        } else {
            1
        }
    } else if order_optional(a.prerelease, b.prerelease) != 0 {
        order_optional(a.prerelease, b.prerelease)
    } else if order_optional(a.build_metadata, b.build_metadata) != 0 {
        order_optional(a.build_metadata, b.build_metadata)
    } else {
        order_lists(a.polyglot_hints, b.polyglot_hints)
    }
}

/// What a text denotes as a version: `MAJOR.MINOR.PATCH[-PRE][+BUILD]`,
/// without hints.
pub open spec fn package_version_model(s: Seq<char>) -> Result<PackageVersion, VersionParseError> {
    let limit = u32::MAX as nat;
    match cut(s, '.').1 {
        None => Err(VersionParseError::InvalidFormat),
        Some(after_major) => match cut(after_major, '.').1 {
            None => Err(VersionParseError::InvalidFormat),
            Some(tail) => {
                let parts = split_patch(patch_token(tail));
                if parse_number_spec(cut(s, '.').0, limit) is Err {
                    Err(VersionParseError::InvalidMajor)
                } else if parse_number_spec(cut(after_major, '.').0, limit) is Err {
                    Err(VersionParseError::InvalidMinor)
                } else if parse_number_spec(parts.number, limit) is Err {
                    Err(VersionParseError::InvalidPatch)
                } else {
                    Ok(
                        PackageVersion {
                            major: parse_number_spec(cut(s, '.').0, limit)->Ok_0,
                            minor: parse_number_spec(cut(after_major, '.').0, limit)->Ok_0,
                            patch: parse_number_spec(parts.number, limit)->Ok_0,
                            prerelease: parts.prerelease,
                            build_metadata: parts.build,
                            polyglot_hints: Seq::empty(),
                        },
                    )
                }
            },
        },
    }
}

/// The hints, joined by a comma and a space.
pub open spec fn joined_hints(hints: Seq<Seq<char>>) -> Seq<char>
    decreases hints.len(),
{
    if hints.len() == 0 {
        Seq::empty()
    } else if hints.len() == 1 {
        hints[0]
    } else {
        joined_hints(hints.drop_last()) + ", "@ + hints.last()
    }
}

/// What `v` is written as: the core triple, then `-` and the prerelease if
/// there is one, then `+` and the build metadata if there is some, then the
/// hints in square brackets if there are any.
pub open spec fn package_version_text(v: PackageVersion) -> Seq<char> {
    base_text(v) + (match v.prerelease {
        Some(p) => "-"@ + p,
        None => Seq::empty(),
    }) + (match v.build_metadata {
        Some(b) => "+"@ + b,
        None => Seq::empty(),
    }) + (if v.polyglot_hints.len() > 0 {
        " ["@ + joined_hints(v.polyglot_hints) + "]"@
    } else {
        Seq::empty()
    })
}

/// The message of a parse error.
pub open spec fn parse_error_text(e: VersionParseError) -> Seq<char> {
    match e {
        VersionParseError::InvalidFormat => "Invalid version format"@,
        VersionParseError::InvalidMajor => "Invalid major version"@,
        VersionParseError::InvalidMinor => "Invalid minor version"@,
        VersionParseError::InvalidPatch => "Invalid patch version"@,
    }
}

impl VersionParseError {
    /// The error in words.
    pub fn to_string(&self) -> (s: String)
        ensures
            s@ == parse_error_text(*self),
    {
        match self {
            VersionParseError::InvalidFormat => String::from_str("Invalid version format"),
            VersionParseError::InvalidMajor => String::from_str("Invalid major version"),
            VersionParseError::InvalidMinor => String::from_str("Invalid minor version"),
            VersionParseError::InvalidPatch => String::from_str("Invalid patch version"),
        }
    }
}

fn join_hints(hints: &Vec<String>) -> (s: String)
    ensures
        s@ == joined_hints(texts(hints@)),
{
    let ghost all = texts(hints@);
    let mut s = String::new();
    let mut i: usize = 0;
    while i < hints.len()
        invariant
            i <= hints@.len(),
            all == texts(hints@),
            s@ == joined_hints(all.subrange(0, i as int)),
        decreases hints@.len() - i,
    {
        proof {
            let next = all.subrange(0, i + 1);
            assert(next.drop_last() =~= all.subrange(0, i as int));
            assert(next.last() == hints@[i as int]@);
            if i == 0 {
                assert(s@ + hints@[i as int]@ =~= hints@[i as int]@);
                assert(next[0] == hints@[i as int]@);
            }
        }
        if i > 0 {
            s.append(", ");
        }
        s.append(hints[i].as_str());
        i += 1;
    }
    proof {
        assert(all.subrange(0, hints@.len() as int) =~= all);
    }
    s
}

/// The core triple of `v`, written out.
pub open spec fn base_text(v: PackageVersion) -> Seq<char> {
    decimal(v.major) + seq!['.'] + decimal(v.minor) + seq!['.'] + decimal(v.patch)
}

fn read_part(text: &Vec<char>) -> (r: Option<u32>)
    ensures
        match parse_number_spec(text@, u32::MAX as nat) {
            Ok(n) => r == Some(n as u32) && n <= u32::MAX,
            Err(_) => r is None,
        },
{
    proof {
        assert(text@.subrange(0, text@.len() as int) =~= text@);
    }
    match parse_number(text, 0, text.len(), 0xFFFF_FFFF) {
        Ok(n) => Some(n as u32),
        Err(_) => None,
    }
}

fn order_texts(a: &Option<String>, b: &Option<String>) -> (r: i32)
    ensures
        r == order_optional(opt_text(*a), opt_text(*b)),
{
    match (a, b) {
        (None, None) => 0,
        (None, Some(_)) => -1,
        (Some(_), None) => 1,
        (Some(x), Some(y)) => {
            let p = chars_of(x.as_str());
            let q = chars_of(y.as_str());
            compare_char_vecs(&p, &q)
        },
    }
}

fn order_hints(a: &Vec<String>, b: &Vec<String>) -> (r: i32)
    ensures
        r == order_lists(texts(a@), texts(b@)),
{
    let ghost left = texts(a@);
    let ghost right = texts(b@);
    let mut i: usize = 0;
    proof {
        assert(left.skip(0) =~= left);
        assert(right.skip(0) =~= right);
    }
    while i < a.len() && i < b.len()
        invariant
            i <= a@.len(),
            i <= b@.len(),
            left == texts(a@),
            right == texts(b@),
            order_lists(left, right) == order_lists(left.skip(i as int), right.skip(i as int)),
        decreases a@.len() - i,
    {
        let p = chars_of(a[i].as_str());
        let q = chars_of(b[i].as_str());
        let sign = compare_char_vecs(&p, &q);
        proof {
            assert(left.skip(i as int)[0] == a@[i as int]@);
            assert(right.skip(i as int)[0] == b@[i as int]@);
            assert(left.skip(i as int).drop_first() =~= left.skip(i + 1));
            assert(right.skip(i as int).drop_first() =~= right.skip(i + 1));
        }
        if sign != 0 {
            return sign;
        }
        i += 1;
    }
    if i < a.len() {
        1
    } else if i < b.len() {
        -1
    } else {
        0
    }
}

impl SemverX {
    /// The version `major.minor.patch` with nothing else set.
    pub fn new(major: u32, minor: u32, patch: u32) -> (v: Self)
        ensures
            v@ == (PackageVersion {
                major: major as nat,
                minor: minor as nat,
                patch: patch as nat,
                prerelease: None,
                build_metadata: None,
                polyglot_hints: Seq::empty(),
            }),
    {
        let v = SemverX {
            major,
            minor,
            patch,
            prerelease: None,
            build_metadata: None,
            polyglot_hints: Vec::new(),
        };
        assert(v@.polyglot_hints =~= Seq::<Seq<char>>::empty());
        v
    }

    /// Adds a hint after the hints that the version has.
    pub fn add_polyglot_hint(&mut self, hint: String)
        ensures
            final(self)@ == (PackageVersion {
                polyglot_hints: old(self)@.polyglot_hints.push(hint@),
                ..old(self)@
            }),
    {
        self.polyglot_hints.push(hint);
        assert(self@.polyglot_hints =~= old(self)@.polyglot_hints.push(hint@));
    }

    /// Whether the version has a prerelease.
    pub fn is_prerelease(&self) -> (r: bool)
        ensures
            r == self@.prerelease is Some,
    {
        self.prerelease.is_some()
    }

    /// The core triple, written out.
    pub fn base_version(&self) -> (s: String)
        ensures
            s@ == base_text(self@),
    {
        let mut s = render_number(self.major as u64);
        proof {
            reveal_strlit(".");
            assert("."@ =~= seq!['.']);
        }
        s.append(".");
        s.append(render_number(self.minor as u64).as_str());
        s.append(".");
        s.append(render_number(self.patch as u64).as_str());
        assert(s@ =~= base_text(self@));
        s
    }

    /// Writes the version with its prerelease, build metadata and hints.
    pub fn to_string(&self) -> (s: String)
        ensures
            s@ == package_version_text(self@),
    {
        let mut s = self.base_version();
        let ghost base = s@;
        match &self.prerelease {
            Some(p) => {
                s.append("-");
                s.append(p.as_str());
            },
            None => {},
        }
        let ghost with_pre = s@;
        proof {
            assert(with_pre =~= base + (match self@.prerelease {
                Some(p) => "-"@ + p,
                None => Seq::empty(),
            }));
        }
        match &self.build_metadata {
            Some(b) => {
                s.append("+");
                s.append(b.as_str());
            },
            None => {},
        }
        let ghost with_build = s@;
        proof {
            assert(with_build =~= with_pre + (match self@.build_metadata {
                Some(b) => "+"@ + b,
                None => Seq::empty(),
            }));
        }
        if self.polyglot_hints.len() > 0 {
            s.append(" [");
            s.append(join_hints(&self.polyglot_hints).as_str());
            s.append("]");
            proof {
                assert(s@ =~= with_build + (" ["@ + joined_hints(self@.polyglot_hints) + "]"@));
            }
        } else {
            proof {
                assert(s@ =~= with_build + Seq::<char>::empty());
            }
        }
        s
    }

    /// Reads `MAJOR.MINOR.PATCH[-PRE][+BUILD]`.
    pub fn parse(s: &str) -> (r: Result<SemverX, VersionParseError>)
        ensures
            match package_version_model(s@) {
                Ok(v) => r matches Ok(x) && x@ == v,
                Err(e) => r == Err::<SemverX, VersionParseError>(e),
            },
    {
        let chars = chars_of(s);
        SemverX::parse_chars(&chars)
    }

    /// Reads a version from its characters.
    pub fn parse_chars(chars: &Vec<char>) -> (r: Result<SemverX, VersionParseError>)
        ensures
            match package_version_model(chars@) {
                Ok(v) => r matches Ok(x) && x@ == v,
                Err(e) => r == Err::<SemverX, VersionParseError>(e),
            },
    {
        let (major_text, after_major) = cut_at(chars, '.');
        let after_major = match after_major {
            Some(t) => t,
            None => {
                return Err(VersionParseError::InvalidFormat);
            },
        };
        let (minor_text, tail) = cut_at(&after_major, '.');
        let tail = match tail {
            Some(t) => t,
            None => {
                return Err(VersionParseError::InvalidFormat);
            },
        };
        let (third, _) = cut_at(&tail, '.');
        proof {
            assert(third@.subrange(0, third@.len() as int) =~= third@);
        }
        let carries = find_char(&third, 0, third.len(), '-') < third.len() || find_char(
            &third,
            0,
            third.len(),
            '+',
        ) < third.len();
        let pieces = if carries {
            split_patch_token(&tail)
        } else {
            split_patch_token(&third)
        };
        let major = match read_part(&major_text) {
            Some(n) => n,
            None => {
                return Err(VersionParseError::InvalidMajor);
            },
        };
        let minor = match read_part(&minor_text) {
            Some(n) => n,
            None => {
                return Err(VersionParseError::InvalidMinor);
            },
        };
        let patch = match read_part(&pieces.number) {
            Some(n) => n,
            None => {
                return Err(VersionParseError::InvalidPatch);
            },
        };
        let v = SemverX {
            major,
            minor,
            patch,
            prerelease: text_of(&pieces.prerelease),
            build_metadata: text_of(&pieces.build),
            polyglot_hints: Vec::new(),
        };
        assert(v@.polyglot_hints =~= Seq::<Seq<char>>::empty());
        Ok(v)
    }

    /// Orders two versions field by field: `-1`, `0` or `1`.
    pub fn compare(&self, other: &SemverX) -> (r: i32)
        ensures
            r == package_order(self@, other@),
    {
        if self.major != other.major {
            return if self.major < other.major {
                -1
            } else {
                1
            };
        }
        if self.minor != other.minor {
            return if self.minor < other.minor {
                -1
            } else {
                1
            };
        }
        if self.patch != other.patch {
            return if self.patch < other.patch {
                -1
            } else {
                1
            };
        }
        let pre = order_texts(&self.prerelease, &other.prerelease);
        if pre != 0 {
            return pre;
        }
        let build = order_texts(&self.build_metadata, &other.build_metadata);
        if build != 0 {
            return build;
        }
        order_hints(&self.polyglot_hints, &other.polyglot_hints)
    }

    /// Whether the version meets `constraint`.
    pub fn satisfies(&self, constraint: &VersionConstraint) -> (r: bool)
        ensures
            r == constraint_holds(self@, constraint@),
    {
        match constraint {
            VersionConstraint::Exact(v) => self.compare(v) == 0,
            VersionConstraint::GreaterThan(v) => self.compare(v) > 0,
            VersionConstraint::LessThan(v) => self.compare(v) < 0,
            VersionConstraint::Range(min, max) => self.compare(min) >= 0 && self.compare(max) <= 0,
            VersionConstraint::Compatible(v) => self.major == v.major && self.compare(v) >= 0,
        }
    }
}

impl core::str::FromStr for SemverX {
    type Err = VersionParseError;

    fn from_str(s: &str) -> (r: Result<SemverX, VersionParseError>)
        ensures
            match package_version_model(s@) {
                Ok(v) => r matches Ok(x) && x@ == v,
                Err(e) => r == Err::<SemverX, VersionParseError>(e),
            },
    {
        SemverX::parse(s)
    }
}

/// What a `VersionConstraint` holds, as plain values.
pub enum ConstraintView {
    Exact(PackageVersion),
    GreaterThan(PackageVersion),
    LessThan(PackageVersion),
    Range(PackageVersion, PackageVersion),
    Compatible(PackageVersion),
}

/// What a dependency asks of the version it gets.
#[derive(Debug, Clone, PartialEq, Eq)]
pub enum VersionConstraint {
    /// This version and no other.
    Exact(SemverX),
    /// A version above this one.
    GreaterThan(SemverX),
    /// A version below this one.
    LessThan(SemverX),
    /// A version from the first to the second, both included.
    Range(SemverX, SemverX),
    /// A version at or above this one with the same major number.
    Compatible(SemverX),
}

impl View for VersionConstraint {
    type V = ConstraintView;

    open spec fn view(&self) -> ConstraintView {
        match self {
            VersionConstraint::Exact(v) => ConstraintView::Exact(v@),
            VersionConstraint::GreaterThan(v) => ConstraintView::GreaterThan(v@),
            VersionConstraint::LessThan(v) => ConstraintView::LessThan(v@),
            VersionConstraint::Range(a, b) => ConstraintView::Range(a@, b@),
            VersionConstraint::Compatible(v) => ConstraintView::Compatible(v@),
        }
    }
}

/// Whether `v` meets the constraint `c`.
pub open spec fn constraint_holds(v: PackageVersion, c: ConstraintView) -> bool {
    match c {
        ConstraintView::Exact(x) => package_order(v, x) == 0,
        ConstraintView::GreaterThan(x) => package_order(v, x) > 0,
        ConstraintView::LessThan(x) => package_order(v, x) < 0,
        ConstraintView::Range(min, max) => package_order(v, min) >= 0 && package_order(v, max) <= 0,
        ConstraintView::Compatible(x) => v.major == x.major && package_order(v, x) >= 0,
    }
}

/// The first place at or after `from` where `" - "` stands in `s`, or
/// `s.len()` where it does not stand.
pub open spec fn dash_index(s: Seq<char>, from: int) -> int
    decreases s.len() - from,
{
    if from < 0 || from + 3 > s.len() {
        s.len() as int
    } else if s[from] == ' ' && s[from + 1] == '-' && s[from + 2] == ' ' {
        from
    } else {
        dash_index(s, from + 1)
    }
}

/// What a text denotes as a constraint, whitespace around it aside: `^V` asks
/// for a compatible version, `>V` and `<V` for a higher and a lower one,
/// `A - B` for a version from `A` to `B`, and a plain `V` for `V` itself.
pub open spec fn constraint_model(text: Seq<char>) -> Result<ConstraintView, VersionParseError> {
    let s = trimmed(text);
    if s.len() > 0 && s[0] == '^' {
        match package_version_model(s.skip(1)) {
            Ok(v) => Ok(ConstraintView::Compatible(v)),
            Err(e) => Err(e),
        }
    } else if s.len() > 0 && s[0] == '>' {
        match package_version_model(trimmed(s.skip(1))) {
            Ok(v) => Ok(ConstraintView::GreaterThan(v)),
            Err(e) => Err(e),
        }
    } else if s.len() > 0 && s[0] == '<' {
        match package_version_model(trimmed(s.skip(1))) {
            Ok(v) => Ok(ConstraintView::LessThan(v)),
            Err(e) => Err(e),
        }
    } else if dash_index(s, 0) < s.len() {
        let at = dash_index(s, 0);
        let rest = s.skip(at + 3);
        if dash_index(rest, 0) < rest.len() {
            Err(VersionParseError::InvalidFormat)
        } else {
            match package_version_model(s.take(at)) {
                Err(e) => Err(e),
                Ok(min) => match package_version_model(rest) {
                    Err(e) => Err(e),
                    Ok(max) => Ok(ConstraintView::Range(min, max)),
                },
            }
        }
    } else {
        match package_version_model(s) {
            Ok(v) => Ok(ConstraintView::Exact(v)),
            Err(e) => Err(e),
        }
    }
}

fn find_dash(s: &Vec<char>) -> (at: usize)
    ensures
        at == dash_index(s@, 0),
        at <= s@.len(),
        at < s@.len() ==> at + 3 <= s@.len(),
{
    let mut i: usize = 0;
    while s.len() - i >= 3 && !(s[i] == ' ' && s[i + 1] == '-' && s[i + 2] == ' ')
        invariant
            i <= s@.len(),
            dash_index(s@, 0) == dash_index(s@, i as int),
        decreases s@.len() - i,
    {
        i += 1;
    }
    if s.len() - i >= 3 {
        i
    } else {
        s.len()
    }
}

impl VersionConstraint {
    /// Reads a constraint such as `^1.2.3`, `>2.0.0` or `1.0.0 - 2.0.0`.
    pub fn parse(s: &str) -> (r: Result<VersionConstraint, VersionParseError>)
        ensures
            match constraint_model(s@) {
                Ok(c) => r matches Ok(x) && x@ == c,
                Err(e) => r == Err::<VersionConstraint, VersionParseError>(e),
            },
    {
        let raw = chars_of(s);
        let chars = trim_chars(&raw);
        let n = chars.len();
        proof {
            assert(chars@.subrange(1, n as int) =~= chars@.skip(1));
        }
        if n > 0 && chars[0] == '^' {
            let rest = slice_chars(&chars, 1, n);
            match SemverX::parse_chars(&rest) {
                Ok(v) => Ok(VersionConstraint::Compatible(v)),
                Err(e) => Err(e),
            }
        } else if n > 0 && chars[0] == '>' {
            let rest = trim_chars(&slice_chars(&chars, 1, n));
            match SemverX::parse_chars(&rest) {
                Ok(v) => Ok(VersionConstraint::GreaterThan(v)),
                Err(e) => Err(e),
            }
        } else if n > 0 && chars[0] == '<' {
            let rest = trim_chars(&slice_chars(&chars, 1, n));
            match SemverX::parse_chars(&rest) {
                Ok(v) => Ok(VersionConstraint::LessThan(v)),
                Err(e) => Err(e),
            }
        } else {
            let at = find_dash(&chars);
            if at < n {
                let rest = slice_chars(&chars, at + 3, n);
                let low = slice_chars(&chars, 0, at);
                proof {
                    assert(rest@ =~= chars@.skip(at + 3));
                    assert(low@ =~= chars@.take(at as int));
                }
                if find_dash(&rest) < rest.len() {
                    return Err(VersionParseError::InvalidFormat);
                }
                let min = match SemverX::parse_chars(&low) {
                    Ok(v) => v,
                    Err(e) => {
                        return Err(e);
                    },
                };
                match SemverX::parse_chars(&rest) {
                    Ok(max) => Ok(VersionConstraint::Range(min, max)),
                    Err(e) => Err(e),
                }
            } else {
                match SemverX::parse_chars(&chars) {
                    Ok(v) => Ok(VersionConstraint::Exact(v)),
                    Err(e) => Err(e),
                }
            }
        }
    }
}

/// The languages of the workspace.
#[derive(Debug, Clone, PartialEq, Eq)]
pub enum Language {
    Rust,
    Go,
    Python,
    JavaScript,
    TypeScript,
    C,
    Cpp,
    Java,
    Kotlin,
    Swift,
    Rift,
    Gosilang,
    Other(String),
}

/// The build systems of the workspace.
#[derive(Debug, Clone, PartialEq, Eq)]
pub enum BuildSystem {
    Cargo,
    GoMod,
    Pip,
    Npm,
    Yarn,
    Maven,
    Gradle,
    CMake,
    Make,
    Nlink,
    Polybuild,
    Other(String),
}

/// The name of a language: the variant's name, and for another language
/// `Other(` and `)` around what it is called.
pub open spec fn language_label(l: Language) -> Seq<char> {
    match l {
        Language::Rust => "Rust"@,
        Language::Go => "Go"@,
        Language::Python => "Python"@,
        Language::JavaScript => "JavaScript"@,
        Language::TypeScript => "TypeScript"@,
        Language::C => "C"@,
        Language::Cpp => "Cpp"@,
        Language::Java => "Java"@,
        Language::Kotlin => "Kotlin"@,
        Language::Swift => "Swift"@,
        Language::Rift => "Rift"@,
        Language::Gosilang => "Gosilang"@,
        Language::Other(name) => "Other("@ + name@ + ")"@,
    }
}

/// Whether the two are the same language; other languages go by what they
/// are called.
pub open spec fn same_language(a: Language, b: Language) -> bool {
    match (a, b) {
        (Language::Rust, Language::Rust) => true,
        (Language::Go, Language::Go) => true,
        (Language::Python, Language::Python) => true,
        (Language::JavaScript, Language::JavaScript) => true,
        (Language::TypeScript, Language::TypeScript) => true,
        (Language::C, Language::C) => true,
        (Language::Cpp, Language::Cpp) => true,
        (Language::Java, Language::Java) => true,
        (Language::Kotlin, Language::Kotlin) => true,
        (Language::Swift, Language::Swift) => true,
        (Language::Rift, Language::Rift) => true,
        (Language::Gosilang, Language::Gosilang) => true,
        (Language::Other(x), Language::Other(y)) => x@ == y@,
        _ => false,
    }
}

impl Language {
    /// Computes `language_label`.
    pub fn label(&self) -> (s: String)
        ensures
            s@ == language_label(*self),
    {
        match self {
            Language::Rust => String::from_str("Rust"),
            Language::Go => String::from_str("Go"),
            Language::Python => String::from_str("Python"),
            Language::JavaScript => String::from_str("JavaScript"),
            Language::TypeScript => String::from_str("TypeScript"),
            Language::C => String::from_str("C"),
            Language::Cpp => String::from_str("Cpp"),
            Language::Java => String::from_str("Java"),
            Language::Kotlin => String::from_str("Kotlin"),
            Language::Swift => String::from_str("Swift"),
            Language::Rift => String::from_str("Rift"),
            Language::Gosilang => String::from_str("Gosilang"),
            Language::Other(name) => String::from_str("Other(").concat(name.as_str()).concat(")"),
        }
    }

    /// Computes `same_language`.
    pub fn is_same(&self, other: &Language) -> (r: bool)
        ensures
            r == same_language(*self, *other),
    {
        match (self, other) {
            (Language::Rust, Language::Rust) => true,
            (Language::Go, Language::Go) => true,
            (Language::Python, Language::Python) => true,
            (Language::JavaScript, Language::JavaScript) => true,
            (Language::TypeScript, Language::TypeScript) => true,
            (Language::C, Language::C) => true,
            (Language::Cpp, Language::Cpp) => true,
            (Language::Java, Language::Java) => true,
            (Language::Kotlin, Language::Kotlin) => true,
            (Language::Swift, Language::Swift) => true,
            (Language::Rift, Language::Rift) => true,
            (Language::Gosilang, Language::Gosilang) => true,
            (Language::Other(x), Language::Other(y)) => *x == *y,
            _ => false,
        }
    }
}

/// What a package asks of another one.
#[derive(Debug, Clone)]
pub struct Dependency {
    pub name: String,
    pub constraint: VersionConstraint,
    pub optional: bool,
    pub features: Vec<String>,
}

impl Dependency {
    /// A required dependency on `name` without features.
    pub fn new(name: String, constraint: VersionConstraint) -> (d: Self)
        ensures
            d.name == name,
            d.constraint == constraint,
            !d.optional,
            d.features@ == Seq::<String>::empty(),
    {
        Dependency { name, constraint, optional: false, features: Vec::new() }
    }

    /// The same dependency, marked optional.
    pub fn optional(self) -> (d: Self)
        ensures
            d == (Dependency { optional: true, ..self }),
    {
        let mut d = self;
        d.optional = true;
        d
    }

    /// The same dependency with the features `features`.
    pub fn with_features(self, features: Vec<String>) -> (d: Self)
        ensures
            d == (Dependency { features, ..self }),
    {
        let mut d = self;
        d.features = features;
        d
    }
}

/// What is known of a package.
#[derive(Debug, Clone)]
pub struct PackageMetadata {
    pub name: String,
    pub version: SemverX,
    pub language: Language,
    pub build_system: BuildSystem,
    pub dependencies: Vec<Dependency>,
}

/// A component that can be swapped for another one while the system runs.
pub trait HotSwappable {
    /// Whether `replacement` may take the place of this component, or the
    /// reason why it may not.
    fn validate_swap(&self, replacement: &Self) -> Result<(), String>;

    /// What the component is called.
    fn component_id(&self) -> String;

    /// The version of the component.
    fn component_version(&self) -> &SemverX;
}

/// Why `replacement` may not take the place of `current`, if it may not: the
/// two differ in name, or in language, or the replacement has a lower major
/// version.
pub open spec fn swap_refusal(current: PackageMetadata, replacement: PackageMetadata) -> Option<
    Seq<char>,
> {
    if current.name@ != replacement.name@ {
        Some("Package name mismatch: "@ + current.name@ + " != "@ + replacement.name@)
    } else if !same_language(current.language, replacement.language) {
        Some(
            "Language mismatch: "@ + language_label(current.language) + " != "@ + language_label(
                replacement.language,
            ),
        )
    } else if replacement.version.major < current.version.major {
        Some("Cannot downgrade major version"@)
    } else {
        None
    }
}

impl HotSwappable for PackageMetadata {
    fn validate_swap(&self, replacement: &Self) -> (r: Result<(), String>)
        ensures
            match swap_refusal(*self, *replacement) {
                Some(reason) => r matches Err(e) && e@ == reason,
                None => r is Ok,
            },
    {
        if self.name != replacement.name {
            let mut message = String::from_str("Package name mismatch: ");
            message.append(self.name.as_str());
            message.append(" != ");
            message.append(replacement.name.as_str());
            return Err(message);
        }
        if !self.language.is_same(&replacement.language) {
            let mut message = String::from_str("Language mismatch: ");
            message.append(self.language.label().as_str());
            message.append(" != ");
            message.append(replacement.language.label().as_str());
            return Err(message);
        }
        if replacement.version.major < self.version.major {
            return Err(String::from_str("Cannot downgrade major version"));
        }
        Ok(())
    }

    fn component_id(&self) -> (id: String)
        ensures
            id@ == self.name@,
    {
        self.name.clone()
    }

    fn component_version(&self) -> (v: &SemverX)
        ensures
            *v == self.version,
    {
        &self.version
    }
}

} // verus!
