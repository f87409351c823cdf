//! The plain semantic version: the core triple with an optional prerelease
//! and optional build metadata.

use crate::normalizer::nfc_of;
use crate::normalizer::normalize_composed_path;
use crate::normalizer::path_model;
use crate::text::chars_of;
use crate::text::compare_char_vecs;
use crate::text::compare_chars;
use crate::text::cut;
use crate::text::cut_at;
use crate::text::decimal;
use crate::text::find_char;
use crate::text::has_char;
use crate::text::parse_number;
use crate::text::parse_number_spec;
use crate::text::render_number;
use crate::text::trim_chars;
use crate::text::trimmed;
use crate::text::NumberError;
use crate::version::opt_text;
use crate::version::split_patch;
use crate::version::split_patch_token;
use crate::version::text_of;
use core::cmp::Ordering;
use vstd::prelude::*;

verus! {

/// What a `Version` holds, as plain values.
pub struct VersionView {
    pub major: nat,
    pub minor: nat,
    pub patch: nat,
    pub pre: Option<Seq<char>>,
    pub build: Option<Seq<char>>,
}

/// A semantic version.
#[derive(Debug, PartialEq, Eq)]
pub struct Version {
    pub major: u64,
    pub minor: u64,
    pub patch: u64,
    pub pre: Option<String>,
    pub build: Option<String>,
}

impl View for Version {
    type V = VersionView;

    open spec fn view(&self) -> VersionView {
        VersionView {
            major: self.major as nat,
            minor: self.minor as nat,
            patch: self.patch as nat,
            pre: opt_text(self.pre),
            build: opt_text(self.build),
        }
    }
}

/// The patch token of what follows the second dot: its first dot-separated
/// segment, or, where that segment holds a `-` or a `+`, all of it.
pub open spec fn patch_token(tail: Seq<char>) -> Seq<char> {
    let third = cut(tail, '.').0;
    if has_char(third, '-') || has_char(third, '+') {
        tail
    } else {
        third
    }
}

/// Why a number cannot be read, in words.
pub open spec fn number_error_text(e: NumberError) -> Seq<char> {
    match e {
        NumberError::Empty => "cannot parse integer from empty string"@,
        NumberError::InvalidDigit => "invalid digit found in string"@,
        NumberError::Overflow => "number too large to fit in target type"@,
    }
}

/// What a text denotes as a plain version, or the message that says why it
/// denotes none. Whitespace around the text does not count. The fields are
/// read from the left, and the first one that is missing or no number decides
/// the message. Segments after the patch token are ignored.
pub open spec fn version_model(text: Seq<char>) -> Result<VersionView, Seq<char>> {
    let s = trimmed(text);
    let limit = u64::MAX as nat;
    if s.len() == 0 {
        Err("Empty version string"@)
    } else {
        match parse_number_spec(cut(s, '.').0, limit) {
            Err(e) => Err("Invalid major version: "@ + number_error_text(e)),
            Ok(major) => match cut(s, '.').1 {
                None => Err("Missing minor version"@),
                Some(after_major) => match parse_number_spec(cut(after_major, '.').0, limit) {
                    Err(e) => Err("Invalid minor version: "@ + number_error_text(e)),
                    Ok(minor) => match cut(after_major, '.').1 {
                        None => Err("Missing patch version"@),
                        Some(tail) => {
                            let parts = split_patch(patch_token(tail));
                            match parse_number_spec(parts.number, limit) {
                                Err(e) => Err("Invalid patch version: "@ + number_error_text(e)),
                                Ok(patch) => Ok(
                                    VersionView {
                                        major,
                                        minor,
                                        patch,
                                        pre: parts.prerelease,
                                        build: parts.build,
                                    },
                                ),
                            }
                        },
                    },
                },
            },
        }
    }
}

/// What `v` is written as.
pub open spec fn version_text(v: VersionView) -> Seq<char> {
    decimal(v.major) + seq!['.'] + decimal(v.minor) + seq!['.'] + decimal(v.patch) + (match v.pre {
        Some(p) => seq!['-'] + p,
        None => Seq::empty(),
    }) + (match v.build {
        Some(b) => seq!['+'] + b,
        None => Seq::empty(),
    })
}

/// The sign of the order between two versions: by major, minor and patch;
/// then a version without a prerelease outranks one with a prerelease, and
/// two prereleases go by their code points. Build metadata does not count.
pub open spec fn version_order(a: VersionView, b: VersionView) -> int {
    if a.major != b.major {
        if a.major < b.major {
            -1
        } else {
            1
        }
    } else if a.minor != b.minor {
        if a.minor < b.minor {
            -1
        } else {
            1
        }
    } else if a.patch != b.patch {
        if a.patch < b.patch {
            -1
        } else {
            1
        }
    } else {
        match (a.pre, b.pre) {
            (None, None) => 0,
            (None, Some(_)) => 1,
            (Some(_), None) => -1,
            (Some(x), Some(y)) => compare_chars(x, y),
        }
    }
}

fn number_error_message(prefix: &str, e: NumberError) -> (m: String)
    ensures
        m@ == prefix@ + number_error_text(e),
{
    let m = String::from_str(prefix);
    match e {
        NumberError::Empty => m.concat("cannot parse integer from empty string"),
        NumberError::InvalidDigit => m.concat("invalid digit found in string"),
        NumberError::Overflow => m.concat("number too large to fit in target type"),
    }
}

fn read_number(text: &Vec<char>) -> (r: Result<u64, NumberError>)
    ensures
        match parse_number_spec(text@, u64::MAX as nat) {
            Ok(n) => r == Ok::<u64, NumberError>(n as u64) && n <= u64::MAX,
            Err(e) => r == Err::<u64, NumberError>(e),
        },
{
    proof {
        assert(text@.subrange(0, text@.len() as int) =~= text@);
    }
    parse_number(text, 0, text.len(), u64::MAX)
}

impl Version {
    /// The version `major.minor.patch` without prerelease and build.
    pub fn new(major: u64, minor: u64, patch: u64) -> (v: Self)
        ensures
            v@ == (VersionView {
                major: major as nat,
                minor: minor as nat,
                patch: patch as nat,
                pre: None,
                build: None,
            }),
    {
        Version { major, minor, patch, pre: None, build: None }
    }

    /// Reads `MAJOR.MINOR.PATCH[-PRE][+BUILD]`.
    pub fn parse(version: &str) -> (r: Result<Version, String>)
        ensures
            match version_model(version@) {
                Ok(v) => r matches Ok(x) && x@ == v,
                Err(m) => r matches Err(e) && e@ == m,
            },
    {
        let raw = chars_of(version);
        let chars = trim_chars(&raw);
        if chars.len() == 0 {
            return Err(String::from_str("Empty version string"));
        }
        let (major_text, after_major) = cut_at(&chars, '.');
        let major = match read_number(&major_text) {
            Ok(n) => n,
            Err(e) => {
                return Err(number_error_message("Invalid major version: ", e));
            },
        };
        let after_major = match after_major {
            Some(t) => t,
            None => {
                return Err(String::from_str("Missing minor version"));
            },
        };
        let (minor_text, tail) = cut_at(&after_major, '.');
        let minor = match read_number(&minor_text) {
            Ok(n) => n,
            Err(e) => {
                return Err(number_error_message("Invalid minor version: ", e));
            },
        };
        let tail = match tail {
            Some(t) => t,
            None => {
                return Err(String::from_str("Missing patch version"));
            },
        };
        let (third, _) = cut_at(&tail, '.');
        proof {
            assert(third@.subrange(0, third@.len() as int) =~= third@);
        }
        let carries = find_char(&third, 0, third.len(), '-') < third.len() || find_char(
            &third,
            0,
            third.len(),
            '+',
        ) < third.len();
        let pieces = if carries {
            split_patch_token(&tail)
        } else {
            split_patch_token(&third)
        };
        let patch = match read_number(&pieces.number) {
            Ok(n) => n,
            Err(e) => {
                return Err(number_error_message("Invalid patch version: ", e));
            },
        };
        Ok(
            Version {
                major,
                minor,
                patch,
                pre: text_of(&pieces.prerelease),
                build: text_of(&pieces.build),
            },
        )
    }

    /// Writes the version as `MAJOR.MINOR.PATCH[-PRE][+BUILD]`.
    pub fn to_string(&self) -> (s: String)
        ensures
            s@ == version_text(self@),
    {
        let mut s = render_number(self.major);
        s.append(".");
        s.append(render_number(self.minor).as_str());
        s.append(".");
        s.append(render_number(self.patch).as_str());
        proof {
            reveal_strlit(".");
            reveal_strlit("-");
            reveal_strlit("+");
            assert("."@ =~= seq!['.']);
            assert("-"@ =~= seq!['-']);
            assert("+"@ =~= seq!['+']);
        }
        match &self.pre {
            Some(p) => {
                s.append("-");
                s.append(p.as_str());
            },
            None => {},
        }
        let ghost with_pre = s@;
        proof {
            let core = decimal(self.major as nat) + seq!['.'] + decimal(self.minor as nat) + seq![
                '.',
            ] + decimal(self.patch as nat);
            assert(with_pre =~= core + (match self@.pre {
                Some(p) => seq!['-'] + p,
                None => Seq::empty(),
            }));
        }
        match &self.build {
            Some(b) => {
                s.append("+");
                s.append(b.as_str());
            },
            None => {},
        }
        proof {
            assert(s@ =~= with_pre + (match self@.build {
                Some(b) => seq!['+'] + b,
                None => Seq::empty(),
            }));
        }
        s
    }

    /// Orders two versions: `-1`, `0` or `1` as `self` is lower than, level
    /// with or higher than `other`.
    pub fn compare(&self, other: &Version) -> (r: i32)
        ensures
            r == version_order(self@, other@),
    {
        if self.major != other.major {
            return if self.major < other.major {
                -1
            } else {
                1
            };
        }
        if self.minor != other.minor {
            return if self.minor < other.minor {
                -1
            } else {
                1
            };
        }
        if self.patch != other.patch {
            return if self.patch < other.patch {
                -1
            } else {
                1
            };
        }
        match (&self.pre, &other.pre) {
            (None, None) => 0,
            (None, Some(_)) => 1,
            (Some(_), None) => -1,
            (Some(a), Some(b)) => {
                let x = chars_of(a.as_str());
                let y = chars_of(b.as_str());
                compare_char_vecs(&x, &y)
            },
        }
    }
}

/// The ordering that a sign stands for.
pub open spec fn ordering_of(sign: int) -> Ordering {
    if sign < 0 {
        Ordering::Less
    } else if sign == 0 {
        Ordering::Equal
    } else {
        Ordering::Greater
    }
}

impl PartialOrd for Version {
    fn partial_cmp(&self, other: &Version) -> (r: Option<Ordering>) {
        let sign = self.compare(other);
        if sign < 0 {
            Some(Ordering::Less)
        } else if sign == 0 {
            Some(Ordering::Equal)
        } else {
            Some(Ordering::Greater)
        }
    }
}

impl vstd::std_specs::cmp::PartialOrdSpecImpl for Version {
    open spec fn obeys_partial_cmp_spec() -> bool {
        true
    }

    open spec fn partial_cmp_spec(&self, other: &Version) -> Option<Ordering> {
        Some(ordering_of(version_order(self@, other@)))
    }
}

/// Something that is told of every error on its way up.
pub trait ErrorObserver {
    /// Takes note of an error with the message `message` and returns the line
    /// that the host is to report.
    fn observe(&self, message: &str) -> String;
}

/// The observer that reports every error as it is.
#[derive(Debug, Clone, Copy, PartialEq, Eq, Structural)]
pub struct DefaultErrorObserver;

impl ErrorObserver for DefaultErrorObserver {
    fn observe(&self, message: &str) -> (line: String)
        ensures
            line@ == "[ERROR] "@ + message@,
    {
        String::from_str("[ERROR] ").concat(message)
    }
}

/// How strictly a version is handled.
#[derive(Debug, Clone, Copy, PartialEq, Eq, Structural)]
pub enum SecurityMode {
    Standard,
    ZeroTrust,
    Hardened,
}

/// A version with the security mode it is handled in and the observers that
/// are told of errors.
#[derive(Debug)]
pub struct OBINexusSemverX {
    pub version: Version,
    pub security_mode: SecurityMode,
    pub observers: Vec<Box<DefaultErrorObserver>>,
}

impl OBINexusSemverX {
    /// The version in standard mode, with the default observer.
    pub fn new(version: Version) -> (x: Self)
        ensures
            x.version == version,
            x.security_mode == SecurityMode::Standard,
            x.observers@.len() == 1,
    {
        let mut observers: Vec<Box<DefaultErrorObserver>> = Vec::new();
        observers.push(Box::new(DefaultErrorObserver));
        OBINexusSemverX { version, security_mode: SecurityMode::Standard, observers }
    }

    /// The same, in the mode `mode`.
    pub fn with_security(self, mode: SecurityMode) -> (x: Self)
        ensures
            x == (OBINexusSemverX { security_mode: mode, ..self }),
    {
        let mut x = self;
        x.security_mode = mode;
        x
    }

    /// The path in Unicode Normalization Form C and, from there, in the
    /// canonical form of a path.
    pub fn normalize_unicode_path(&self, path: &str) -> (r: String)
        ensures
            r@ == path_model(nfc_of(path@)),
    {
        normalize_composed_path(path)
    }
}

} // verus!
