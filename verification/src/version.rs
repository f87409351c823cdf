//! The extended semantic version: the core triple with prerelease and build
//! suffixes, and the environment, classifier and intent that follow them.

use crate::error::BubblingError;
use crate::error::BubblingErrorView;
use crate::error::ErrorKind;
use crate::error::VerbNounError;
use crate::error::PARSE_STRESS;
use crate::error::VALIDATE_STRESS;
use crate::text::chars_of;
use crate::text::code_point;
use crate::text::compare_char_vecs;
use crate::text::compare_chars;
use crate::text::cut;
use crate::text::cut_at;
use crate::text::decimal;
use crate::text::find_char;
use crate::text::first_index;
use crate::text::lemma_compare_chars_antisymmetric;
use crate::text::lemma_compare_chars_sign;
use crate::text::lemma_cut_joined;
use crate::text::lemma_cut_parts;
use crate::text::lemma_decimal;
use crate::text::lemma_decimal_lacks;
use crate::text::lemma_first_index;
use crate::text::lemma_has_char;
use crate::text::lemma_joined_lacks;
use crate::text::lemma_parse_decimal;
use crate::text::lemma_part_lacks;
use crate::text::has_char;
use crate::text::parse_number;
use crate::text::parse_number_spec;
use crate::text::render_number;
use crate::text::string_of;
use vstd::prelude::*;

verus! {

/// Where a version is meant to run.
#[derive(Clone, Copy, Debug, PartialEq, Eq, Structural)]
pub enum Environment {
    Dev,
    Test,
    Staging,
    Prod,
}

/// The stage of a version in its life.
#[derive(Clone, Copy, Debug, PartialEq, Eq, Structural)]
pub enum Classifier {
    Stable,
    Legacy,
    Experimental,
    Deprecated,
}

/// What an `SEIMetadata` holds, as plain values.
pub struct SEIMetadataView {
    pub statement_contract: Seq<char>,
    pub statement_version: nat,
    pub expression_signature: Seq<char>,
    pub expression_complexity: nat,
    pub intent_hash: Seq<char>,
    pub intent_priority: nat,
}

/// The statement, expression and intent block that every version carries.
#[derive(Debug)]
pub struct SEIMetadata {
    pub statement_contract: String,
    pub statement_version: u32,
    pub expression_signature: String,
    pub expression_complexity: u32,
    pub intent_hash: String,
    pub intent_priority: u32,
}

impl View for SEIMetadata {
    type V = SEIMetadataView;

    open spec fn view(&self) -> SEIMetadataView {
        SEIMetadataView {
            statement_contract: self.statement_contract@,
            statement_version: self.statement_version as nat,
            expression_signature: self.expression_signature@,
            expression_complexity: self.expression_complexity as nat,
            intent_hash: self.intent_hash@,
            intent_priority: self.intent_priority as nat,
        }
    }
}

/// The block of a version that states nothing: empty texts and zeros.
pub open spec fn blank_sei() -> SEIMetadataView {
    SEIMetadataView {
        statement_contract: Seq::empty(),
        statement_version: 0,
        expression_signature: Seq::empty(),
        expression_complexity: 0,
        intent_hash: Seq::empty(),
        intent_priority: 0,
    }
}

/// The highest intent priority of a valid version.
pub const MAX_INTENT_PRIORITY: u32 = 100;

impl SEIMetadata {
    /// The block that states nothing.
    pub fn blank() -> (m: Self)
        ensures
            m@ == blank_sei(),
    {
        SEIMetadata {
            statement_contract: String::new(),
            statement_version: 0,
            expression_signature: String::new(),
            expression_complexity: 0,
            intent_hash: String::new(),
            intent_priority: 0,
        }
    }
}

impl Clone for SEIMetadata {
    fn clone(&self) -> (m: Self)
        ensures
            m == *self,
    {
        SEIMetadata {
            statement_contract: self.statement_contract.clone(),
            statement_version: self.statement_version,
            expression_signature: self.expression_signature.clone(),
            expression_complexity: self.expression_complexity,
            intent_hash: self.intent_hash.clone(),
            intent_priority: self.intent_priority,
        }
    }
}

/// The view of an optional text.
pub open spec fn opt_text(s: Option<String>) -> Option<Seq<char>> {
    match s {
        Some(t) => Some(t@),
        None => None,
    }
}

/// What a `SemverX` holds, as plain values.
pub struct SemverXView {
    pub major: nat,
    pub minor: nat,
    pub patch: nat,
    pub prerelease: Option<Seq<char>>,
    pub build: Option<Seq<char>>,
    pub environment: Option<Environment>,
    pub classifier: Option<Classifier>,
    pub intent: Option<Seq<char>>,
    pub sei: SEIMetadataView,
}

/// An extended semantic version.
#[derive(Debug)]
pub struct SemverX {
    pub major: u32,
    pub minor: u32,
    pub patch: u32,
    pub prerelease: Option<String>,
    pub build: Option<String>,
    pub environment: Option<Environment>,
    pub classifier: Option<Classifier>,
    pub intent: Option<String>,
    pub sei: SEIMetadata,
}

impl View for SemverX {
    type V = SemverXView;

    open spec fn view(&self) -> SemverXView {
        SemverXView {
            major: self.major as nat,
            minor: self.minor as nat,
            patch: self.patch as nat,
            prerelease: opt_text(self.prerelease),
            build: opt_text(self.build),
            environment: self.environment,
            classifier: self.classifier,
            intent: opt_text(self.intent),
            sei: self.sei@,
        }
    }
}

fn clone_text(s: &Option<String>) -> (r: Option<String>)
    ensures
        r == *s,
{
    match s {
        Some(t) => Some(t.clone()),
        None => None,
    }
}

impl Clone for SemverX {
    fn clone(&self) -> (v: Self)
        ensures
            v == *self,
    {
        SemverX {
            major: self.major,
            minor: self.minor,
            patch: self.patch,
            prerelease: clone_text(&self.prerelease),
            build: clone_text(&self.build),
            environment: self.environment,
            classifier: self.classifier,
            intent: clone_text(&self.intent),
            sei: self.sei.clone(),
        }
    }
}

/// The code point of a letter with its ASCII capitals folded to small
/// letters.
pub open spec fn folded(c: char) -> int {
    if 0x41 <= c as int <= 0x5A {
        c as int + 0x20
    } else {
        c as int
    }
}

/// Whether `token` is `word` but for the case of its ASCII letters.
pub open spec fn is_keyword(token: Seq<char>, word: Seq<char>) -> bool {
    &&& token.len() == word.len()
    &&& forall|i: int| 0 <= i < token.len() ==> folded(#[trigger] token[i]) == folded(word[i])
}

fn fold_case(c: char) -> (r: u32)
    ensures
        r as int == folded(c),
{
    let n: u32 = code_point(c);
    if 0x41 <= n && n <= 0x5A {
        n + 0x20
    } else {
        n
    }
}

fn matches_keyword(token: &Vec<char>, word: &str) -> (r: bool)
    ensures
        r == is_keyword(token@, word@),
{
    let letters = chars_of(word);
    if token.len() != letters.len() {
        return false;
    }
    let mut i: usize = 0;
    while i < token.len()
        invariant
            i <= token@.len(),
            token@.len() == letters@.len(),
            letters@ == word@,
            forall|j: int| 0 <= j < i ==> folded(#[trigger] token@[j]) == folded(word@[j]),
        decreases token@.len() - i,
    {
        if fold_case(token[i]) != fold_case(letters[i]) {
            return false;
        }
        i += 1;
    }
    true
}

/// The environment that a token names, if it names one.
pub open spec fn environment_of(token: Seq<char>) -> Option<Environment> {
    if is_keyword(token, "dev"@) {
        Some(Environment::Dev)
    } else if is_keyword(token, "test"@) {
        Some(Environment::Test)
    } else if is_keyword(token, "staging"@) {
        Some(Environment::Staging)
    } else if is_keyword(token, "prod"@) {
        Some(Environment::Prod)
    } else {
        None
    }
}

/// The classifier that a token names, if it names one.
pub open spec fn classifier_of(token: Seq<char>) -> Option<Classifier> {
    if is_keyword(token, "stable"@) {
        Some(Classifier::Stable)
    } else if is_keyword(token, "legacy"@) {
        Some(Classifier::Legacy)
    } else if is_keyword(token, "experimental"@) {
        Some(Classifier::Experimental)
    } else if is_keyword(token, "deprecated"@) {
        Some(Classifier::Deprecated)
    } else {
        None
    }
}

fn read_environment(token: &Vec<char>) -> (r: Option<Environment>)
    ensures
        r == environment_of(token@),
{
    if matches_keyword(token, "dev") {
        Some(Environment::Dev)
    } else if matches_keyword(token, "test") {
        Some(Environment::Test)
    } else if matches_keyword(token, "staging") {
        Some(Environment::Staging)
    } else if matches_keyword(token, "prod") {
        Some(Environment::Prod)
    } else {
        None
    }
}

fn read_classifier(token: &Vec<char>) -> (r: Option<Classifier>)
    ensures
        r == classifier_of(token@),
{
    if matches_keyword(token, "stable") {
        Some(Classifier::Stable)
    } else if matches_keyword(token, "legacy") {
        Some(Classifier::Legacy)
    } else if matches_keyword(token, "experimental") {
        Some(Classifier::Experimental)
    } else if matches_keyword(token, "deprecated") {
        Some(Classifier::Deprecated)
    } else {
        None
    }
}

/// The three parts of a patch token: the number's text and the two suffixes.
pub struct PatchParts {
    pub number: Seq<char>,
    pub prerelease: Option<Seq<char>>,
    pub build: Option<Seq<char>>,
}

/// Splits a patch token `NUMBER[-PRE][+BUILD]`. The first `-` anywhere in the
/// token starts the prerelease, which runs to the first `+` after it; without
/// a `-`, the first `+` starts the build.
pub open spec fn split_patch(token: Seq<char>) -> PatchParts {
    match cut(token, '-').1 {
        Some(after) => PatchParts {
            number: cut(token, '-').0,
            prerelease: Some(cut(after, '+').0),
            build: cut(after, '+').1,
        },
        None => PatchParts {
            number: cut(token, '+').0,
            prerelease: None,
            build: cut(token, '+').1,
        },
    }
}

/// The first dot-separated token of what follows a dot, and what follows the
/// next dot.
pub open spec fn next_token(rest: Option<Seq<char>>) -> (Option<Seq<char>>, Option<Seq<char>>) {
    match rest {
        Some(text) => (Some(cut(text, '.').0), cut(text, '.').1),
        None => (None, None),
    }
}

/// A version text cut into its fields, none of them read yet.
pub struct Fields {
    pub major: Seq<char>,
    pub minor: Seq<char>,
    pub patch: PatchParts,
    pub environment: Option<Seq<char>>,
    pub classifier: Option<Seq<char>>,
    pub intent: Option<Seq<char>>,
}

/// Cuts a version text at its dots. The third segment is the patch token;
/// where it holds a `-` or a `+`, the token runs on to the end of the text,
/// dots included, and no further field follows. Otherwise the segments after
/// it are environment, classifier and intent, and anything after those is
/// ignored. `None` when the text has fewer than three segments.
pub open spec fn fields_of(s: Seq<char>) -> Option<Fields> {
    match cut(s, '.').1 {
        None => None,
        Some(after_major) => match cut(after_major, '.').1 {
            None => None,
            Some(tail) => {
                let third = cut(tail, '.').0;
                if has_char(third, '-') || has_char(third, '+') {
                    Some(
                        Fields {
                            major: cut(s, '.').0,
                            minor: cut(after_major, '.').0,
                            patch: split_patch(tail),
                            environment: None,
                            classifier: None,
                            intent: None,
                        },
                    )
                } else {
                    let env = next_token(cut(tail, '.').1);
                    let class = next_token(env.1);
                    let intent = next_token(class.1);
                    Some(
                        Fields {
                            major: cut(s, '.').0,
                            minor: cut(after_major, '.').0,
                            patch: split_patch(third),
                            environment: env.0,
                            classifier: class.0,
                            intent: intent.0,
                        },
                    )
                }
            },
        },
    }
}

/// Why a text is not a version.
#[derive(Clone, Copy, Debug, PartialEq, Eq, Structural)]
pub enum ParseFailure {
    /// The text has fewer than three dot-separated segments.
    MissingSegment,
    /// The major number is not a non-negative integer that fits.
    InvalidMajor,
    /// The minor number is not a non-negative integer that fits.
    InvalidMinor,
    /// The patch number is not a non-negative integer that fits.
    InvalidPatch,
    /// The environment token names no environment.
    UnknownEnvironment,
    /// The classifier token names no classifier.
    UnknownClassifier,
}

/// The largest number that a field of the core triple holds.
pub open spec fn field_max() -> nat {
    u32::MAX as nat
}

/// What a version text denotes.
pub open spec fn parse_model(s: Seq<char>) -> Result<SemverXView, ParseFailure> {
    match fields_of(s) {
        None => Err(ParseFailure::MissingSegment),
        Some(f) => {
            if parse_number_spec(f.major, field_max()) is Err {
                Err(ParseFailure::InvalidMajor)
            } else if parse_number_spec(f.minor, field_max()) is Err {
                Err(ParseFailure::InvalidMinor)
            } else if parse_number_spec(f.patch.number, field_max()) is Err {
                Err(ParseFailure::InvalidPatch)
            } else if f.environment is Some && environment_of(f.environment->0) is None {
                Err(ParseFailure::UnknownEnvironment)
            } else if f.classifier is Some && classifier_of(f.classifier->0) is None {
                Err(ParseFailure::UnknownClassifier)
            } else {
                Ok(
                    SemverXView {
                        major: parse_number_spec(f.major, field_max())->Ok_0,
                        minor: parse_number_spec(f.minor, field_max())->Ok_0,
                        patch: parse_number_spec(f.patch.number, field_max())->Ok_0,
                        prerelease: f.patch.prerelease,
                        build: f.patch.build,
                        environment: match f.environment {
                            Some(t) => environment_of(t),
                            None => None,
                        },
                        classifier: match f.classifier {
                            Some(t) => classifier_of(t),
                            None => None,
                        },
                        intent: f.intent,
                        sei: blank_sei(),
                    },
                )
            }
        },
    }
}

/// The message of each parse failure.
pub open spec fn failure_message(f: ParseFailure) -> Seq<char> {
    match f {
        ParseFailure::MissingSegment => "Version needs major, minor and patch"@,
        ParseFailure::InvalidMajor => "Invalid major version"@,
        ParseFailure::InvalidMinor => "Invalid minor version"@,
        ParseFailure::InvalidPatch => "Invalid patch version"@,
        ParseFailure::UnknownEnvironment => "Unknown environment"@,
        ParseFailure::UnknownClassifier => "Unknown classifier"@,
    }
}

/// The error that a parse failure is reported as: a parsing error without
/// context, at the stress of a failed parse, that no retry recovers from.
pub open spec fn parse_error_view(f: ParseFailure) -> BubblingErrorView {
    BubblingErrorView {
        kind: ErrorKind::Parsing,
        message: failure_message(f),
        context: Seq::empty(),
        stress_level: PARSE_STRESS as nat,
        can_recover: false,
    }
}

/// Builds the error of a parse failure.
pub fn parse_error(f: ParseFailure) -> (e: BubblingError)
    ensures
        e@ == parse_error_view(f),
{
    let message = match f {
        ParseFailure::MissingSegment => String::from_str("Version needs major, minor and patch"),
        ParseFailure::InvalidMajor => String::from_str("Invalid major version"),
        ParseFailure::InvalidMinor => String::from_str("Invalid minor version"),
        ParseFailure::InvalidPatch => String::from_str("Invalid patch version"),
        ParseFailure::UnknownEnvironment => String::from_str("Unknown environment"),
        ParseFailure::UnknownClassifier => String::from_str("Unknown classifier"),
    };
    BubblingError::new(VerbNounError::ParsingError(message), PARSE_STRESS, false)
}

/// What `v` is written as: the core triple, then `-` and the prerelease if
/// there is one, then `+` and the build if there is one.
pub open spec fn render_model(v: SemverXView) -> Seq<char> {
    decimal(v.major) + seq!['.'] + decimal(v.minor) + seq!['.'] + decimal(v.patch) + (match v.prerelease {
        Some(p) => seq!['-'] + p,
        None => Seq::empty(),
    }) + (match v.build {
        Some(b) => seq!['+'] + b,
        None => Seq::empty(),
    })
}

/// The sign of the order between two prereleases: a version without one
/// outranks a version with one; two prereleases go by their code points.
pub open spec fn compare_prerelease(a: Option<Seq<char>>, b: Option<Seq<char>>) -> int {
    match (a, b) {
        (None, None) => 0,
        (None, Some(_)) => 1,
        (Some(_), None) => -1,
        (Some(x), Some(y)) => compare_chars(x, y),
    }
}

/// The sign of the order between two versions: by major, minor and patch,
/// then by prerelease. Build and the extended fields do not count.
pub open spec fn compare_model(a: SemverXView, b: SemverXView) -> int {
    if a.major != b.major {
        if a.major < b.major {
            -1
        } else {
            1
        }
    } else if a.minor != b.minor {
        if a.minor < b.minor {
            -1
        } else {
            1
        }
    } else if a.patch != b.patch {
        if a.patch < b.patch {
            -1
        } else {
            1
        }
    } else {
        compare_prerelease(a.prerelease, b.prerelease)
    }
}

/// Why a version is invalid.
#[derive(Clone, Copy, Debug, PartialEq, Eq, Structural)]
pub enum Invalidity {
    /// The intent priority is above the highest allowed.
    PriorityTooHigh,
    /// A deprecated version is marked for production.
    DeprecatedInProd,
}

/// The first rule that `v` breaks, if it breaks one.
pub open spec fn invalidity_of(v: SemverXView) -> Option<Invalidity> {
    if v.sei.intent_priority > MAX_INTENT_PRIORITY {
        Some(Invalidity::PriorityTooHigh)
    } else if v.classifier == Some(Classifier::Deprecated) && v.environment == Some(
        Environment::Prod,
    ) {
        Some(Invalidity::DeprecatedInProd)
    } else {
        None
    }
}

/// The error that an invalid version is reported as.
pub open spec fn validation_error_view(i: Invalidity) -> BubblingErrorView {
    BubblingErrorView {
        kind: ErrorKind::Validating,
        message: match i {
            Invalidity::PriorityTooHigh => "Intent priority is above 100"@,
            Invalidity::DeprecatedInProd => "Deprecated version in production"@,
        },
        context: Seq::empty(),
        stress_level: VALIDATE_STRESS as nat,
        can_recover: false,
    }
}

fn read_field(text: &Vec<char>) -> (r: Option<u32>)
    ensures
        match parse_number_spec(text@, field_max()) {
            Ok(n) => r == Some(n as u32) && n <= u32::MAX,
            Err(_) => r is None,
        },
{
    proof {
        assert(text@.subrange(0, text@.len() as int) =~= text@);
    }
    match parse_number(text, 0, text.len(), 0xFFFF_FFFF) {
        Ok(n) => Some(n as u32),
        Err(_) => None,
    }
}

/// The string of optional characters.
pub fn text_of(chars: &Option<Vec<char>>) -> (r: Option<String>)
    ensures
        match *chars {
            Some(c) => opt_text(r) == Some(c@),
            None => r is None,
        },
{
    match chars {
        Some(c) => Some(string_of(c)),
        None => None,
    }
}

/// The three parts of a patch token, as characters.
pub struct PatchPieces {
    pub number: Vec<char>,
    pub prerelease: Option<Vec<char>>,
    pub build: Option<Vec<char>>,
}

impl PatchPieces {
    /// The parts as plain values.
    pub open spec fn parts(self) -> PatchParts {
        PatchParts {
            number: self.number@,
            prerelease: match self.prerelease {
                Some(p) => Some(p@),
                None => None,
            },
            build: match self.build {
                Some(b) => Some(b@),
                None => None,
            },
        }
    }
}

/// Computes `split_patch`.
pub fn split_patch_token(token: &Vec<char>) -> (r: PatchPieces)
    ensures
        r.parts() == split_patch(token@),
{
    let (head, after) = cut_at(token, '-');
    match after {
        Some(rest) => {
            let (pre, build) = cut_at(&rest, '+');
            PatchPieces { number: head, prerelease: Some(pre), build }
        },
        None => {
            let (number, build) = cut_at(token, '+');
            PatchPieces { number, prerelease: None, build }
        },
    }
}

fn take_token(rest: &Option<Vec<char>>) -> (r: (Option<Vec<char>>, Option<Vec<char>>))
    ensures
        ({
            let model = next_token(
                match *rest {
                    Some(t) => Some(t@),
                    None => None,
                },
            );
            &&& match r.0 {
                Some(t) => model.0 == Some(t@),
                None => model.0 is None,
            }
            &&& match r.1 {
                Some(t) => model.1 == Some(t@),
                None => model.1 is None,
            }
        }),
{
    match rest {
        Some(text) => {
            let (token, after) = cut_at(text, '.');
            (Some(token), after)
        },
        None => (None, None),
    }
}

impl SemverX {
    /// The version `major.minor.patch` with nothing else set.
    pub fn new(major: u32, minor: u32, patch: u32) -> (v: Self)
        ensures
            v@ == (SemverXView {
                major: major as nat,
                minor: minor as nat,
                patch: patch as nat,
                prerelease: None,
                build: None,
                environment: None,
                classifier: None,
                intent: None,
                sei: blank_sei(),
            }),
    {
        SemverX {
            major,
            minor,
            patch,
            prerelease: None,
            build: None,
            environment: None,
            classifier: None,
            intent: None,
            sei: SEIMetadata::blank(),
        }
    }

    /// Reads `MAJOR.MINOR.PATCH[-PRE][+BUILD][.ENV][.CLASS][.INTENT]`.
    pub fn parse(version: &str) -> (r: Result<SemverX, BubblingError>)
        ensures
            match parse_model(version@) {
                Ok(v) => r matches Ok(x) && x@ == v,
                Err(f) => r matches Err(e) && e@ == parse_error_view(f),
            },
    {
        let chars = chars_of(version);
        match SemverX::parse_chars(&chars) {
            Ok(v) => Ok(v),
            Err(f) => Err(parse_error(f)),
        }
    }

    /// Reads a version from its characters.
    pub fn parse_chars(version: &Vec<char>) -> (r: Result<SemverX, ParseFailure>)
        ensures
            match parse_model(version@) {
                Ok(v) => r matches Ok(x) && x@ == v,
                Err(f) => r == Err::<SemverX, ParseFailure>(f),
            },
    {
        let (major_text, after_major) = cut_at(version, '.');
        let after_major = match after_major {
            Some(t) => t,
            None => {
                return Err(ParseFailure::MissingSegment);
            },
        };
        let (minor_text, tail) = cut_at(&after_major, '.');
        let tail = match tail {
            Some(t) => t,
            None => {
                return Err(ParseFailure::MissingSegment);
            },
        };
        let (third, after_third) = cut_at(&tail, '.');
        proof {
            assert(third@.subrange(0, third@.len() as int) =~= third@);
        }
        let carries = find_char(&third, 0, third.len(), '-') < third.len() || find_char(
            &third,
            0,
            third.len(),
            '+',
        ) < third.len();
        let pieces = if carries {
            split_patch_token(&tail)
        } else {
            split_patch_token(&third)
        };
        let no_more: Option<Vec<char>> = None;
        let (env_token, after_env) = if carries {
            (None, None)
        } else {
            take_token(&after_third)
        };
        let (class_token, after_class) = take_token(&after_env);
        let (intent_token, _) = take_token(&after_class);
        let ghost f = fields_of(version@)->0;
        proof {
            assert(fields_of(version@) is Some);
            assert(f.major == major_text@);
            assert(f.minor == minor_text@);
            assert(f.patch == pieces.parts());
        }
        let major = match read_field(&major_text) {
            Some(n) => n,
            None => {
                return Err(ParseFailure::InvalidMajor);
            },
        };
        let minor = match read_field(&minor_text) {
            Some(n) => n,
            None => {
                return Err(ParseFailure::InvalidMinor);
            },
        };
        let patch = match read_field(&pieces.number) {
            Some(n) => n,
            None => {
                return Err(ParseFailure::InvalidPatch);
            },
        };
        let environment = match &env_token {
            Some(t) => match read_environment(t) {
                Some(e) => Some(e),
                None => {
                    return Err(ParseFailure::UnknownEnvironment);
                },
            },
            None => None,
        };
        let classifier = match &class_token {
            Some(t) => match read_classifier(t) {
                Some(c) => Some(c),
                None => {
                    return Err(ParseFailure::UnknownClassifier);
                },
            },
            None => None,
        };
        Ok(
            SemverX {
                major,
                minor,
                patch,
                prerelease: text_of(&pieces.prerelease),
                build: text_of(&pieces.build),
                environment,
                classifier,
                intent: text_of(&intent_token),
                sei: SEIMetadata::blank(),
            },
        )
    }

    /// Writes the version as `MAJOR.MINOR.PATCH[-PRE][+BUILD]`. The extended
    /// fields are left out.
    pub fn to_string(&self) -> (s: String)
        ensures
            s@ == render_model(self@),
    {
        let mut s = render_number(self.major as u64);
        s.append(".");
        s.append(render_number(self.minor as u64).as_str());
        s.append(".");
        s.append(render_number(self.patch as u64).as_str());
        proof {
            reveal_strlit(".");
            reveal_strlit("-");
            reveal_strlit("+");
            assert("."@ =~= seq!['.']);
            assert("-"@ =~= seq!['-']);
            assert("+"@ =~= seq!['+']);
        }
        match &self.prerelease {
            Some(p) => {
                s.append("-");
                s.append(p.as_str());
            },
            None => {},
        }
        let ghost with_pre = s@;
        proof {
            let core = decimal(self.major as nat) + seq!['.'] + decimal(self.minor as nat) + seq![
                '.',
            ] + decimal(self.patch as nat);
            assert(with_pre =~= core + (match self@.prerelease {
                Some(p) => seq!['-'] + p,
                None => Seq::empty(),
            }));
        }
        match &self.build {
            Some(b) => {
                s.append("+");
                s.append(b.as_str());
            },
            None => {},
        }
        proof {
            assert(s@ =~= with_pre + (match self@.build {
                Some(b) => seq!['+'] + b,
                None => Seq::empty(),
            }));
        }
        s
    }

    /// Orders two versions: `-1`, `0` or `1` as `self` is lower than, level
    /// with or higher than `other`.
    pub fn compare(&self, other: &SemverX) -> (r: i32)
        ensures
            r == compare_model(self@, other@),
    {
        if self.major != other.major {
            return if self.major < other.major {
                -1
            } else {
                1
            };
        }
        if self.minor != other.minor {
            return if self.minor < other.minor {
                -1
            } else {
                1
            };
        }
        if self.patch != other.patch {
            return if self.patch < other.patch {
                -1
            } else {
                1
            };
        }
        match (&self.prerelease, &other.prerelease) {
            (None, None) => 0,
            (None, Some(_)) => 1,
            (Some(_), None) => -1,
            (Some(a), Some(b)) => {
                let x = chars_of(a.as_str());
                let y = chars_of(b.as_str());
                compare_char_vecs(&x, &y)
            },
        }
    }

    /// Checks the two rules of a valid version: the intent priority is at most
    /// 100, and a deprecated version is not marked for production.
    pub fn validate(&self) -> (r: Result<(), BubblingError>)
        ensures
            match invalidity_of(self@) {
                None => r is Ok,
                Some(i) => r matches Err(e) && e@ == validation_error_view(i),
            },
    {
        if self.sei.intent_priority > MAX_INTENT_PRIORITY {
            return Err(
                BubblingError::new(
                    VerbNounError::ValidatingError(String::from_str("Intent priority is above 100")),
                    VALIDATE_STRESS,
                    false,
                ),
            );
        }
        let deprecated = match self.classifier {
            Some(Classifier::Deprecated) => true,
            _ => false,
        };
        let prod = match self.environment {
            Some(Environment::Prod) => true,
            _ => false,
        };
        if deprecated && prod {
            return Err(
                BubblingError::new(
                    VerbNounError::ValidatingError(
                        String::from_str("Deprecated version in production"),
                    ),
                    VALIDATE_STRESS,
                    false,
                ),
            );
        }
        Ok(())
    }
}

/// The order of two versions has one of three signs, and turning the two
/// around turns the sign around.
pub proof fn lemma_compare_antisymmetric(a: SemverXView, b: SemverXView)
    ensures
        -1 <= compare_model(a, b) <= 1,
        compare_model(a, b) == -compare_model(b, a),
{
    match (a.prerelease, b.prerelease) {
        (Some(x), Some(y)) => {
            lemma_compare_chars_sign(x, y);
            lemma_compare_chars_antisymmetric(x, y);
        },
        _ => {},
    }
}

/// A version without a prerelease outranks the same version with one.
pub proof fn lemma_release_outranks_prerelease(v: SemverXView)
    requires
        v.prerelease is Some,
    ensures
        compare_model(SemverXView { prerelease: None, ..v }, v) == 1,
{
}

/// A deprecated version marked for production is invalid.
pub proof fn lemma_deprecated_in_prod_is_invalid(v: SemverXView)
    requires
        v.classifier == Some(Classifier::Deprecated),
        v.environment == Some(Environment::Prod),
    ensures
        invalidity_of(v) is Some,
{
}

/// Whether `v` holds nothing beyond the five base fields: the core triple,
/// the prerelease and the build.
pub open spec fn is_base(v: SemverXView) -> bool {
    v.environment is None && v.classifier is None && v.intent is None
}

/// The suffixes that a patch token is split into can be told apart again:
/// the prerelease holds no `+`, and a build without a prerelease holds no `-`.
pub proof fn lemma_split_patch_parts(token: Seq<char>)
    ensures
        split_patch(token).prerelease matches Some(p) ==> !has_char(p, '+'),
        split_patch(token).prerelease is None ==> match split_patch(token).build {
            Some(b) => !has_char(b, '-'),
            None => true,
        },
        !has_char(split_patch(token).number, '-'),
        !has_char(split_patch(token).number, '+') || split_patch(token).prerelease is Some,
{
    lemma_cut_parts(token, '-');
    match cut(token, '-').1 {
        Some(after) => {
            lemma_cut_parts(after, '+');
        },
        None => {
            lemma_cut_parts(token, '+');
            let i = first_index(token, '+', 0);
            lemma_first_index(token, '+', 0);
            if i < token.len() {
                lemma_part_lacks(token, '-', i + 1, token.len() as int);
            }
            lemma_part_lacks(token, '-', 0, i);
            assert(token.subrange(0, token.len() as int) =~= token);
        },
    }
}

/// A patch token put together from a number and suffixes that can be told
/// apart splits into those parts again.
pub proof fn lemma_split_patch_joined(n: nat, pre: Option<Seq<char>>, build: Option<Seq<char>>)
    requires
        pre matches Some(p) ==> !has_char(p, '+'),
        pre is None ==> match build {
            Some(b) => !has_char(b, '-'),
            None => true,
        },
    ensures
        split_patch(
            decimal(n) + (match pre {
                Some(p) => seq!['-'] + p,
                None => Seq::empty(),
            }) + (match build {
                Some(b) => seq!['+'] + b,
                None => Seq::empty(),
            }),
        ) == (PatchParts { number: decimal(n), prerelease: pre, build: build }),
{
    let d = decimal(n);
    lemma_decimal_lacks(n, '-');
    lemma_decimal_lacks(n, '+');
    let token = d + (match pre {
        Some(p) => seq!['-'] + p,
        None => Seq::empty(),
    }) + (match build {
        Some(b) => seq!['+'] + b,
        None => Seq::empty(),
    });
    match pre {
        Some(p) => {
            match build {
                Some(b) => {
                    let after = p + seq!['+'] + b;
                    assert(token =~= d + seq!['-'] + after);
                    lemma_cut_joined(d, '-', after);
                    lemma_cut_joined(p, '+', b);
                },
                None => {
                    assert(token =~= d + seq!['-'] + p);
                    lemma_cut_joined(d, '-', p);
                },
            }
        },
        None => {
            match build {
                Some(b) => {
                    assert(token =~= d + seq!['+'] + b);
                    lemma_has_char(seq!['+'], '-');
                    lemma_joined_lacks(d, seq!['+'], '-');
                    lemma_joined_lacks(d + seq!['+'], b, '-');
                    lemma_cut_joined(d, '+', b);
                },
                None => {
                    assert(token =~= d);
                },
            }
        },
    }
}

/// Reading what was written gives the same version: where a text is read as
/// a version of base fields only, the version's rendering is read as that
/// version again.
pub proof fn lemma_parse_render_round_trip(s: Seq<char>)
    requires
        parse_model(s) is Ok,
        is_base(parse_model(s)->Ok_0),
    ensures
        parse_model(render_model(parse_model(s)->Ok_0)) == parse_model(s),
{
    let v = parse_model(s)->Ok_0;
    let f = fields_of(s)->0;
    let tail_in = cut(cut(s, '.').1->0, '.').1->0;
    let third_in = cut(tail_in, '.').0;
    if has_char(third_in, '-') || has_char(third_in, '+') {
        lemma_split_patch_parts(tail_in);
    } else {
        lemma_split_patch_parts(third_in);
    }
    lemma_render_is_read(v);
}

/// Whether the suffixes of `v` can be told apart when they are written one
/// after the other, and its numbers fit their fields.
pub open spec fn is_writable(v: SemverXView) -> bool {
    &&& v.major <= field_max()
    &&& v.minor <= field_max()
    &&& v.patch <= field_max()
    &&& v.prerelease matches Some(p) ==> !has_char(p, '+')
    &&& v.prerelease is None ==> match v.build {
        Some(b) => !has_char(b, '-'),
        None => true,
    }
}

/// What a writable version writes after its second dot: the patch number
/// and the suffixes.
pub open spec fn render_tail(v: SemverXView) -> Seq<char> {
    decimal(v.patch) + (match v.prerelease {
        Some(p) => seq!['-'] + p,
        None => Seq::empty(),
    }) + (match v.build {
        Some(b) => seq!['+'] + b,
        None => Seq::empty(),
    })
}

/// The first segment of what a version with a suffix writes after its second
/// dot holds the mark of the suffix.
pub proof fn lemma_tail_with_suffix(v: SemverXView)
    requires
        v.prerelease is Some || v.build is Some,
    ensures
        has_char(cut(render_tail(v), '.').0, '-') || has_char(cut(render_tail(v), '.').0, '+'),
{
    let patch = decimal(v.patch);
    let tail = render_tail(v);
    let third = cut(tail, '.').0;
    let mark = if v.prerelease is Some {
        '-'
    } else {
        '+'
    };
    lemma_decimal(v.patch);
    lemma_decimal_lacks(v.patch, '.');
    lemma_has_char(patch, '.');
    lemma_first_index(tail, '.', 0);
    let k = first_index(tail, '.', 0);
    assert(tail[patch.len() as int] == mark);
    assert forall|j: int| 0 <= j < patch.len() implies tail[j] != '.' by {
        assert(tail[j] == patch[j]);
    }
    assert(k > patch.len());
    assert(third[patch.len() as int] == mark);
    lemma_has_char(third, mark);
}

/// What a version without suffixes writes after its second dot is one
/// segment without the mark of a suffix.
pub proof fn lemma_tail_without_suffix(v: SemverXView)
    requires
        v.prerelease is None,
        v.build is None,
    ensures
        render_tail(v) == decimal(v.patch),
        cut(render_tail(v), '.') == (decimal(v.patch), None::<Seq<char>>),
        !has_char(decimal(v.patch), '-'),
        !has_char(decimal(v.patch), '+'),
{
    let patch = decimal(v.patch);
    assert(render_tail(v) =~= patch);
    lemma_decimal_lacks(v.patch, '.');
    lemma_decimal_lacks(v.patch, '-');
    lemma_decimal_lacks(v.patch, '+');
}

/// The fields that the rendering of a writable version is cut into.
pub proof fn lemma_render_fields(v: SemverXView)
    requires
        is_writable(v),
    ensures
        fields_of(render_model(v)) == Some(
            Fields {
                major: decimal(v.major),
                minor: decimal(v.minor),
                patch: PatchParts {
                    number: decimal(v.patch),
                    prerelease: v.prerelease,
                    build: v.build,
                },
                environment: None,
                classifier: None,
                intent: None,
            },
        ),
{
    let major = decimal(v.major);
    let minor = decimal(v.minor);
    let tail = render_tail(v);
    let after_major = minor + seq!['.'] + tail;
    let text = render_model(v);
    assert(text =~= major + seq!['.'] + after_major);
    lemma_decimal_lacks(v.major, '.');
    lemma_decimal_lacks(v.minor, '.');
    lemma_cut_joined(major, '.', after_major);
    lemma_cut_joined(minor, '.', tail);
    assert(cut(text, '.') == (major, Some(after_major)));
    assert(cut(after_major, '.') == (minor, Some(tail)));
    lemma_split_patch_joined(v.patch, v.prerelease, v.build);
    if v.prerelease is Some || v.build is Some {
        lemma_tail_with_suffix(v);
    } else {
        lemma_tail_without_suffix(v);
    }
}

/// The rendering of a writable version is read as the version's base fields.
pub proof fn lemma_render_is_read(v: SemverXView)
    requires
        is_writable(v),
    ensures
        parse_model(render_model(v)) == Ok::<SemverXView, ParseFailure>(
            SemverXView {
                environment: None,
                classifier: None,
                intent: None,
                sei: blank_sei(),
                ..v
            },
        ),
{
    lemma_render_fields(v);
    lemma_parse_decimal(v.major, field_max());
    lemma_parse_decimal(v.minor, field_max());
    lemma_parse_decimal(v.patch, field_max());
}

} // verus!
