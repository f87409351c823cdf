//! Errors that carry a growing chain of context and a stress score.

use vstd::prelude::*;

verus! {

/// The closed set of error kinds.
#[derive(Clone, Copy, Debug, PartialEq, Eq, Structural)]
pub enum ErrorKind {
    Parsing,
    Validating,
    Comparing,
    Resolving,
    Healing,
    Panic,
}

/// What went wrong, named by the activity that failed, with its message.
#[derive(Debug)]
pub enum VerbNounError {
    ParsingError(String),
    ValidatingError(String),
    ComparingError(String),
    ResolvingError(String),
    HealingError(String),
    PanicError(String),
}

impl VerbNounError {
    /// The kind of this error.
    pub open spec fn kind_of(self) -> ErrorKind {
        match self {
            VerbNounError::ParsingError(_) => ErrorKind::Parsing,
            VerbNounError::ValidatingError(_) => ErrorKind::Validating,
            VerbNounError::ComparingError(_) => ErrorKind::Comparing,
            VerbNounError::ResolvingError(_) => ErrorKind::Resolving,
            VerbNounError::HealingError(_) => ErrorKind::Healing,
            VerbNounError::PanicError(_) => ErrorKind::Panic,
        }
    }

    /// The message of this error.
    pub open spec fn message_of(self) -> Seq<char> {
        match self {
            VerbNounError::ParsingError(m) => m@,
            VerbNounError::ValidatingError(m) => m@,
            VerbNounError::ComparingError(m) => m@,
            VerbNounError::ResolvingError(m) => m@,
            VerbNounError::HealingError(m) => m@,
            VerbNounError::PanicError(m) => m@,
        }
    }

    /// The kind of this error.
    pub fn kind(&self) -> (k: ErrorKind)
        ensures
            k == self.kind_of(),
    {
        match self {
            VerbNounError::ParsingError(_) => ErrorKind::Parsing,
            VerbNounError::ValidatingError(_) => ErrorKind::Validating,
            VerbNounError::ComparingError(_) => ErrorKind::Comparing,
            VerbNounError::ResolvingError(_) => ErrorKind::Resolving,
            VerbNounError::HealingError(_) => ErrorKind::Healing,
            VerbNounError::PanicError(_) => ErrorKind::Panic,
        }
    }

    /// The message of this error.
    pub fn message(&self) -> (m: &String)
        ensures
            m@ == self.message_of(),
    {
        match self {
            VerbNounError::ParsingError(m) => m,
            VerbNounError::ValidatingError(m) => m,
            VerbNounError::ComparingError(m) => m,
            VerbNounError::ResolvingError(m) => m,
            VerbNounError::HealingError(m) => m,
            VerbNounError::PanicError(m) => m,
        }
    }
}

/// The views of a sequence of strings.
pub open spec fn texts(v: Seq<String>) -> Seq<Seq<char>> {
    Seq::new(v.len(), |i: int| v[i]@)
}

/// What a `BubblingError` holds, as plain values.
pub struct BubblingErrorView {
    pub kind: ErrorKind,
    pub message: Seq<char>,
    pub context: Seq<Seq<char>>,
    pub stress_level: nat,
    pub can_recover: bool,
}

/// An error with the context it gathered on its way up and the stress it
/// stands for, in thousandths.
#[derive(Debug)]
pub struct BubblingError {
    pub source: VerbNounError,
    pub context: Vec<String>,
    pub stress_level: u64,
    pub can_recover: bool,
}

impl View for BubblingError {
    type V = BubblingErrorView;

    open spec fn view(&self) -> BubblingErrorView {
        BubblingErrorView {
            kind: self.source.kind_of(),
            message: self.source.message_of(),
            context: texts(self.context@),
            stress_level: self.stress_level as nat,
            can_recover: self.can_recover,
        }
    }
}

/// Stress after one more layer has passed the error on: one and a half times
/// the stress before, rounded down, and never above what a `u64` holds.
pub open spec fn amplified(stress: nat) -> nat {
    let grown = stress + stress / 2;
    if grown > u64::MAX {
        u64::MAX as nat
    } else {
        grown
    }
}

/// The stress an error starts with when a version or a range cannot be parsed.
pub const PARSE_STRESS: u64 = 3_000;

/// The stress an error starts with when a version is invalid.
pub const VALIDATE_STRESS: u64 = 4_000;

/// The stress an error starts with when a node's version does not meet an
/// edge's constraint.
pub const INCOMPATIBLE_STRESS: u64 = 5_000;

/// The stress an error starts with when no path is found.
pub const PATHFIND_STRESS: u64 = 6_000;

/// The stress an error starts with when every strategy has failed.
pub const EXHAUSTED_STRESS: u64 = 9_000;

/// The stress an error starts with when a strategy does not find its
/// component, or the graph turns a node or an edge away.
pub const MISSING_STRESS: u64 = 4_000;

/// The stress an error starts with when the graph is asked for a component it
/// does not hold.
pub const LOOKUP_STRESS: u64 = 3_000;

impl BubblingError {
    /// A fresh error with no context.
    pub fn new(source: VerbNounError, stress_level: u64, can_recover: bool) -> (e: Self)
        ensures
            e.source == source,
            e.context@ == Seq::<String>::empty(),
            e.stress_level == stress_level,
            e.can_recover == can_recover,
            e@.context == Seq::<Seq<char>>::empty(),
    {
        let e = BubblingError { source, context: Vec::new(), stress_level, can_recover };
        assert(e@.context =~= Seq::<Seq<char>>::empty());
        e
    }

    /// The kind of this error.
    pub fn kind(&self) -> (k: ErrorKind)
        ensures
            k == self@.kind,
    {
        self.source.kind()
    }

    /// The message of this error.
    pub fn message(&self) -> (m: &String)
        ensures
            m@ == self@.message,
    {
        self.source.message()
    }

    /// Passes the error one layer up: `context` joins the end of the chain and
    /// the stress grows by half.
    pub fn bubble_up(self, context: String) -> (e: Self)
        ensures
            e@.kind == self@.kind,
            e@.message == self@.message,
            e@.context == self@.context.push(context@),
            e@.stress_level == amplified(self@.stress_level),
            e@.can_recover == self@.can_recover,
    {
        let BubblingError { source, context: chain, stress_level, can_recover } = self;
        let mut chain = chain;
        let ghost before = chain@;
        chain.push(context);
        let half: u64 = stress_level / 2;
        let grown: u64 = if stress_level > u64::MAX - half {
            u64::MAX
        } else {
            stress_level + half
        };
        let e = BubblingError { source, context: chain, stress_level: grown, can_recover };
        assert(e@.context =~= texts(before).push(context@));
        e
    }
}

/// A resolving error raised at `origin`, which starts its context chain.
pub fn resolving_error(message: String, origin: &str, stress_level: u64, can_recover: bool) -> (e:
    BubblingError)
    ensures
        e@ == (BubblingErrorView {
            kind: ErrorKind::Resolving,
            message: message@,
            context: seq![origin@],
            stress_level: stress_level as nat,
            can_recover,
        }),
{
    let mut context: Vec<String> = Vec::new();
    context.push(String::from_str(origin));
    let e = BubblingError {
        source: VerbNounError::ResolvingError(message),
        context,
        stress_level,
        can_recover,
    };
    assert(e@.context =~= seq![origin@]);
    e
}

/// What can go wrong in a resolution, as the resolver's callers name it.
#[derive(Debug)]
pub enum ResolutionError {
    ComponentNotFound(String),
    VersionConflict(String),
    CyclicDependency(String),
    MaxIterationsExceeded,
    GraphValidationFailed(String),
}

impl ResolutionError {
    /// The error in words.
    pub open spec fn text(self) -> Seq<char> {
        match self {
            ResolutionError::ComponentNotFound(id) => "Component not found: "@ + id@,
            ResolutionError::VersionConflict(m) => "Version conflict: "@ + m@,
            ResolutionError::CyclicDependency(m) => "Cyclic dependency detected: "@ + m@,
            ResolutionError::MaxIterationsExceeded => "Maximum resolution iterations exceeded"@,
            ResolutionError::GraphValidationFailed(m) => "Graph validation failed: "@ + m@,
        }
    }

    /// The status code that stands for the error.
    pub open spec fn code(self) -> u32 {
        match self {
            ResolutionError::ComponentNotFound(_) => 404,
            ResolutionError::VersionConflict(_) => 409,
            ResolutionError::CyclicDependency(_) => 508,
            ResolutionError::MaxIterationsExceeded => 503,
            ResolutionError::GraphValidationFailed(_) => 422,
        }
    }

    /// The stress that the error starts with, and whether a fallback may
    /// recover from it: a conflict or a breached cap may be recovered from,
    /// a missing component, a cycle or a graph out of order may not.
    pub open spec fn weight(self) -> (u64, bool) {
        match self {
            ResolutionError::ComponentNotFound(_) => (MISSING_STRESS, false),
            ResolutionError::VersionConflict(_) => (INCOMPATIBLE_STRESS, true),
            ResolutionError::CyclicDependency(_) => (EXHAUSTED_STRESS, false),
            ResolutionError::MaxIterationsExceeded => (PATHFIND_STRESS, true),
            ResolutionError::GraphValidationFailed(_) => (VALIDATE_STRESS, false),
        }
    }

    /// The bubbling error that the error becomes: a resolving error without
    /// context.
    pub open spec fn bubbling(self) -> BubblingErrorView {
        BubblingErrorView {
            kind: ErrorKind::Resolving,
            message: self.text(),
            context: Seq::empty(),
            stress_level: self.weight().0 as nat,
            can_recover: self.weight().1,
        }
    }

    /// Computes `text`.
    pub fn to_string(&self) -> (s: String)
        ensures
            s@ == self.text(),
    {
        match self {
            ResolutionError::ComponentNotFound(id) => String::from_str(
                "Component not found: ",
            ).concat(id.as_str()),
            ResolutionError::VersionConflict(m) => String::from_str("Version conflict: ").concat(
                m.as_str(),
            ),
            ResolutionError::CyclicDependency(m) => String::from_str(
                "Cyclic dependency detected: ",
            ).concat(m.as_str()),
            ResolutionError::MaxIterationsExceeded => String::from_str(
                "Maximum resolution iterations exceeded",
            ),
            ResolutionError::GraphValidationFailed(m) => String::from_str(
                "Graph validation failed: ",
            ).concat(m.as_str()),
        }
    }

    /// Computes `code`.
    pub fn status_code(&self) -> (c: u32)
        ensures
            c == self.code(),
    {
        match self {
            ResolutionError::ComponentNotFound(_) => 404,
            ResolutionError::VersionConflict(_) => 409,
            ResolutionError::CyclicDependency(_) => 508,
            ResolutionError::MaxIterationsExceeded => 503,
            ResolutionError::GraphValidationFailed(_) => 422,
        }
    }

    /// Computes `bubbling`.
    pub fn into_bubbling(self) -> (e: BubblingError)
        ensures
            e@ == self.bubbling(),
    {
        let message = self.to_string();
        let (stress, can_recover) = match &self {
            ResolutionError::ComponentNotFound(_) => (MISSING_STRESS, false),
            ResolutionError::VersionConflict(_) => (INCOMPATIBLE_STRESS, true),
            ResolutionError::CyclicDependency(_) => (EXHAUSTED_STRESS, false),
            ResolutionError::MaxIterationsExceeded => (PATHFIND_STRESS, true),
            ResolutionError::GraphValidationFailed(_) => (VALIDATE_STRESS, false),
        };
        BubblingError::new(VerbNounError::ResolvingError(message), stress, can_recover)
    }
}

} // verus!
