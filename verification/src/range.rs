//! Version ranges: comparator sets joined by `||`, each a run of comparators
//! separated by whitespace, each comparator an operator and a version.

use crate::error::BubblingError;
use crate::error::BubblingErrorView;
use crate::error::ErrorKind;
use crate::error::VerbNounError;
use crate::error::PARSE_STRESS;
use crate::text::chars_of;
use crate::text::is_space;
use crate::text::is_whitespace;
use crate::text::slice_chars;
use crate::version::compare_model;
use crate::version::parse_error;
use crate::version::parse_error_view;
use crate::version::parse_model;
use crate::version::ParseFailure;
use crate::version::SemverX;
use crate::version::SemverXView;
use vstd::prelude::*;

verus! {

/// How a version is held against a bound.
#[derive(Clone, Copy, Debug, PartialEq, Eq, Structural)]
pub enum Operator {
    Equal,
    Greater,
    Less,
    GreaterOrEqual,
    LessOrEqual,
}

/// The operator that a comparator starts with, and the rest of it. A
/// comparator that starts with none of `>=`, `<=`, `>`, `<`, `=` asks for
/// equality.
pub open spec fn split_operator(token: Seq<char>) -> (Operator, Seq<char>) {
    if token.len() >= 2 && token[0] == '>' && token[1] == '=' {
        (Operator::GreaterOrEqual, token.skip(2))
    } else if token.len() >= 2 && token[0] == '<' && token[1] == '=' {
        (Operator::LessOrEqual, token.skip(2))
    } else if token.len() >= 1 && token[0] == '>' {
        (Operator::Greater, token.skip(1))
    } else if token.len() >= 1 && token[0] == '<' {
        (Operator::Less, token.skip(1))
    } else if token.len() >= 1 && token[0] == '=' {
        (Operator::Equal, token.skip(1))
    } else {
        (Operator::Equal, token)
    }
}

/// Whether a version whose order against the bound has the sign `sign` meets
/// the operator.
pub open spec fn operator_holds(op: Operator, sign: int) -> bool {
    match op {
        Operator::Equal => sign == 0,
        Operator::Greater => sign > 0,
        Operator::Less => sign < 0,
        Operator::GreaterOrEqual => sign >= 0,
        Operator::LessOrEqual => sign <= 0,
    }
}

/// The texts between the `||` of `s[from..]`, the first of them led by
/// `current`. A `||` is taken at the first place where two bars meet.
pub open spec fn sets_from(s: Seq<char>, from: int, current: Seq<char>) -> Seq<Seq<char>>
    decreases s.len() - from,
{
    if from < 0 || from >= s.len() {
        seq![current]
    } else if s[from] == '|' && from + 1 < s.len() && s[from + 1] == '|' {
        seq![current] + sets_from(s, from + 2, Seq::empty())
    } else {
        sets_from(s, from + 1, current.push(s[from]))
    }
}

/// The comparator sets of a range, as texts.
pub open spec fn comparator_sets(range: Seq<char>) -> Seq<Seq<char>> {
    sets_from(range, 0, Seq::empty())
}

/// The word that `current` has grown to, if it holds anything.
pub open spec fn finished(current: Seq<char>) -> Seq<Seq<char>> {
    if current.len() > 0 {
        seq![current]
    } else {
        Seq::empty()
    }
}

/// The runs of characters other than whitespace in `s[from..]`, the first of
/// them led by `current`.
pub open spec fn words_from(s: Seq<char>, from: int, current: Seq<char>) -> Seq<Seq<char>>
    decreases s.len() - from,
{
    if from < 0 || from >= s.len() {
        finished(current)
    } else if is_space(s[from]) {
        finished(current) + words_from(s, from + 1, Seq::empty())
    } else {
        words_from(s, from + 1, current.push(s[from]))
    }
}

/// The comparators of a comparator set, as texts.
pub open spec fn words(set: Seq<char>) -> Seq<Seq<char>> {
    words_from(set, 0, Seq::empty())
}

/// Whether `v` meets the comparator `token`, or why `token` is no comparator.
pub open spec fn comparator_model(v: SemverXView, token: Seq<char>) -> Result<bool, ParseFailure> {
    let (op, rest) = split_operator(token);
    match parse_model(rest) {
        Ok(bound) => Ok(operator_holds(op, compare_model(v, bound))),
        Err(f) => Err(f),
    }
}

/// Whether `v` meets every comparator of `tokens`, or why the first bad
/// comparator among them is bad.
pub open spec fn set_model(v: SemverXView, tokens: Seq<Seq<char>>) -> Result<bool, ParseFailure>
    decreases tokens.len(),
{
    if tokens.len() == 0 {
        Ok(true)
    } else {
        match comparator_model(v, tokens[0]) {
            Err(f) => Err(f),
            Ok(first) => match set_model(v, tokens.drop_first()) {
                Err(f) => Err(f),
                Ok(rest) => Ok(first && rest),
            },
        }
    }
}

/// Why a text is not a range.
#[derive(Clone, Copy, Debug, PartialEq, Eq, Structural)]
pub enum RangeFailure {
    /// A comparator set holds no comparator.
    EmptySet,
    /// A comparator's version cannot be read.
    BadVersion(ParseFailure),
}

/// Whether `v` meets one of the comparator sets `sets`, or why the first bad
/// set among them is bad.
pub open spec fn sets_model(v: SemverXView, sets: Seq<Seq<char>>) -> Result<bool, RangeFailure>
    decreases sets.len(),
{
    if sets.len() == 0 {
        Ok(false)
    } else if words(sets[0]).len() == 0 {
        Err(RangeFailure::EmptySet)
    } else {
        match set_model(v, words(sets[0])) {
            Err(f) => Err(RangeFailure::BadVersion(f)),
            Ok(first) => match sets_model(v, sets.drop_first()) {
                Err(f) => Err(f),
                Ok(rest) => Ok(first || rest),
            },
        }
    }
}

/// Whether `v` lies in `range`: the whole range is read first, and a range
/// that cannot be read is an error whatever `v` is.
pub open spec fn satisfies_model(v: SemverXView, range: Seq<char>) -> Result<bool, RangeFailure> {
    sets_model(v, comparator_sets(range))
}

/// The error that a range failure is reported as.
pub open spec fn range_error_view(f: RangeFailure) -> BubblingErrorView {
    match f {
        RangeFailure::EmptySet => BubblingErrorView {
            kind: ErrorKind::Parsing,
            message: "Empty comparator set"@,
            context: Seq::empty(),
            stress_level: PARSE_STRESS as nat,
            can_recover: false,
        },
        RangeFailure::BadVersion(p) => parse_error_view(p),
    }
}

/// The views of a sequence of character vectors.
pub open spec fn rows(v: Seq<Vec<char>>) -> Seq<Seq<char>> {
    Seq::new(v.len(), |i: int| v[i]@)
}

/// Cuts a range at its `||`.
pub fn split_sets(range: &Vec<char>) -> (r: Vec<Vec<char>>)
    ensures
        rows(r@) == comparator_sets(range@),
{
    let mut done: Vec<Vec<char>> = Vec::new();
    let mut current: Vec<char> = Vec::new();
    let mut i: usize = 0;
    proof {
        assert(rows(done@) =~= Seq::<Seq<char>>::empty());
        assert(rows(done@) + sets_from(range@, 0, current@) =~= comparator_sets(range@));
    }
    while i < range.len()
        invariant
            i <= range@.len(),
            comparator_sets(range@) == rows(done@) + sets_from(range@, i as int, current@),
        decreases range@.len() - i,
    {
        if range[i] == '|' && i + 1 < range.len() && range[i + 1] == '|' {
            let ghost before = rows(done@);
            let ghost cur = current@;
            done.push(current);
            current = Vec::new();
            proof {
                assert(rows(done@) =~= before + seq![cur]);
                assert(before + (seq![cur] + sets_from(range@, i + 2, Seq::empty())) =~= (before
                    + seq![cur]) + sets_from(range@, i + 2, Seq::empty()));
            }
            i += 2;
        } else {
            current.push(range[i]);
            i += 1;
        }
    }
    let ghost before = rows(done@);
    let ghost cur = current@;
    done.push(current);
    proof {
        assert(rows(done@) =~= before + seq![cur]);
    }
    done
}

/// Cuts a comparator set at its whitespace.
pub fn split_words(set: &Vec<char>) -> (r: Vec<Vec<char>>)
    ensures
        rows(r@) == words(set@),
{
    let mut done: Vec<Vec<char>> = Vec::new();
    let mut current: Vec<char> = Vec::new();
    let mut i: usize = 0;
    proof {
        assert(rows(done@) =~= Seq::<Seq<char>>::empty());
        assert(rows(done@) + words_from(set@, 0, current@) =~= words(set@));
    }
    while i < set.len()
        invariant
            i <= set@.len(),
            words(set@) == rows(done@) + words_from(set@, i as int, current@),
        decreases set@.len() - i,
    {
        if is_whitespace(set[i]) {
            let ghost before = rows(done@);
            let ghost cur = current@;
            if current.len() > 0 {
                done.push(current);
                current = Vec::new();
            }
            proof {
                assert(rows(done@) =~= before + finished(cur));
                assert(current@ =~= Seq::<char>::empty());
                assert(before + (finished(cur) + words_from(set@, i + 1, Seq::empty())) =~= (before
                    + finished(cur)) + words_from(set@, i + 1, Seq::empty()));
            }
        } else {
            current.push(set[i]);
        }
        i += 1;
    }
    let ghost before = rows(done@);
    let ghost cur = current@;
    if current.len() > 0 {
        done.push(current);
    }
    proof {
        assert(rows(done@) =~= before + finished(cur));
    }
    done
}

/// Reads the operator at the front of a comparator and returns it with the
/// place where the version starts.
pub fn read_operator(token: &Vec<char>) -> (r: (Operator, usize))
    ensures
        r.1 <= token@.len(),
        split_operator(token@) == (r.0, token@.skip(r.1 as int)),
{
    let n = token.len();
    proof {
        assert(token@.skip(0) =~= token@);
    }
    if n >= 2 && token[0] == '>' && token[1] == '=' {
        (Operator::GreaterOrEqual, 2)
    } else if n >= 2 && token[0] == '<' && token[1] == '=' {
        (Operator::LessOrEqual, 2)
    } else if n >= 1 && token[0] == '>' {
        (Operator::Greater, 1)
    } else if n >= 1 && token[0] == '<' {
        (Operator::Less, 1)
    } else if n >= 1 && token[0] == '=' {
        (Operator::Equal, 1)
    } else {
        (Operator::Equal, 0)
    }
}

/// Computes `operator_holds`.
pub fn holds(op: Operator, sign: i32) -> (r: bool)
    ensures
        r == operator_holds(op, sign as int),
{
    match op {
        Operator::Equal => sign == 0,
        Operator::Greater => sign > 0,
        Operator::Less => sign < 0,
        Operator::GreaterOrEqual => sign >= 0,
        Operator::LessOrEqual => sign <= 0,
    }
}

/// Builds the error of a range failure.
pub fn range_error(f: RangeFailure) -> (e: BubblingError)
    ensures
        e@ == range_error_view(f),
{
    match f {
        RangeFailure::EmptySet => BubblingError::new(
            VerbNounError::ParsingError(String::from_str("Empty comparator set")),
            PARSE_STRESS,
            false,
        ),
        RangeFailure::BadVersion(p) => parse_error(p),
    }
}

impl SemverX {
    /// Whether this version meets the comparator `token`.
    pub fn meets_comparator(&self, token: &Vec<char>) -> (r: Result<bool, ParseFailure>)
        ensures
            r == comparator_model(self@, token@),
    {
        let (op, start) = read_operator(token);
        let rest = slice_chars(token, start, token.len());
        proof {
            assert(token@.subrange(start as int, token@.len() as int) =~= token@.skip(start as int));
        }
        match SemverX::parse_chars(&rest) {
            Ok(bound) => Ok(holds(op, self.compare(&bound))),
            Err(f) => Err(f),
        }
    }

    /// Whether this version meets every comparator of `tokens`.
    pub fn meets_set(&self, tokens: &Vec<Vec<char>>) -> (r: Result<bool, ParseFailure>)
        ensures
            r == set_model(self@, rows(tokens@)),
    {
        let ghost all = rows(tokens@);
        let mut met: bool = true;
        let mut i: usize = 0;
        proof {
            assert(all.skip(0) =~= all);
        }
        while i < tokens.len()
            invariant
                i <= tokens@.len(),
                all == rows(tokens@),
                set_model(self@, all) == (match set_model(self@, all.skip(i as int)) {
                    Err(f) => Err::<bool, ParseFailure>(f),
                    Ok(rest) => Ok::<bool, ParseFailure>(met && rest),
                }),
            decreases tokens@.len() - i,
        {
            proof {
                assert(all.skip(i as int)[0] == tokens@[i as int]@);
                assert(all.skip(i as int).drop_first() =~= all.skip(i + 1));
            }
            match self.meets_comparator(&tokens[i]) {
                Ok(b) => {
                    met = met && b;
                },
                Err(f) => {
                    return Err(f);
                },
            }
            i += 1;
        }
        Ok(met)
    }

    /// Whether the version lies in `range`.
    pub fn satisfies(&self, range: &str) -> (r: Result<bool, BubblingError>)
        ensures
            match satisfies_model(self@, range@) {
                Ok(b) => r == Ok::<bool, BubblingError>(b),
                Err(f) => r matches Err(e) && e@ == range_error_view(f),
            },
    {
        let chars = chars_of(range);
        let sets = split_sets(&chars);
        let ghost all = rows(sets@);
        let mut met: bool = false;
        let mut i: usize = 0;
        proof {
            assert(all.skip(0) =~= all);
        }
        while i < sets.len()
            invariant
                i <= sets@.len(),
                all == rows(sets@),
                all == comparator_sets(range@),
                sets_model(self@, all) == (match sets_model(self@, all.skip(i as int)) {
                    Err(f) => Err::<bool, RangeFailure>(f),
                    Ok(rest) => Ok::<bool, RangeFailure>(met || rest),
                }),
            decreases sets@.len() - i,
        {
            proof {
                assert(all.skip(i as int)[0] == sets@[i as int]@);
                assert(all.skip(i as int).drop_first() =~= all.skip(i + 1));
            }
            let tokens = split_words(&sets[i]);
            if tokens.len() == 0 {
                return Err(range_error(RangeFailure::EmptySet));
            }
            match self.meets_set(&tokens) {
                Ok(b) => {
                    met = met || b;
                },
                Err(f) => {
                    return Err(range_error(RangeFailure::BadVersion(f)));
                },
            }
            i += 1;
        }
        Ok(met)
    }
}

/// Whether two bars meet somewhere in `s`.
pub open spec fn has_double_bar(s: Seq<char>) -> bool {
    exists|j: int| 0 <= j < s.len() - 1 && #[trigger] s[j] == '|' && s[j + 1] == '|'
}

/// A text in which no two bars meet is one comparator set.
pub proof fn lemma_sets_single(s: Seq<char>, from: int, current: Seq<char>)
    requires
        0 <= from <= s.len(),
        !has_double_bar(s),
    ensures
        sets_from(s, from, current) == seq![current + s.subrange(from, s.len() as int)],
    decreases s.len() - from,
{
    if from < s.len() {
        if s[from] == '|' && from + 1 < s.len() && s[from + 1] == '|' {
            assert(has_double_bar(s));
        }
        lemma_sets_single(s, from + 1, current.push(s[from]));
        assert(current.push(s[from]) + s.subrange(from + 1, s.len() as int) =~= current
            + s.subrange(from, s.len() as int));
    } else {
        assert(current + s.subrange(from, s.len() as int) =~= current);
    }
}

/// A text without whitespace is one word, or none when it is empty.
pub proof fn lemma_words_single(s: Seq<char>, from: int, current: Seq<char>)
    requires
        0 <= from <= s.len(),
        forall|j: int| from <= j < s.len() ==> !is_space(s[j]),
    ensures
        words_from(s, from, current) == finished(current + s.subrange(from, s.len() as int)),
    decreases s.len() - from,
{
    if from < s.len() {
        lemma_words_single(s, from + 1, current.push(s[from]));
        assert(current.push(s[from]) + s.subrange(from + 1, s.len() as int) =~= current
            + s.subrange(from, s.len() as int));
    } else {
        assert(current + s.subrange(from, s.len() as int) =~= current);
    }
}

/// A version that lies in the range `>=X` is at least `X`, for every text `X`
/// that is a single comparator's version: one without whitespace in which no
/// two bars meet.
pub proof fn lemma_at_least(v: SemverXView, x: Seq<char>)
    requires
        forall|j: int| 0 <= j < x.len() ==> !is_space(x[j]),
        !has_double_bar(x),
        satisfies_model(v, seq!['>', '='] + x) == Ok::<bool, RangeFailure>(true),
    ensures
        parse_model(x) is Ok,
        compare_model(v, parse_model(x)->Ok_0) >= 0,
{
    let range = seq!['>', '='] + x;
    assert forall|j: int| 0 <= j < range.len() implies !is_space(range[j]) by {
        if j >= 2 {
            assert(range[j] == x[j - 2]);
        }
    }
    if has_double_bar(range) {
        let j = choose|j: int| 0 <= j < range.len() - 1 && #[trigger] range[j] == '|' && range[j + 1]
            == '|';
        assert(range[j] == x[j - 2]);
        assert(range[j + 1] == x[j - 1]);
        assert(x[j - 2] == '|' && x[j - 2 + 1] == '|');
        assert(has_double_bar(x));
    }
    lemma_sets_single(range, 0, Seq::empty());
    lemma_words_single(range, 0, Seq::empty());
    assert(Seq::<char>::empty() + range.subrange(0, range.len() as int) =~= range);
    assert(comparator_sets(range) == seq![range]);
    assert(words(range) == seq![range]);
    let sets = seq![range];
    assert(sets.drop_first() =~= Seq::<Seq<char>>::empty());
    assert(sets[0] == range);
    assert(range.skip(2) =~= x);
    assert(split_operator(range) == (Operator::GreaterOrEqual, x));
    let none = Seq::<Seq<char>>::empty();
    assert(set_model(v, none) == Ok::<bool, ParseFailure>(true));
    assert(sets_model(v, none) == Ok::<bool, RangeFailure>(false));
    assert(set_model(v, sets) == (match comparator_model(v, range) {
        Err(f) => Err::<bool, ParseFailure>(f),
        Ok(first) => Ok::<bool, ParseFailure>(first),
    }));
    assert(sets_model(v, sets) == (match set_model(v, sets) {
        Err(f) => Err::<bool, RangeFailure>(RangeFailure::BadVersion(f)),
        Ok(first) => Ok::<bool, RangeFailure>(first),
    }));
}

} // verus!
