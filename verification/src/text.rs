//! Character-level helpers shared by the parsers and renderers of this crate:
//! searching, slicing, decimal numbers and comparison of character sequences.

use vstd::prelude::*;

verus! {

/// The characters of `s`, in order.
pub fn chars_of(s: &str) -> (v: Vec<char>)
    ensures
        v@ == s@,
{
    let mut v: Vec<char> = Vec::new();
    for c in it: s.chars()
        invariant
            v@.len() == it.index(),
            it.seq() == s@,
            forall|j: int| 0 <= j < v@.len() ==> v@[j] == it.seq()[j],
    {
        v.push(c);
    }
    assert(v@ =~= s@);
    v
}

/// The code point of `c`.
pub fn code_point(c: char) -> (r: u32)
    ensures
        r as int == c as int,
{
    c as u32
}

/// The first position at or after `from` where `c` occurs in `s`, or `s.len()`
/// when `c` does not occur there.
pub open spec fn first_index(s: Seq<char>, c: char, from: int) -> int
    decreases s.len() - from,
{
    if from < 0 || from >= s.len() {
        s.len() as int
    } else if s[from] == c {
        from
    } else {
        first_index(s, c, from + 1)
    }
}

/// `first_index` is a position in range, holds `c` when it is inside the
/// sequence, and no earlier position from `from` on holds `c`.
pub proof fn lemma_first_index(s: Seq<char>, c: char, from: int)
    requires
        0 <= from <= s.len(),
    ensures
        from <= first_index(s, c, from) <= s.len(),
        first_index(s, c, from) < s.len() ==> s[first_index(s, c, from)] == c,
        forall|j: int| from <= j < first_index(s, c, from) ==> s[j] != c,
    decreases s.len() - from,
{
    if from < s.len() && s[from] != c {
        lemma_first_index(s, c, from + 1);
    }
}

/// A position that holds `c`, with none before it from `from` on, is the
/// first index.
pub proof fn lemma_first_index_unique(s: Seq<char>, c: char, from: int, at: int)
    requires
        0 <= from <= at <= s.len(),
        at < s.len() ==> s[at] == c,
        forall|j: int| from <= j < at ==> s[j] != c,
    ensures
        first_index(s, c, from) == at,
    decreases at - from,
{
    if from < at {
        lemma_first_index_unique(s, c, from + 1, at);
    }
}

/// Whether `c` occurs in `s`.
pub open spec fn has_char(s: Seq<char>, c: char) -> bool {
    first_index(s, c, 0) < s.len()
}

/// `has_char` says exactly that some position holds `c`.
pub proof fn lemma_has_char(s: Seq<char>, c: char)
    ensures
        has_char(s, c) <==> exists|j: int| 0 <= j < s.len() && s[j] == c,
{
    lemma_first_index(s, c, 0);
    if has_char(s, c) {
        assert(s[first_index(s, c, 0)] == c);
    }
}

/// Finds the first `c` in `s[from..to]`; returns `to` when there is none.
pub fn find_char(s: &Vec<char>, from: usize, to: usize, c: char) -> (at: usize)
    requires
        from <= to <= s@.len(),
    ensures
        from <= at <= to,
        at - from == first_index(s@.subrange(from as int, to as int), c, 0),
{
    let ghost part = s@.subrange(from as int, to as int);
    let mut i: usize = from;
    while i < to && s[i] != c
        invariant
            from <= i <= to <= s@.len(),
            part == s@.subrange(from as int, to as int),
            forall|j: int| 0 <= j < i - from ==> part[j] != c,
        decreases to - i,
    {
        i += 1;
    }
    proof {
        lemma_first_index_unique(part, c, 0, i - from);
    }
    i
}

/// Copies `s[from..to]` into a vector of its own.
pub fn slice_chars(s: &Vec<char>, from: usize, to: usize) -> (v: Vec<char>)
    requires
        from <= to <= s@.len(),
    ensures
        v@ == s@.subrange(from as int, to as int),
{
    let mut v: Vec<char> = Vec::new();
    let mut i: usize = from;
    while i < to
        invariant
            from <= i <= to <= s@.len(),
            v@ == s@.subrange(from as int, i as int),
        decreases to - i,
    {
        v.push(s[i]);
        proof {
            assert(v@ =~= s@.subrange(from as int, i + 1));
        }
        i += 1;
    }
    v
}

/// Whether the two character sequences are the same.
pub fn same_chars(a: &Vec<char>, b: &Vec<char>) -> (r: bool)
    ensures
        r == (a@ == b@),
{
    if a.len() != b.len() {
        return false;
    }
    let mut i: usize = 0;
    while i < a.len()
        invariant
            i <= a@.len(),
            a@.len() == b@.len(),
            forall|j: int| 0 <= j < i ==> a@[j] == b@[j],
        decreases a@.len() - i,
    {
        if a[i] != b[i] {
            return false;
        }
        i += 1;
    }
    assert(a@ =~= b@);
    true
}

/// Lexicographic order of two character sequences by code point:
/// `-1`, `0` or `1` as `a` sorts before, with or after `b`.
pub open spec fn compare_chars(a: Seq<char>, b: Seq<char>) -> int
    decreases a.len(),
{
    if a.len() == 0 && b.len() == 0 {
        0
    } else if a.len() == 0 {
        -1
    } else if b.len() == 0 {
        1
    } else if (a[0] as int) < (b[0] as int) {
        -1
    } else if (a[0] as int) > (b[0] as int) {
        1
    } else {
        compare_chars(a.drop_first(), b.drop_first())
    }
}

/// The order is antisymmetric.
pub proof fn lemma_compare_chars_antisymmetric(a: Seq<char>, b: Seq<char>)
    ensures
        compare_chars(a, b) == -compare_chars(b, a),
    decreases a.len(),
{
    if a.len() > 0 && b.len() > 0 && a[0] as int == b[0] as int {
        lemma_compare_chars_antisymmetric(a.drop_first(), b.drop_first());
    }
}

/// Computes `compare_chars`.
pub fn compare_char_vecs(a: &Vec<char>, b: &Vec<char>) -> (r: i32)
    ensures
        r == compare_chars(a@, b@),
{
    let mut i: usize = 0;
    proof {
        assert(a@.skip(0) =~= a@);
        assert(b@.skip(0) =~= b@);
    }
    while i < a.len() && i < b.len()
        invariant
            i <= a@.len(),
            i <= b@.len(),
            compare_chars(a@, b@) == compare_chars(a@.skip(i as int), b@.skip(i as int)),
        decreases a@.len() - i,
    {
        let x: u32 = code_point(a[i]);
        let y: u32 = code_point(b[i]);
        proof {
            assert(a@.skip(i as int)[0] == a@[i as int]);
            assert(b@.skip(i as int)[0] == b@[i as int]);
            assert(a@.skip(i as int).drop_first() =~= a@.skip(i + 1));
            assert(b@.skip(i as int).drop_first() =~= b@.skip(i + 1));
        }
        if x < y {
            return -1;
        }
        if x > y {
            return 1;
        }
        i += 1;
    }
    if i < a.len() {
        1
    } else if i < b.len() {
        -1
    } else {
        0
    }
}

/// Whether `c` is one of the ASCII digits.
pub open spec fn is_digit(c: char) -> bool {
    0x30 <= c as int <= 0x39
}

/// The value of an ASCII digit.
pub open spec fn digit_value(c: char) -> nat {
    (c as int - 0x30) as nat
}

/// Whether every character of `s` is an ASCII digit.
pub open spec fn all_digits(s: Seq<char>) -> bool {
    forall|i: int| 0 <= i < s.len() ==> is_digit(#[trigger] s[i])
}

/// The number that a sequence of digits denotes in base ten.
pub open spec fn digits_value(s: Seq<char>) -> nat
    decreases s.len(),
{
    if s.len() == 0 {
        0
    } else {
        digits_value(s.drop_last()) * 10 + digit_value(s.last())
    }
}

/// Why a text is not a number in range.
#[derive(Clone, Copy, Debug, PartialEq, Eq, Structural)]
pub enum NumberError {
    /// The text is empty.
    Empty,
    /// The text holds something other than digits after its optional `+`.
    InvalidDigit,
    /// The digits denote a number above the limit.
    Overflow,
}

/// The text without its optional leading `+`.
pub open spec fn unsigned_part(s: Seq<char>) -> Seq<char> {
    if s.len() > 0 && s[0] == '+' {
        s.drop_first()
    } else {
        s
    }
}

/// Reads `s` as a non-negative decimal integer of at most `max`: an optional
/// `+`, then one or more ASCII digits.
pub open spec fn parse_number_spec(s: Seq<char>, max: nat) -> Result<nat, NumberError> {
    let body = unsigned_part(s);
    if s.len() == 0 {
        Err(NumberError::Empty)
    } else if body.len() == 0 || !all_digits(body) {
        Err(NumberError::InvalidDigit)
    } else if digits_value(body) > max {
        Err(NumberError::Overflow)
    } else {
        Ok(digits_value(body))
    }
}

/// A prefix of a digit sequence denotes no more than the whole.
pub proof fn lemma_digits_prefix_le(s: Seq<char>, n: int)
    requires
        0 <= n <= s.len(),
    ensures
        digits_value(s.subrange(0, n)) <= digits_value(s),
    decreases s.len() - n,
{
    if n == s.len() {
        assert(s.subrange(0, n) =~= s);
    } else {
        lemma_digits_prefix_le(s.drop_last(), n);
        assert(s.drop_last().subrange(0, n) =~= s.subrange(0, n));
    }
}

/// Reads `s[from..to]` as a number of at most `max`.
pub fn parse_number(s: &Vec<char>, from: usize, to: usize, max: u64) -> (r: Result<
    u64,
    NumberError,
>)
    requires
        from <= to <= s@.len(),
    ensures
        match parse_number_spec(s@.subrange(from as int, to as int), max as nat) {
            Ok(n) => r == Ok::<u64, NumberError>(n as u64) && n <= max,
            Err(e) => r == Err::<u64, NumberError>(e),
        },
{
    let ghost text = s@.subrange(from as int, to as int);
    if from == to {
        return Err(NumberError::Empty);
    }
    let start: usize = if s[from] == '+' {
        from + 1
    } else {
        from
    };
    let ghost body = unsigned_part(text);
    proof {
        assert(text[0] == s@[from as int]);
        assert(body =~= s@.subrange(start as int, to as int));
    }
    if start == to {
        return Err(NumberError::InvalidDigit);
    }
    let mut i: usize = start;
    while i < to
        invariant
            from < to,
            start < to,
            start <= i <= to <= s@.len(),
            text == s@.subrange(from as int, to as int),
            body == unsigned_part(text),
            body == s@.subrange(start as int, to as int),
            forall|j: int| 0 <= j < i - start ==> is_digit(#[trigger] body[j]),
        decreases to - i,
    {
        let c: u32 = code_point(s[i]);
        proof {
            assert(body[i - start] == s@[i as int]);
        }
        if c < 0x30 || c > 0x39 {
            proof {
                assert(!is_digit(body[i - start]));
            }
            return Err(NumberError::InvalidDigit);
        }
        i += 1;
    }
    let mut acc: u64 = 0;
    let mut k: usize = start;
    while k < to
        invariant
            from < to,
            start < to,
            start <= k <= to <= s@.len(),
            text == s@.subrange(from as int, to as int),
            body == unsigned_part(text),
            body == s@.subrange(start as int, to as int),
            all_digits(body),
            acc == digits_value(body.subrange(0, k - start)),
            acc <= max,
        decreases to - k,
    {
        proof {
            assert(body[k - start] == s@[k as int]);
            assert(is_digit(body[k - start]));
        }
        let d: u64 = (code_point(s[k]) - 0x30) as u64;
        proof {
            let next = body.subrange(0, k - start + 1);
            assert(next.drop_last() =~= body.subrange(0, k - start));
            assert(next.last() == s@[k as int]);
            assert(digits_value(next) == acc * 10 + d);
            lemma_digits_prefix_le(body, k - start + 1);
        }
        if d > max || acc > (max - d) / 10 {
            proof {
                assert(acc * 10 + d > max) by (nonlinear_arith)
                    requires
                        d > max || (d <= max && acc > (max - d) / 10),
                        acc >= 0,
                        d <= 9,
                {
                }
            }
            return Err(NumberError::Overflow);
        }
        proof {
            assert(acc * 10 + d <= max) by (nonlinear_arith)
                requires
                    acc <= (max - d) / 10,
                    d <= max,
                    d <= 9,
            {
            }
        }
        acc = acc * 10 + d;
        k += 1;
    }
    proof {
        assert(body.subrange(0, to - start) =~= body);
    }
    Ok(acc)
}

/// The character of a digit below ten.
pub open spec fn digit_char(d: nat) -> char {
    if d == 0 {
        '0'
    } else if d == 1 {
        '1'
    } else if d == 2 {
        '2'
    } else if d == 3 {
        '3'
    } else if d == 4 {
        '4'
    } else if d == 5 {
        '5'
    } else if d == 6 {
        '6'
    } else if d == 7 {
        '7'
    } else if d == 8 {
        '8'
    } else {
        '9'
    }
}

/// The decimal digits of `n`, without leading zeros.
pub open spec fn decimal(n: nat) -> Seq<char>
    decreases n,
{
    if n < 10 {
        seq![digit_char(n)]
    } else {
        decimal(n / 10).push(digit_char(n % 10))
    }
}

/// The digits of a number are digits, at least one of them, and denote it.
pub proof fn lemma_decimal(n: nat)
    ensures
        decimal(n).len() > 0,
        all_digits(decimal(n)),
        digits_value(decimal(n)) == n,
    decreases n,
{
    if n < 10 {
        let s = decimal(n);
        assert(s.drop_last() =~= Seq::<char>::empty());
        assert(digits_value(s.drop_last()) == 0);
        assert(s.last() == digit_char(n));
        assert(digit_value(digit_char(n)) == n);
    } else {
        lemma_decimal(n / 10);
        let s = decimal(n);
        assert(s.drop_last() =~= decimal(n / 10));
        assert(s.last() == digit_char(n % 10));
        assert(digit_value(digit_char(n % 10)) == n % 10);
        assert forall|i: int| 0 <= i < s.len() implies is_digit(#[trigger] s[i]) by {
            if i < s.len() - 1 {
                assert(s[i] == decimal(n / 10)[i]);
            }
        }
    }
}

/// Reading the digits of a number gives the number back.
pub proof fn lemma_parse_decimal(n: nat, max: nat)
    requires
        n <= max,
    ensures
        parse_number_spec(decimal(n), max) == Ok::<nat, NumberError>(n),
{
    lemma_decimal(n);
    assert(is_digit(decimal(n)[0]));
}

/// The one-character text of a digit.
fn digit_text(d: u64) -> (r: &'static str)
    requires
        d < 10,
    ensures
        r@ == seq![digit_char(d as nat)],
{
    proof {
        reveal_strlit("0");
        reveal_strlit("1");
        reveal_strlit("2");
        reveal_strlit("3");
        reveal_strlit("4");
        reveal_strlit("5");
        reveal_strlit("6");
        reveal_strlit("7");
        reveal_strlit("8");
        reveal_strlit("9");
    }
    let r: &'static str = if d == 0 {
        "0"
    } else if d == 1 {
        "1"
    } else if d == 2 {
        "2"
    } else if d == 3 {
        "3"
    } else if d == 4 {
        "4"
    } else if d == 5 {
        "5"
    } else if d == 6 {
        "6"
    } else if d == 7 {
        "7"
    } else if d == 8 {
        "8"
    } else {
        "9"
    };
    assert(r@ =~= seq![digit_char(d as nat)]);
    r
}

/// Writes `n` in decimal.
pub fn render_number(n: u64) -> (r: String)
    ensures
        r@ == decimal(n as nat),
    decreases n,
{
    if n < 10 {
        String::from_str(digit_text(n))
    } else {
        let head = render_number(n / 10);
        let r = head.concat(digit_text(n % 10));
        assert(r@ =~= decimal(n as nat));
        r
    }
}

/// Appends `c` to `s` with `String::push`, which the standard library
/// documents as appending the given character to the end of the string.
#[verifier::external_body]
fn push_char(s: &mut String, c: char)
    ensures
        final(s)@ == old(s)@.push(c),
{
    s.push(c)
}

/// The string made of the characters `v`.
pub fn string_of(v: &Vec<char>) -> (r: String)
    ensures
        r@ == v@,
{
    let mut r = String::new();
    let mut i: usize = 0;
    while i < v.len()
        invariant
            i <= v@.len(),
            r@ == v@.subrange(0, i as int),
        decreases v@.len() - i,
    {
        push_char(&mut r, v[i]);
        proof {
            assert(r@ =~= v@.subrange(0, i + 1));
        }
        i += 1;
    }
    proof {
        assert(v@.subrange(0, v@.len() as int) =~= v@);
    }
    r
}

/// The part of `s` before the first `c`, and the part after it when `c`
/// occurs.
pub open spec fn cut(s: Seq<char>, c: char) -> (Seq<char>, Option<Seq<char>>) {
    let i = first_index(s, c, 0);
    if i < s.len() {
        (s.subrange(0, i), Some(s.subrange(i + 1, s.len() as int)))
    } else {
        (s, None)
    }
}

/// Computes `cut`.
pub fn cut_at(s: &Vec<char>, c: char) -> (r: (Vec<char>, Option<Vec<char>>))
    ensures
        r.0@ == cut(s@, c).0,
        match r.1 {
            Some(rest) => cut(s@, c).1 == Some(rest@),
            None => cut(s@, c).1 is None,
        },
{
    proof {
        assert(s@.subrange(0, s@.len() as int) =~= s@);
    }
    let i = find_char(s, 0, s.len(), c);
    if i < s.len() {
        (slice_chars(s, 0, i), Some(slice_chars(s, i + 1, s.len())))
    } else {
        (slice_chars(s, 0, i), None)
    }
}

/// Whether `c` has the Unicode property `White_Space`.
pub open spec fn is_space(c: char) -> bool {
    let n = c as int;
    ||| 0x09 <= n <= 0x0D
    ||| n == 0x20
    ||| n == 0x85
    ||| n == 0xA0
    ||| n == 0x1680
    ||| 0x2000 <= n <= 0x200A
    ||| n == 0x2028
    ||| n == 0x2029
    ||| n == 0x202F
    ||| n == 0x205F
    ||| n == 0x3000
}

/// Computes `is_space`.
pub fn is_whitespace(c: char) -> (r: bool)
    ensures
        r == is_space(c),
{
    let n: u32 = code_point(c);
    (0x09 <= n && n <= 0x0D) || n == 0x20 || n == 0x85 || n == 0xA0 || n == 0x1680 || (0x2000 <= n
        && n <= 0x200A) || n == 0x2028 || n == 0x2029 || n == 0x202F || n == 0x205F || n == 0x3000
}

/// `s` without the whitespace at its front.
pub open spec fn trim_front(s: Seq<char>) -> Seq<char>
    decreases s.len(),
{
    if s.len() > 0 && is_space(s[0]) {
        trim_front(s.drop_first())
    } else {
        s
    }
}

/// `s` without the whitespace at its back.
pub open spec fn trim_back(s: Seq<char>) -> Seq<char>
    decreases s.len(),
{
    if s.len() > 0 && is_space(s.last()) {
        trim_back(s.drop_last())
    } else {
        s
    }
}

/// `s` without the whitespace at either end.
pub open spec fn trimmed(s: Seq<char>) -> Seq<char> {
    trim_back(trim_front(s))
}

/// Computes `trimmed`.
pub fn trim_chars(s: &Vec<char>) -> (r: Vec<char>)
    ensures
        r@ == trimmed(s@),
{
    let mut lo: usize = 0;
    proof {
        assert(s@.subrange(0, s@.len() as int) =~= s@);
    }
    while lo < s.len() && is_whitespace(s[lo])
        invariant
            lo <= s@.len(),
            trim_front(s@) == trim_front(s@.subrange(lo as int, s@.len() as int)),
        decreases s@.len() - lo,
    {
        proof {
            let cur = s@.subrange(lo as int, s@.len() as int);
            assert(cur[0] == s@[lo as int]);
            assert(cur.drop_first() =~= s@.subrange(lo + 1, s@.len() as int));
        }
        lo += 1;
    }
    proof {
        let cur = s@.subrange(lo as int, s@.len() as int);
        if lo < s@.len() {
            assert(cur[0] == s@[lo as int]);
        }
        assert(trim_front(s@) == cur);
    }
    let ghost front = s@.subrange(lo as int, s@.len() as int);
    let mut hi: usize = s.len();
    while hi > lo && is_whitespace(s[hi - 1])
        invariant
            lo <= hi <= s@.len(),
            front == s@.subrange(lo as int, s@.len() as int),
            trim_back(front) == trim_back(s@.subrange(lo as int, hi as int)),
        decreases hi - lo,
    {
        proof {
            let cur = s@.subrange(lo as int, hi as int);
            assert(cur.last() == s@[hi - 1]);
            assert(cur.drop_last() =~= s@.subrange(lo as int, hi - 1));
        }
        hi -= 1;
    }
    proof {
        let cur = s@.subrange(lo as int, hi as int);
        if hi > lo {
            assert(cur.last() == s@[hi - 1]);
        }
        assert(trim_back(front) == cur);
    }
    slice_chars(s, lo, hi)
}

/// The order has one of three signs.
pub proof fn lemma_compare_chars_sign(a: Seq<char>, b: Seq<char>)
    ensures
        -1 <= compare_chars(a, b) <= 1,
    decreases a.len(),
{
    if a.len() > 0 && b.len() > 0 && a[0] as int == b[0] as int {
        lemma_compare_chars_sign(a.drop_first(), b.drop_first());
    }
}

/// What stands before the first `c` holds no `c`, and where nothing follows
/// a `c`, there is none at all.
pub proof fn lemma_cut_parts(s: Seq<char>, c: char)
    ensures
        !has_char(cut(s, c).0, c),
        cut(s, c).1 is None ==> !has_char(s, c),
        cut(s, c).1 matches Some(rest) ==> s == cut(s, c).0 + seq![c] + rest,
{
    lemma_first_index(s, c, 0);
    let head = cut(s, c).0;
    lemma_has_char(head, c);
    if cut(s, c).1 is Some {
        let i = first_index(s, c, 0);
        assert(s =~= head + seq![c] + s.subrange(i + 1, s.len() as int));
    }
}

/// A text without `c`, then `c`, then anything, is cut at that `c`.
pub proof fn lemma_cut_joined(a: Seq<char>, c: char, b: Seq<char>)
    requires
        !has_char(a, c),
    ensures
        cut(a + seq![c] + b, c) == (a, Some(b)),
{
    let s = a + seq![c] + b;
    lemma_has_char(a, c);
    assert forall|j: int| 0 <= j < a.len() implies s[j] != c by {
        assert(s[j] == a[j]);
    }
    assert(s[a.len() as int] == c);
    lemma_first_index_unique(s, c, 0, a.len() as int);
    assert(s.subrange(0, a.len() as int) =~= a);
    assert(s.subrange(a.len() as int + 1, s.len() as int) =~= b);
}

/// A part of a text without `c` holds no `c`.
pub proof fn lemma_part_lacks(s: Seq<char>, c: char, from: int, to: int)
    requires
        !has_char(s, c),
        0 <= from <= to <= s.len(),
    ensures
        !has_char(s.subrange(from, to), c),
{
    lemma_has_char(s, c);
    lemma_has_char(s.subrange(from, to), c);
    if has_char(s.subrange(from, to), c) {
        let j = choose|j: int| 0 <= j < to - from && s.subrange(from, to)[j] == c;
        assert(s[from + j] == c);
    }
}

/// Two texts without `c` make a text without `c`.
pub proof fn lemma_joined_lacks(a: Seq<char>, b: Seq<char>, c: char)
    requires
        !has_char(a, c),
        !has_char(b, c),
    ensures
        !has_char(a + b, c),
{
    lemma_has_char(a, c);
    lemma_has_char(b, c);
    lemma_has_char(a + b, c);
    if has_char(a + b, c) {
        let j = choose|j: int| 0 <= j < (a + b).len() && (a + b)[j] == c;
        if j < a.len() {
            assert(a[j] == c);
        } else {
            assert(b[j - a.len()] == c);
        }
    }
}

/// The digits of a number hold nothing but digits.
pub proof fn lemma_decimal_lacks(n: nat, c: char)
    requires
        !is_digit(c),
    ensures
        !has_char(decimal(n), c),
{
    lemma_decimal(n);
    lemma_has_char(decimal(n), c);
    if has_char(decimal(n), c) {
        let j = choose|j: int| 0 <= j < decimal(n).len() && decimal(n)[j] == c;
        assert(is_digit(decimal(n)[j]));
    }
}

} // verus!
