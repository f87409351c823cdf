//! Reduction of look-alike characters, and the canonical forms of strings,
//! paths and package ids that rest on it.

use crate::text::chars_of;
use crate::text::same_chars;
use crate::text::string_of;
use unicode_normalization::UnicodeNormalization;
use vstd::hash_map::StringHashMap;
use vstd::prelude::*;

verus! {

/// The text in Unicode Normalization Form C, as `unicode_normalization`
/// computes it.
pub uninterp spec fn nfc_of(text: Seq<char>) -> Seq<char>;

/// The lowercase mapping of a character, as the standard library computes
/// it: one character or more.
pub uninterp spec fn lowercase_of(c: char) -> Seq<char>;

/// `UnicodeNormalization::nfc` on a string slice, collected into a string:
/// the text in Normalization Form C.
#[verifier::external_body]
fn nfc_text(text: &str) -> (r: String)
    ensures
        r@ == nfc_of(text@),
{
    text.nfc().collect()
}

/// The small letter of an ASCII capital, and any other character as it is.
pub open spec fn ascii_lower(c: char) -> char {
    if 0x41 <= c as int <= 0x5A {
        (c as int + 0x20) as char
    } else {
        c
    }
}

/// `char::to_lowercase`, collected into a vector: the lowercase mapping of
/// the character. For an ASCII character that is one character: the small
/// letter of a capital, and any other character itself.
#[verifier::external_body]
fn lowercase_chars(c: char) -> (r: Vec<char>)
    ensures
        r@ == lowercase_of(c),
        (c as int) < 0x80 ==> r@ == seq![ascii_lower(c)],
{
    c.to_lowercase().collect()
}

/// The character that `c` is reduced to, where `c` looks like an ASCII
/// letter or cannot be seen. A character that cannot be seen is reduced to
/// the null character.
pub open spec fn homoglyph_of(c: char) -> Option<char> {
    if c == '\u{0430}' {
        Some('a')
    } else if c == '\u{0435}' {
        Some('e')
    } else if c == '\u{043E}' {
        Some('o')
    } else if c == '\u{0440}' {
        Some('p')
    } else if c == '\u{0441}' {
        Some('c')
    } else if c == '\u{0445}' {
        Some('x')
    } else if c == '\u{0443}' {
        Some('y')
    } else if c == '\u{03B1}' {
        Some('a')
    } else if c == '\u{03B2}' {
        Some('b')
    } else if c == '\u{03B5}' {
        Some('e')
    } else if c == '\u{03BF}' {
        Some('o')
    } else if c == '\u{03C1}' {
        Some('p')
    } else if c == '\u{03C4}' {
        Some('t')
    } else if c == '\u{03C5}' {
        Some('u')
    } else if c == '\u{FB00}' || c == '\u{FB01}' || c == '\u{FB02}' {
        Some('f')
    } else if c == '\u{200B}' || c == '\u{200C}' || c == '\u{200D}' || c == '\u{FEFF}' {
        Some('\0')
    } else {
        None
    }
}

/// What a look-alike is written as: nothing for a character that cannot be
/// seen, two letters for a ligature, else the letter it looks like.
pub open spec fn spelled(c: char, like: char) -> Seq<char> {
    if like == '\0' {
        Seq::empty()
    } else if c == '\u{FB00}' {
        seq!['f', 'f']
    } else if c == '\u{FB01}' {
        seq!['f', 'i']
    } else if c == '\u{FB02}' {
        seq!['f', 'l']
    } else {
        seq![like]
    }
}

/// What a character of a string is reduced to: a look-alike to what it is
/// written as, any other character to its lowercase mapping.
pub open spec fn reduced(c: char) -> Seq<char> {
    match homoglyph_of(c) {
        Some(like) => spelled(c, like),
        None => lowercase_of(c),
    }
}

/// What a character of a path is reduced to: a look-alike to what it is
/// written as, any other character to itself. Paths keep their case.
pub open spec fn reduced_in_path(c: char) -> Seq<char> {
    match homoglyph_of(c) {
        Some(like) => spelled(c, like),
        None => seq![c],
    }
}

/// The text in which each character is reduced, for a string or for a path.
pub open spec fn reduce_all(s: Seq<char>, keep_case: bool) -> Seq<char>
    decreases s.len(),
{
    if s.len() == 0 {
        Seq::empty()
    } else {
        reduce_all(s.drop_last(), keep_case) + (if keep_case {
            reduced_in_path(s.last())
        } else {
            reduced(s.last())
        })
    }
}

/// The text `s[from..]` in which every `a` followed by `b` is replaced by
/// `with`, from the left, no character taken twice.
pub open spec fn replace_pair(s: Seq<char>, from: int, a: char, b: char, with: Seq<char>) -> Seq<char>
    decreases s.len() - from,
{
    if from < 0 || from >= s.len() {
        Seq::empty()
    } else if from + 1 < s.len() && s[from] == a && s[from + 1] == b {
        with + replace_pair(s, from + 2, a, b, with)
    } else {
        seq![s[from]] + replace_pair(s, from + 1, a, b, with)
    }
}

/// The text in which every `a` is replaced by `b`.
pub open spec fn replace_char(s: Seq<char>, a: char, b: char) -> Seq<char> {
    Seq::new(
        s.len(),
        |i: int|
            if s[i] == a {
                b
            } else {
                s[i]
            },
    )
}

/// The text without the dots at its front.
pub open spec fn trim_dots_front(s: Seq<char>) -> Seq<char>
    decreases s.len(),
{
    if s.len() > 0 && s[0] == '.' {
        trim_dots_front(s.drop_first())
    } else {
        s
    }
}

/// The text without the dots at its back.
pub open spec fn trim_dots_back(s: Seq<char>) -> Seq<char>
    decreases s.len(),
{
    if s.len() > 0 && s.last() == '.' {
        trim_dots_back(s.drop_last())
    } else {
        s
    }
}

/// The canonical form of a string: every character reduced, double slashes
/// made single, backslashes made slashes.
pub open spec fn string_model(s: Seq<char>) -> Seq<char> {
    replace_char(replace_pair(reduce_all(s, false), 0, '/', '/', seq!['/']), '\\', '/')
}

/// The canonical form of one component of a path: its characters reduced
/// with their case kept, double slashes made single, backslashes made
/// slashes, `..` made `_`, `./` dropped, and the dots at both ends cut off.
pub open spec fn component_model(s: Seq<char>) -> Seq<char> {
    let plain = replace_char(replace_pair(reduce_all(s, true), 0, '/', '/', seq!['/']), '\\', '/');
    let safe = replace_pair(plain, 0, '.', '.', seq!['_']);
    let local = replace_pair(safe, 0, '.', '/', Seq::empty());
    trim_dots_back(trim_dots_front(local))
}

/// The canonical components of `path[from..]`, joined by slashes, with
/// `current` the component that is being read and `any` telling whether a
/// component has been written before.
pub open spec fn join_components(path: Seq<char>, from: int, current: Seq<char>, any: bool) -> Seq<
    char,
>
    decreases path.len() - from,
{
    if from < 0 || from >= path.len() {
        written(current, any)
    } else if path[from] == '/' {
        written(current, any) + join_components(
            path,
            from + 1,
            Seq::empty(),
            any || component_model(current).len() > 0,
        )
    } else {
        join_components(path, from + 1, current.push(path[from]), any)
    }
}

/// What the component `current` adds to a path: its canonical form, after a
/// slash where a component stands before it, or nothing where that form is
/// empty.
pub open spec fn written(current: Seq<char>, any: bool) -> Seq<char> {
    let form = component_model(current);
    if form.len() == 0 {
        Seq::empty()
    } else if any {
        seq!['/'] + form
    } else {
        form
    }
}

/// The canonical form of a path: the canonical forms of its components that
/// are not empty, joined by slashes, after a slash where the path starts with
/// one.
pub open spec fn path_model(path: Seq<char>) -> Seq<char> {
    (if path.len() > 0 && path[0] == '/' {
        seq!['/']
    } else {
        Seq::empty()
    }) + join_components(path, 0, Seq::empty(), false)
}

/// The canonical form of a package id: the canonical form of the string with
/// `-`, `.` and the space made `_`, in lowercase.
pub open spec fn package_id_model(id: Seq<char>) -> Seq<char> {
    lower_all(
        replace_char(replace_char(replace_char(string_model(id), '-', '_'), '.', '_'), ' ', '_'),
    )
}

/// The text with each character in lowercase.
pub open spec fn lower_all(s: Seq<char>) -> Seq<char>
    decreases s.len(),
{
    if s.len() == 0 {
        Seq::empty()
    } else {
        lower_all(s.drop_last()) + lowercase_of(s.last())
    }
}

/// The look-alikes among the characters of `s`, in order.
pub open spec fn look_alikes(s: Seq<char>) -> Seq<char>
    decreases s.len(),
{
    if s.len() == 0 {
        Seq::empty()
    } else if homoglyph_of(s.last()) is Some {
        look_alikes(s.drop_last()).push(s.last())
    } else {
        look_alikes(s.drop_last())
    }
}

/// Whether the ASCII characters of `s` have the lowercase mapping that ASCII
/// gives them: one character, the small letter of a capital and any other
/// character itself.
pub open spec fn ascii_lowers(s: Seq<char>) -> bool {
    forall|i: int|
        0 <= i < s.len() && ((#[trigger] s[i]) as int) < 0x80 ==> lowercase_of(s[i]) == seq![
            ascii_lower(s[i]),
        ]
}

/// Whether every character of `s` is an ASCII character.
pub open spec fn all_ascii(s: Seq<char>) -> bool {
    forall|i: int| 0 <= i < s.len() ==> ((#[trigger] s[i]) as int) < 0x80
}

/// The text with each ASCII capital made a small letter.
pub open spec fn ascii_lowered(s: Seq<char>) -> Seq<char> {
    Seq::new(s.len(), |i: int| ascii_lower(s[i]))
}

/// An ASCII text whose characters have the lowercase mapping of ASCII is
/// reduced, as a string, to itself with its capitals made small letters.
pub proof fn lemma_reduce_ascii(s: Seq<char>)
    requires
        all_ascii(s),
        ascii_lowers(s),
    ensures
        reduce_all(s, false) == ascii_lowered(s),
        lower_all(s) == ascii_lowered(s),
    decreases s.len(),
{
    if s.len() > 0 {
        let front = s.drop_last();
        assert(all_ascii(front)) by {
            assert forall|i: int| 0 <= i < front.len() implies ((#[trigger] front[i]) as int) < 0x80 by {
                assert(front[i] == s[i]);
            }
        }
        assert(ascii_lowers(front)) by {
            assert forall|i: int| 0 <= i < front.len() && ((#[trigger] front[i]) as int) < 0x80 implies lowercase_of(front[i]) == seq![ascii_lower(front[i])] by {
                assert(front[i] == s[i]);
            }
        }
        lemma_reduce_ascii(front);
        let last = s.last();
        assert(last == s[s.len() - 1]);
        assert(homoglyph_of(last) is None);
        assert(ascii_lowered(s) =~= ascii_lowered(front) + seq![ascii_lower(last)]);
    } else {
        assert(ascii_lowered(s) =~= Seq::<char>::empty());
    }
}

/// Computes `homoglyph_of`.
pub fn homoglyph(c: char) -> (r: Option<char>)
    ensures
        r == homoglyph_of(c),
{
    if c == '\u{0430}' {
        Some('a')
    } else if c == '\u{0435}' {
        Some('e')
    } else if c == '\u{043E}' {
        Some('o')
    } else if c == '\u{0440}' {
        Some('p')
    } else if c == '\u{0441}' {
        Some('c')
    } else if c == '\u{0445}' {
        Some('x')
    } else if c == '\u{0443}' {
        Some('y')
    } else if c == '\u{03B1}' {
        Some('a')
    } else if c == '\u{03B2}' {
        Some('b')
    } else if c == '\u{03B5}' {
        Some('e')
    } else if c == '\u{03BF}' {
        Some('o')
    } else if c == '\u{03C1}' {
        Some('p')
    } else if c == '\u{03C4}' {
        Some('t')
    } else if c == '\u{03C5}' {
        Some('u')
    } else if c == '\u{FB00}' || c == '\u{FB01}' || c == '\u{FB02}' {
        Some('f')
    } else if c == '\u{200B}' || c == '\u{200C}' || c == '\u{200D}' || c == '\u{FEFF}' {
        Some('\0')
    } else {
        None
    }
}

fn append_chars(out: &mut Vec<char>, more: &Vec<char>)
    ensures
        final(out)@ == old(out)@ + more@,
{
    let mut i: usize = 0;
    while i < more.len()
        invariant
            i <= more@.len(),
            out@ == old(out)@ + more@.subrange(0, i as int),
        decreases more@.len() - i,
    {
        out.push(more[i]);
        proof {
            assert(out@ =~= old(out)@ + more@.subrange(0, i + 1));
        }
        i += 1;
    }
    proof {
        assert(more@.subrange(0, more@.len() as int) =~= more@);
    }
}

fn push_reduced(out: &mut Vec<char>, c: char, keep_case: bool)
    ensures
        final(out)@ == old(out)@ + (if keep_case {
            reduced_in_path(c)
        } else {
            reduced(c)
        }),
        !keep_case && (c as int) < 0x80 ==> lowercase_of(c) == seq![ascii_lower(c)],
{
    match homoglyph(c) {
        Some(like) => {
            if like == '\0' {
                assert(out@ =~= old(out)@ + Seq::<char>::empty());
            } else if c == '\u{FB00}' {
                out.push('f');
                out.push('f');
                assert(out@ =~= old(out)@ + seq!['f', 'f']);
            } else if c == '\u{FB01}' {
                out.push('f');
                out.push('i');
                assert(out@ =~= old(out)@ + seq!['f', 'i']);
            } else if c == '\u{FB02}' {
                out.push('f');
                out.push('l');
                assert(out@ =~= old(out)@ + seq!['f', 'l']);
            } else {
                out.push(like);
                assert(out@ =~= old(out)@ + seq![like]);
            }
        },
        None => {
            if keep_case {
                out.push(c);
                assert(out@ =~= old(out)@ + seq![c]);
            } else {
                let lower = lowercase_chars(c);
                append_chars(out, &lower);
            }
        },
    }
}

fn reduce_chars(s: &Vec<char>, keep_case: bool) -> (r: Vec<char>)
    ensures
        r@ == reduce_all(s@, keep_case),
        !keep_case ==> ascii_lowers(s@),
{
    let mut out: Vec<char> = Vec::new();
    let mut i: usize = 0;
    while i < s.len()
        invariant
            i <= s@.len(),
            out@ == reduce_all(s@.subrange(0, i as int), keep_case),
            !keep_case ==> forall|j: int|
                0 <= j < i && ((#[trigger] s@[j]) as int) < 0x80 ==> lowercase_of(s@[j]) == seq![
                    ascii_lower(s@[j]),
                ],
        decreases s@.len() - i,
    {
        proof {
            let next = s@.subrange(0, i + 1);
            assert(next.drop_last() =~= s@.subrange(0, i as int));
            assert(next.last() == s@[i as int]);
        }
        push_reduced(&mut out, s[i], keep_case);
        i += 1;
    }
    proof {
        assert(s@.subrange(0, s@.len() as int) =~= s@);
    }
    out
}

fn replace_pairs(s: &Vec<char>, a: char, b: char, with: &Vec<char>) -> (r: Vec<char>)
    ensures
        r@ == replace_pair(s@, 0, a, b, with@),
{
    let mut out: Vec<char> = Vec::new();
    let mut i: usize = 0;
    proof {
        assert(out@ + replace_pair(s@, 0, a, b, with@) =~= replace_pair(s@, 0, a, b, with@));
    }
    while i < s.len()
        invariant
            i <= s@.len(),
            replace_pair(s@, 0, a, b, with@) == out@ + replace_pair(s@, i as int, a, b, with@),
        decreases s@.len() - i,
    {
        let ghost before = out@;
        if s.len() - i >= 2 && s[i] == a && s[i + 1] == b {
            append_chars(&mut out, with);
            proof {
                assert(before + (with@ + replace_pair(s@, i + 2, a, b, with@)) =~= (before + with@)
                    + replace_pair(s@, i + 2, a, b, with@));
            }
            i += 2;
        } else {
            out.push(s[i]);
            proof {
                assert(before + (seq![s@[i as int]] + replace_pair(s@, i + 1, a, b, with@)) =~= (
                before.push(s@[i as int])) + replace_pair(s@, i + 1, a, b, with@));
            }
            i += 1;
        }
    }
    proof {
        assert(out@ + Seq::<char>::empty() =~= out@);
    }
    out
}

fn replace_chars(s: &Vec<char>, a: char, b: char) -> (r: Vec<char>)
    ensures
        r@ == replace_char(s@, a, b),
{
    let mut out: Vec<char> = Vec::new();
    let mut i: usize = 0;
    while i < s.len()
        invariant
            i <= s@.len(),
            out@.len() == i,
            forall|j: int|
                0 <= j < i ==> out@[j] == (if s@[j] == a {
                    b
                } else {
                    s@[j]
                }),
        decreases s@.len() - i,
    {
        if s[i] == a {
            out.push(b);
        } else {
            out.push(s[i]);
        }
        i += 1;
    }
    proof {
        assert(out@ =~= replace_char(s@, a, b));
    }
    out
}

fn trim_dots(s: &Vec<char>) -> (r: Vec<char>)
    ensures
        r@ == trim_dots_back(trim_dots_front(s@)),
{
    let mut lo: usize = 0;
    proof {
        assert(s@.subrange(0, s@.len() as int) =~= s@);
    }
    while lo < s.len() && s[lo] == '.'
        invariant
            lo <= s@.len(),
            trim_dots_front(s@) == trim_dots_front(s@.subrange(lo as int, s@.len() as int)),
        decreases s@.len() - lo,
    {
        proof {
            let cur = s@.subrange(lo as int, s@.len() as int);
            assert(cur[0] == s@[lo as int]);
            assert(cur.drop_first() =~= s@.subrange(lo + 1, s@.len() as int));
        }
        lo += 1;
    }
    proof {
        let cur = s@.subrange(lo as int, s@.len() as int);
        if lo < s@.len() {
            assert(cur[0] == s@[lo as int]);
        }
        assert(trim_dots_front(s@) == cur);
    }
    let ghost front = s@.subrange(lo as int, s@.len() as int);
    let mut hi: usize = s.len();
    while hi > lo && s[hi - 1] == '.'
        invariant
            lo <= hi <= s@.len(),
            front == s@.subrange(lo as int, s@.len() as int),
            trim_dots_back(front) == trim_dots_back(s@.subrange(lo as int, hi as int)),
        decreases hi - lo,
    {
        proof {
            let cur = s@.subrange(lo as int, hi as int);
            assert(cur.last() == s@[hi - 1]);
            assert(cur.drop_last() =~= s@.subrange(lo as int, hi - 1));
        }
        hi -= 1;
    }
    proof {
        let cur = s@.subrange(lo as int, hi as int);
        if hi > lo {
            assert(cur.last() == s@[hi - 1]);
        }
        assert(trim_dots_back(front) == cur);
    }
    crate::text::slice_chars(s, lo, hi)
}

fn lower_chars(s: &Vec<char>) -> (r: Vec<char>)
    ensures
        r@ == lower_all(s@),
        ascii_lowers(s@),
{
    let mut out: Vec<char> = Vec::new();
    let mut i: usize = 0;
    while i < s.len()
        invariant
            i <= s@.len(),
            out@ == lower_all(s@.subrange(0, i as int)),
            forall|j: int|
                0 <= j < i && ((#[trigger] s@[j]) as int) < 0x80 ==> lowercase_of(s@[j]) == seq![
                    ascii_lower(s@[j]),
                ],
        decreases s@.len() - i,
    {
        proof {
            let next = s@.subrange(0, i + 1);
            assert(next.drop_last() =~= s@.subrange(0, i as int));
            assert(next.last() == s@[i as int]);
        }
        let lower = lowercase_chars(s[i]);
        append_chars(&mut out, &lower);
        i += 1;
    }
    proof {
        assert(s@.subrange(0, s@.len() as int) =~= s@);
    }
    out
}

fn plain_chars(s: &Vec<char>, keep_case: bool) -> (r: Vec<char>)
    ensures
        r@ == replace_char(
            replace_pair(reduce_all(s@, keep_case), 0, '/', '/', seq!['/']),
            '\\',
            '/',
        ),
        !keep_case ==> ascii_lowers(s@),
{
    let reduced = reduce_chars(s, keep_case);
    let mut slash: Vec<char> = Vec::new();
    slash.push('/');
    proof {
        assert(slash@ =~= seq!['/']);
    }
    let single = replace_pairs(&reduced, '/', '/', &slash);
    replace_chars(&single, '\\', '/')
}

fn component_chars(s: &Vec<char>) -> (r: Vec<char>)
    ensures
        r@ == component_model(s@),
{
    let plain = plain_chars(s, true);
    let mut underscore: Vec<char> = Vec::new();
    underscore.push('_');
    proof {
        assert(underscore@ =~= seq!['_']);
    }
    let safe = replace_pairs(&plain, '.', '.', &underscore);
    let nothing: Vec<char> = Vec::new();
    proof {
        assert(nothing@ =~= Seq::<char>::empty());
    }
    let local = replace_pairs(&safe, '.', '/', &nothing);
    trim_dots(&local)
}

fn write_component(out: &mut Vec<char>, current: &Vec<char>, any: bool) -> (wrote: bool)
    ensures
        final(out)@ == old(out)@ + written(current@, any),
        wrote == (component_model(current@).len() > 0),
{
    let form = component_chars(current);
    if form.len() == 0 {
        proof {
            assert(out@ =~= old(out)@ + Seq::<char>::empty());
        }
        false
    } else {
        if any {
            out.push('/');
        }
        let ghost mid = out@;
        append_chars(out, &form);
        proof {
            if any {
                assert(out@ =~= old(out)@ + (seq!['/'] + form@));
            }
        }
        true
    }
}

fn path_chars(path: &Vec<char>) -> (r: Vec<char>)
    ensures
        r@ == path_model(path@),
{
    let mut out: Vec<char> = Vec::new();
    if path.len() > 0 && path[0] == '/' {
        out.push('/');
    }
    let ghost lead = out@;
    let mut current: Vec<char> = Vec::new();
    let mut any: bool = false;
    let mut i: usize = 0;
    proof {
        assert(lead =~= (if path@.len() > 0 && path@[0] == '/' {
            seq!['/']
        } else {
            Seq::<char>::empty()
        }));
    }
    let ghost mut done: Seq<char> = Seq::empty();
    proof {
        assert(out@ =~= lead + done);
        assert(done + join_components(path@, 0, current@, any) =~= join_components(
            path@,
            0,
            Seq::empty(),
            false,
        ));
    }
    while i < path.len()
        invariant
            i <= path@.len(),
            out@ == lead + done,
            join_components(path@, 0, Seq::empty(), false) == done + join_components(
                path@,
                i as int,
                current@,
                any,
            ),
        decreases path@.len() - i,
    {
        if path[i] == '/' {
            let ghost piece = written(current@, any);
            let wrote = write_component(&mut out, &current, any);
            proof {
                let rest = join_components(
                    path@,
                    i + 1,
                    Seq::empty(),
                    any || component_model(current@).len() > 0,
                );
                assert(done + (piece + rest) =~= (done + piece) + rest);
                assert(lead + done + piece =~= lead + (done + piece));
                done = done + piece;
            }
            any = any || wrote;
            current = Vec::new();
        } else {
            current.push(path[i]);
        }
        i += 1;
    }
    let ghost piece = written(current@, any);
    let _ = write_component(&mut out, &current, any);
    proof {
        assert(lead + done + piece =~= lead + (done + piece));
    }
    out
}

/// The canonical form of a path: look-alike characters reduced, the case
/// kept; empty components dropped; `..` made `_`; the dots at the ends of
/// each component cut off.
pub fn normalize_unicode_path(path: &str) -> (r: String)
    ensures
        r@ == path_model(path@),
{
    let chars = chars_of(path);
    string_of(&path_chars(&chars))
}

/// Whether the two paths have the same canonical form.
pub fn paths_are_equivalent(path1: &str, path2: &str) -> (r: bool)
    ensures
        r == (path_model(path1@) == path_model(path2@)),
{
    let a = path_chars(&chars_of(path1));
    let b = path_chars(&chars_of(path2));
    same_chars(&a, &b)
}

/// The characters of `identifier` that look like an ASCII letter or cannot
/// be seen.
pub fn detect_homograph_attack(identifier: &str) -> (r: Vec<char>)
    ensures
        r@ == look_alikes(identifier@),
{
    let chars = chars_of(identifier);
    let mut found: Vec<char> = Vec::new();
    let mut i: usize = 0;
    while i < chars.len()
        invariant
            i <= chars@.len(),
            chars@ == identifier@,
            found@ == look_alikes(chars@.subrange(0, i as int)),
        decreases chars@.len() - i,
    {
        proof {
            let next = chars@.subrange(0, i + 1);
            assert(next.drop_last() =~= chars@.subrange(0, i as int));
            assert(next.last() == chars@[i as int]);
        }
        if homoglyph(chars[i]).is_some() {
            found.push(chars[i]);
        }
        i += 1;
    }
    proof {
        assert(chars@.subrange(0, chars@.len() as int) =~= chars@);
    }
    found
}

/// The canonical form of a package id. The ASCII characters that it meets
/// on the way have the lowercase mapping of ASCII.
pub fn canonicalize_package_id(id: &str) -> (r: String)
    ensures
        r@ == package_id_model(id@),
        ascii_lowers(id@),
        ascii_lowers(
            replace_char(replace_char(replace_char(string_model(id@), '-', '_'), '.', '_'), ' ', '_'),
        ),
{
    let chars = chars_of(id);
    let plain = plain_chars(&chars, false);
    let a = replace_chars(&plain, '-', '_');
    let b = replace_chars(&a, '.', '_');
    let c = replace_chars(&b, ' ', '_');
    string_of(&lower_chars(&c))
}

/// A normalizer that remembers the strings it has normalized.
pub struct UnicodeNormalizer {
    cache: StringHashMap<String>,
}

impl UnicodeNormalizer {
    /// The strings remembered, with their canonical forms.
    pub closed spec fn cached(&self) -> Map<Seq<char>, String> {
        self.cache@
    }

    /// Every string remembered is remembered with its canonical form, and
    /// its ASCII characters have the lowercase mapping of ASCII.
    pub open spec fn wf(&self) -> bool {
        forall|k: Seq<char>| #[trigger]
            self.cached().contains_key(k) ==> self.cached()[k]@ == string_model(k)
                && ascii_lowers(k)
    }

    /// A normalizer that remembers nothing yet.
    pub fn new() -> (n: Self)
        ensures
            n.wf(),
            n.cached() == Map::<Seq<char>, String>::empty(),
    {
        UnicodeNormalizer { cache: StringHashMap::new() }
    }

    /// The ASCII letter that `ch` looks like, or the null character where
    /// `ch` cannot be seen.
    pub fn normalize_char(&self, ch: char) -> (r: Option<char>)
        ensures
            r == homoglyph_of(ch),
    {
        homoglyph(ch)
    }

    /// The canonical form of `input`, which is remembered from then on.
    pub fn normalize_string(&mut self, input: &str) -> (r: String)
        requires
            old(self).wf(),
        ensures
            final(self).wf(),
            r@ == string_model(input@),
            ascii_lowers(input@),
            final(self).cached().dom() == old(self).cached().dom().insert(input@),
    {
        match self.cache.get(input) {
            Some(known) => {
                let r = known.clone();
                proof {
                    assert(self.cached().contains_key(input@));
                    assert(self.cached().dom().insert(input@) =~= self.cached().dom());
                }
                return r;
            },
            None => {},
        }
        let chars = chars_of(input);
        let r = string_of(&plain_chars(&chars, false));
        self.cache.insert(String::from_str(input), r.clone());
        proof {
            assert(self.cached().dom() =~= old(self).cached().dom().insert(input@));
            assert forall|k: Seq<char>| #[trigger] self.cached().contains_key(k) implies self.cached()[k]@
                == string_model(k) && ascii_lowers(k) by {
                if k != input@ {
                    assert(old(self).cached().contains_key(k));
                }
            }
        }
        r
    }

    /// Forgets every string remembered.
    pub fn clear_cache(&mut self)
        ensures
            final(self).wf(),
            final(self).cached() == Map::<Seq<char>, String>::empty(),
    {
        self.cache.clear();
    }

    /// The number of strings remembered. How much room the memory has taken
    /// for them is up to the allocator and is not told.
    pub fn cache_stats(&self) -> (count: usize)
        ensures
            count == self.cached().len(),
    {
        self.cache.len()
    }

    /// The text in Unicode Normalization Form C.
    pub fn normalize(&self, text: &str) -> (r: String)
        ensures
            r@ == nfc_of(text@),
    {
        nfc_text(text)
    }
}

impl Default for UnicodeNormalizer {
    fn default() -> (n: Self)
        ensures
            n.wf(),
            n.cached() == Map::<Seq<char>, String>::empty(),
    {
        UnicodeNormalizer::new()
    }
}

/// A path in its canonical form.
#[derive(Debug, PartialEq, Eq)]
pub struct CanonicalPath(pub String);

impl CanonicalPath {
    /// The canonical form of `path`.
    pub fn normalize(path: &str) -> (p: Self)
        ensures
            p.0@ == path_model(path@),
    {
        CanonicalPath(normalize_unicode_path(path))
    }
}

/// The text in Unicode Normalization Form C, and from there in the canonical
/// form of a path.
pub fn normalize_composed_path(path: &str) -> (r: String)
    ensures
        r@ == path_model(nfc_of(path@)),
{
    let composed = nfc_text(path);
    normalize_unicode_path(composed.as_str())
}

} // verus!
