//! Character classes of the log format and runs of characters in a line.

use vstd::prelude::*;

verus! {

/// A set of characters that a field or a gap of a log line is made of.
#[derive(Clone, Copy, Debug, PartialEq, Eq, Structural)]
pub enum CharClass {
    /// What a timestamp is written with: digits, `T`, `-`, `:` and `.`.
    Stamp,
    /// What an identifier is written with: ASCII letters, `_` and `.`.
    Ident,
    /// ASCII upper-case letters.
    Upper,
    /// Unicode white space.
    Space,
    /// ASCII decimal digits.
    Digit,
    /// Lower-case hexadecimal digits.
    Hex,
    /// Every character but the line feed.
    Inline,
}

/// The ASCII decimal digits.
pub open spec fn is_digit(c: char) -> bool {
    '0' <= c <= '9'
}

/// The ASCII upper-case letters.
pub open spec fn is_upper(c: char) -> bool {
    'A' <= c <= 'Z'
}

/// The ASCII lower-case letters.
pub open spec fn is_lower(c: char) -> bool {
    'a' <= c <= 'z'
}

/// Characters with the Unicode property `White_Space`.
pub open spec fn is_space(c: char) -> bool {
    let n = c as u32;
    ||| 0x09 <= n <= 0x0d
    ||| n == 0x20
    ||| n == 0x85
    ||| n == 0xa0
    ||| n == 0x1680
    ||| 0x2000 <= n <= 0x200a
    ||| n == 0x2028
    ||| n == 0x2029
    ||| n == 0x202f
    ||| n == 0x205f
    ||| n == 0x3000
}

impl CharClass {
    /// Whether `c` belongs to the class.
    pub open spec fn has(self, c: char) -> bool {
        match self {
            CharClass::Stamp => is_digit(c) || c == 'T' || c == '-' || c == ':' || c == '.',
            CharClass::Ident => is_upper(c) || is_lower(c) || c == '_' || c == '.',
            CharClass::Upper => is_upper(c),
            CharClass::Space => is_space(c),
            CharClass::Digit => is_digit(c),
            CharClass::Hex => is_digit(c) || 'a' <= c <= 'f',
            CharClass::Inline => c != '\n',
        }
    }

    /// Whether every character of `s` belongs to the class.
    pub open spec fn has_all(self, s: Seq<char>) -> bool {
        forall|i: int| 0 <= i < s.len() ==> self.has(#[trigger] s[i])
    }

    /// Whether the characters of `s` from `from` up to `to` belong to the class.
    pub open spec fn fills(self, s: Seq<char>, from: int, to: int) -> bool {
        forall|i: int| from <= i < to ==> self.has(#[trigger] s[i])
    }

    /// Tests membership of `c`.
    pub fn contains(self, c: char) -> (r: bool)
        ensures
            r == self.has(c),
    {
        match self {
            CharClass::Stamp => ('0' <= c && c <= '9') || c == 'T' || c == '-' || c == ':' || c == '.',
            CharClass::Ident => ('A' <= c && c <= 'Z') || ('a' <= c && c <= 'z') || c == '_' || c == '.',
            CharClass::Upper => 'A' <= c && c <= 'Z',
            CharClass::Space => {
                let n: u32 = c as u32;
                (0x09 <= n && n <= 0x0d) || n == 0x20 || n == 0x85 || n == 0xa0 || n == 0x1680
                    || (0x2000 <= n && n <= 0x200a) || n == 0x2028 || n == 0x2029 || n == 0x202f
                    || n == 0x205f || n == 0x3000
            },
            CharClass::Digit => '0' <= c && c <= '9',
            CharClass::Hex => ('0' <= c && c <= '9') || ('a' <= c && c <= 'f'),
            CharClass::Inline => c != '\n',
        }
    }
}

/// Where the longest run of characters of class `k` that starts at `from` ends.
pub open spec fn run_end(s: Seq<char>, k: CharClass, from: int) -> int
    decreases s.len() - from,
{
    if 0 <= from < s.len() && k.has(s[from]) {
        run_end(s, k, from + 1)
    } else {
        from
    }
}

/// A run ends inside the line, holds only characters of its class, and stops
/// at the first character outside it.
pub proof fn lemma_run_end(s: Seq<char>, k: CharClass, from: int)
    requires
        0 <= from <= s.len(),
    ensures
        from <= run_end(s, k, from) <= s.len(),
        k.fills(s, from, run_end(s, k, from)),
        run_end(s, k, from) < s.len() ==> !k.has(s[run_end(s, k, from)]),
    decreases s.len() - from,
{
    if from < s.len() && k.has(s[from]) {
        lemma_run_end(s, k, from + 1);
    }
}

/// A stretch of class characters that starts at `from` lies within the run.
pub proof fn lemma_run_covers(s: Seq<char>, k: CharClass, from: int, to: int)
    requires
        0 <= from <= to <= s.len(),
        k.fills(s, from, to),
    ensures
        to <= run_end(s, k, from),
        run_end(s, k, from) == run_end(s, k, to),
    decreases to - from,
{
    if from < to {
        assert(k.has(s[from]));
        lemma_run_covers(s, k, from + 1, to);
    } else {
        lemma_run_end(s, k, to);
    }
}

/// A stretch of class characters that starts at `from` and cannot be
/// extended is the run.
pub proof fn lemma_run_end_unique(s: Seq<char>, k: CharClass, from: int, to: int)
    requires
        0 <= from <= to <= s.len(),
        k.fills(s, from, to),
        to < s.len() ==> !k.has(s[to]),
    ensures
        run_end(s, k, from) == to,
{
    lemma_run_covers(s, k, from, to);
}

/// A part of a text that is of a class fills its place in the text.
pub proof fn lemma_part_fills(s: Seq<char>, at: int, part: Seq<char>, k: CharClass)
    requires
        0 <= at,
        at + part.len() <= s.len(),
        s.subrange(at, at + part.len()) == part,
        k.has_all(part),
    ensures
        k.fills(s, at, at + part.len()),
{
    assert forall|i: int| at <= i < at + part.len() implies k.has(#[trigger] s[i]) by {
        assert(s[i] == s.subrange(at, at + part.len())[i - at]);
        assert(k.has(part[i - at]));
    }
}

/// Scans the run of class `k` that starts at `from`.
pub fn scan_run(s: &[char], k: CharClass, from: usize) -> (end: usize)
    requires
        from <= s.len(),
    ensures
        end == run_end(s@, k, from as int),
        from <= end <= s.len(),
{
    let mut i: usize = from;
    while i < s.len() && k.contains(s[i])
        invariant
            from <= i <= s.len(),
            run_end(s@, k, from as int) == run_end(s@, k, i as int),
        decreases s.len() - i,
    {
        i += 1;
    }
    i
}

/// Whether `phrase` stands in `s` at position `at`.
pub open spec fn stands_at(s: Seq<char>, at: int, phrase: Seq<char>) -> bool {
    &&& 0 <= at
    &&& at + phrase.len() <= s.len()
    &&& s.subrange(at, at + phrase.len()) == phrase
}

/// Compares the characters of `s` from `at` on with `phrase`.
pub fn phrase_at(s: &[char], at: usize, phrase: &[char]) -> (r: bool)
    requires
        at <= s.len(),
    ensures
        r == stands_at(s@, at as int, phrase@),
{
    if s.len() - at < phrase.len() {
        return false;
    }
    let mut i: usize = 0;
    while i < phrase.len()
        invariant
            at + phrase.len() <= s.len(),
            i <= phrase.len(),
            forall|j: int| 0 <= j < i ==> s@[at + j] == phrase@[j],
        decreases phrase.len() - i,
    {
        if s[at + i] != phrase[i] {
            assert(s@.subrange(at as int, at + phrase.len())[i as int] == s@[at + i]);
            return false;
        }
        i += 1;
    }
    assert(s@.subrange(at as int, at + phrase.len()) =~= phrase@);
    true
}

/// The characters of a string, in order.
pub fn chars_of(text: &str) -> (v: Vec<char>)
    ensures
        v@ == text@,
{
    broadcast use vstd::string::group_string_axioms;

    let mut v: Vec<char> = Vec::new();
    let chars = text.chars();
    for c in it: chars
        invariant
            it.seq() == text@,
            v@ == text@.take(it.index() as int),
    {
        v.push(c);
    }
    v
}

} // verus!
