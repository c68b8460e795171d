//! Character-level text operations: finding, splitting, line breaking,
//! trimming and integer parsing, each specified over `Seq<char>`.
use vstd::prelude::*;

verus! {

// ---------------------------------------------------------------------------
// Specifications
// ---------------------------------------------------------------------------

/// The views of a sequence of character vectors.
pub open spec fn views(v: Seq<Vec<char>>) -> Seq<Seq<char>> {
    v.map_values(|p: Vec<char>| p@)
}

/// Index of the first occurrence of `pat` in `s`.
pub open spec fn find_seq(s: Seq<char>, pat: Seq<char>) -> Option<int>
    decreases s.len(),
{
    if pat.len() > s.len() {
        None
    } else if s.take(pat.len() as int) == pat {
        Some(0)
    } else if s.len() == 0 {
        None
    } else {
        match find_seq(s.drop_first(), pat) {
            Some(i) => Some(i + 1),
            None => None,
        }
    }
}

/// Whether `pat` occurs in `s`.
pub open spec fn contains_seq(s: Seq<char>, pat: Seq<char>) -> bool {
    find_seq(s, pat) is Some
}

/// Whether `s` begins with `pat`.
pub open spec fn starts_with(s: Seq<char>, pat: Seq<char>) -> bool {
    pat.len() <= s.len() && s.take(pat.len() as int) == pat
}

/// Index of the last occurrence of the character `c` in `s`.
pub open spec fn rfind_char(s: Seq<char>, c: char) -> Option<int>
    decreases s.len(),
{
    if s.len() == 0 {
        None
    } else if s.last() == c {
        Some(s.len() - 1)
    } else {
        rfind_char(s.drop_last(), c)
    }
}

/// The text before and after the first occurrence of `pat`.
pub open spec fn split_once(s: Seq<char>, pat: Seq<char>) -> Option<(Seq<char>, Seq<char>)> {
    match find_seq(s, pat) {
        Some(i) => Some((s.take(i), s.skip(i + pat.len()))),
        None => None,
    }
}

/// The pieces of `s` between occurrences of the non-empty `pat`, left to right
/// (`str::split` with a string pattern).
pub open spec fn split_all(s: Seq<char>, pat: Seq<char>) -> Seq<Seq<char>>
    recommends
        pat.len() > 0,
    decreases s.len(),
{
    if pat.len() == 0 {
        seq![s]
    } else {
        match find_seq(s, pat) {
            Some(i) => {
                if 0 <= i && i + pat.len() <= s.len() {
                    seq![s.take(i)] + split_all(s.skip(i + pat.len()), pat)
                } else {
                    seq![s]
                }
            },
            None => seq![s],
        }
    }
}

/// At most `n` pieces of `s` split at occurrences of the non-empty `pat`; the
/// last piece holds the rest (`str::splitn`).
pub open spec fn splitn(s: Seq<char>, n: nat, pat: Seq<char>) -> Seq<Seq<char>>
    decreases n,
{
    if n == 0 {
        seq![]
    } else if n == 1 || pat.len() == 0 {
        seq![s]
    } else {
        match find_seq(s, pat) {
            Some(i) => seq![s.take(i)] + splitn(s.skip(i + pat.len()), (n - 1) as nat, pat),
            None => seq![s],
        }
    }
}

/// The lines of `s` (`str::lines`): pieces ended by `'\n'`, with a `'\r'`
/// right before that `'\n'` removed; a final `'\n'` does not start a new line.
pub open spec fn lines(s: Seq<char>) -> Seq<Seq<char>>
    decreases s.len(),
{
    if s.len() == 0 {
        seq![]
    } else {
        match find_seq(s, seq!['\n']) {
            Some(i) => {
                if 0 <= i < s.len() {
                    let line = if i > 0 && s[i - 1] == '\r' {
                        s.take(i - 1)
                    } else {
                        s.take(i)
                    };
                    seq![line] + lines(s.skip(i + 1))
                } else {
                    seq![s]
                }
            },
            None => seq![s],
        }
    }
}

/// Unicode `White_Space` characters (`char::is_whitespace`).
pub open spec fn is_whitespace(c: char) -> bool {
    ||| ('\u{9}' <= c && c <= '\u{d}')
    ||| c == ' '
    ||| c == '\u{85}'
    ||| c == '\u{a0}'
    ||| c == '\u{1680}'
    ||| ('\u{2000}' <= c && c <= '\u{200a}')
    ||| c == '\u{2028}'
    ||| c == '\u{2029}'
    ||| c == '\u{202f}'
    ||| c == '\u{205f}'
    ||| c == '\u{3000}'
}

/// `s` without its leading whitespace.
pub open spec fn trim_start(s: Seq<char>) -> Seq<char>
    decreases s.len(),
{
    if s.len() > 0 && is_whitespace(s[0]) {
        trim_start(s.drop_first())
    } else {
        s
    }
}

/// `s` without its trailing whitespace.
pub open spec fn trim_end(s: Seq<char>) -> Seq<char>
    decreases s.len(),
{
    if s.len() > 0 && is_whitespace(s.last()) {
        trim_end(s.drop_last())
    } else {
        s
    }
}

/// `s` without leading and trailing whitespace (`str::trim`).
pub open spec fn trim(s: Seq<char>) -> Seq<char> {
    trim_end(trim_start(s))
}

pub open spec fn is_ascii_digit(c: char) -> bool {
    '0' <= c && c <= '9'
}

pub open spec fn digit_value(c: char) -> int {
    c as int - '0' as int
}

/// The number that the decimal digits `s` spell.
pub open spec fn decimal_value(s: Seq<char>) -> int
    decreases s.len(),
{
    if s.len() == 0 {
        0
    } else {
        decimal_value(s.drop_last()) * 10 + digit_value(s.last())
    }
}

pub open spec fn all_digits(s: Seq<char>) -> bool {
    forall|i: int| 0 <= i < s.len() ==> #[trigger] is_ascii_digit(s[i])
}

/// `i64::from_str` succeeds exactly on an optional sign followed by one or more
/// decimal digits whose value lies in the range of `i64`.
pub open spec fn parse_i64_spec(s: Seq<char>) -> Option<i64> {
    if s.len() > 0 && s[0] == '-' {
        i64_of(true, s.drop_first())
    } else if s.len() > 0 && s[0] == '+' {
        i64_of(false, s.drop_first())
    } else {
        i64_of(false, s)
    }
}

/// The `i64` of a sign and a run of digits, when the digits are all decimal,
/// there is at least one, and the value fits.
pub open spec fn i64_of(neg: bool, digits: Seq<char>) -> Option<i64> {
    let v = if neg {
        -decimal_value(digits)
    } else {
        decimal_value(digits)
    };
    if digits.len() > 0 && all_digits(digits) && i64::MIN <= v <= i64::MAX {
        Some(v as i64)
    } else {
        None
    }
}

/// Why an unsigned integer failed to parse (`core::num::IntErrorKind`).
#[derive(Debug, Clone, Copy, PartialEq, Eq, Structural)]
pub enum IntErrorKind {
    Empty,
    InvalidDigit,
    PosOverflow,
}

impl IntErrorKind {
    /// The text `ParseIntError` displays for this kind.
    pub open spec fn spec_message(self) -> Seq<char> {
        match self {
            IntErrorKind::Empty => "cannot parse integer from empty string"@,
            IntErrorKind::InvalidDigit => "invalid digit found in string"@,
            IntErrorKind::PosOverflow => "number too large to fit in target type"@,
        }
    }

    pub fn message(&self) -> (r: String)
        ensures
            r@ == self.spec_message(),
    {
        match self {
            IntErrorKind::Empty => String::from_str("cannot parse integer from empty string"),
            IntErrorKind::InvalidDigit => String::from_str("invalid digit found in string"),
            IntErrorKind::PosOverflow => String::from_str("number too large to fit in target type"),
        }
    }
}

/// Digits read left to right onto `acc`: the first non-digit is an invalid
/// digit, the first digit that takes the value above `u16::MAX` an overflow.
pub open spec fn u16_digits(s: Seq<char>, acc: int) -> Result<u16, IntErrorKind>
    decreases s.len(),
{
    if s.len() == 0 {
        Ok(acc as u16)
    } else if !is_ascii_digit(s[0]) {
        Err(IntErrorKind::InvalidDigit)
    } else if acc * 10 + digit_value(s[0]) > u16::MAX {
        Err(IntErrorKind::PosOverflow)
    } else {
        u16_digits(s.drop_first(), acc * 10 + digit_value(s[0]))
    }
}

/// `u16::from_str`: an optional `'+'` and then decimal digits.
pub open spec fn parse_u16_spec(s: Seq<char>) -> Result<u16, IntErrorKind> {
    if s.len() == 0 {
        Err(IntErrorKind::Empty)
    } else if s.len() == 1 && (s[0] == '+' || s[0] == '-') {
        Err(IntErrorKind::InvalidDigit)
    } else if s[0] == '+' {
        u16_digits(s.drop_first(), 0)
    } else {
        u16_digits(s, 0)
    }
}

// ---------------------------------------------------------------------------
// Lemmas
// ---------------------------------------------------------------------------

/// A match found by scanning from the left is the first occurrence.
pub proof fn lemma_find_seq_at(s: Seq<char>, pat: Seq<char>, i: int)
    requires
        pat.len() > 0,
        0 <= i,
        i + pat.len() <= s.len(),
        s.subrange(i, i + pat.len()) == pat,
        forall|j: int| 0 <= j < i ==> #[trigger] s.subrange(j, j + pat.len()) != pat,
    ensures
        find_seq(s, pat) == Some(i),
    decreases i,
{
    if i == 0 {
        assert(s.take(pat.len() as int) =~= s.subrange(0, pat.len() as int));
    } else {
        assert(s.subrange(0int, 0int + pat.len()) != pat);
        assert(s.take(pat.len() as int) =~= s.subrange(0int, 0int + pat.len()));
        let t = s.drop_first();
        assert forall|j: int| 0 <= j < i - 1 implies #[trigger] t.subrange(j, j + pat.len()) != pat by {
            assert(t.subrange(j, j + pat.len()) =~= s.subrange(j + 1, j + 1 + pat.len()));
        }
        assert(t.subrange(i - 1, i - 1 + pat.len()) =~= s.subrange(i, i + pat.len()));
        lemma_find_seq_at(t, pat, i - 1);
    }
}

/// No match found by scanning means there is none.
pub proof fn lemma_find_seq_none(s: Seq<char>, pat: Seq<char>)
    requires
        pat.len() > 0,
        forall|j: int| 0 <= j && j + pat.len() <= s.len() ==> #[trigger] s.subrange(j, j + pat.len()) != pat,
    ensures
        find_seq(s, pat) is None,
    decreases s.len(),
{
    if pat.len() <= s.len() {
        assert(s.subrange(0int, 0int + pat.len()) != pat);
        assert(s.take(pat.len() as int) =~= s.subrange(0int, 0int + pat.len()));
        let t = s.drop_first();
        assert forall|j: int| 0 <= j && j + pat.len() <= t.len() implies #[trigger] t.subrange(j, j + pat.len()) != pat by {
            assert(t.subrange(j, j + pat.len()) =~= s.subrange(j + 1, j + 1 + pat.len()));
        }
        lemma_find_seq_none(t, pat);
    }
}

/// What `find_seq` returns is a match, and nothing before it is.
pub proof fn lemma_find_seq_sound(s: Seq<char>, pat: Seq<char>)
    requires
        pat.len() > 0,
    ensures
        find_seq(s, pat) matches Some(i) ==> {
            &&& 0 <= i
            &&& i + pat.len() <= s.len()
            &&& s.subrange(i, i + pat.len()) == pat
            &&& forall|j: int| 0 <= j < i ==> #[trigger] s.subrange(j, j + pat.len()) != pat
        },
        find_seq(s, pat) is None ==> forall|j: int|
            0 <= j && j + pat.len() <= s.len() ==> #[trigger] s.subrange(j, j + pat.len()) != pat,
    decreases s.len(),
{
    if pat.len() > s.len() {
    } else if s.take(pat.len() as int) == pat {
        assert(s.take(pat.len() as int) =~= s.subrange(0, pat.len() as int));
    } else {
        let t = s.drop_first();
        lemma_find_seq_sound(t, pat);
        assert(s.take(pat.len() as int) =~= s.subrange(0, pat.len() as int));
        assert forall|j: int| 1 <= j && j + pat.len() <= s.len() implies #[trigger] s.subrange(j, j + pat.len()) =~= t.subrange(j - 1, j - 1 + pat.len()) by {}
        match find_seq(t, pat) {
            Some(k) => {
                assert forall|j: int| 0 <= j < k + 1 implies #[trigger] s.subrange(j, j + pat.len())
                    != pat by {
                    if j > 0 {
                        assert(s.subrange(j, j + pat.len()) =~= t.subrange(
                            j - 1,
                            j - 1 + pat.len(),
                        ));
                    }
                }
            },
            None => {
                assert forall|j: int| 0 <= j && j + pat.len() <= s.len() implies #[trigger] s.subrange(j, j + pat.len()) != pat by {
                    if j > 0 {
                        assert(s.subrange(j, j + pat.len()) =~= t.subrange(
                            j - 1,
                            j - 1 + pat.len(),
                        ));
                    }
                }
            },
        }
    }
}

/// `rfind_char` by its defining property.
pub proof fn lemma_rfind_char(s: Seq<char>, c: char)
    ensures
        rfind_char(s, c) matches Some(i) ==> 0 <= i < s.len() && s[i] == c && forall|j: int|
            i < j < s.len() ==> s[j] != c,
        rfind_char(s, c) is None ==> forall|j: int| 0 <= j < s.len() ==> s[j] != c,
    decreases s.len(),
{
    if s.len() > 0 && s.last() != c {
        let t = s.drop_last();
        lemma_rfind_char(t, c);
        assert forall|j: int| 0 <= j < t.len() implies t[j] == s[j] by {}
    }
}

/// The last occurrence, found by scanning from the right.
pub proof fn lemma_rfind_char_at(s: Seq<char>, c: char, i: int)
    requires
        0 <= i < s.len(),
        s[i] == c,
        forall|j: int| i < j < s.len() ==> s[j] != c,
    ensures
        rfind_char(s, c) == Some(i),
    decreases s.len(),
{
    if s.last() != c {
        lemma_rfind_char_at(s.drop_last(), c, i);
    }
}

pub proof fn lemma_rfind_char_none(s: Seq<char>, c: char)
    requires
        forall|j: int| 0 <= j < s.len() ==> s[j] != c,
    ensures
        rfind_char(s, c) is None,
    decreases s.len(),
{
    if s.len() > 0 {
        lemma_rfind_char_none(s.drop_last(), c);
    }
}

// ---------------------------------------------------------------------------
// Executable operations
// ---------------------------------------------------------------------------

/// The characters of `s`, in order.
pub fn str_chars(s: &str) -> (v: Vec<char>)
    ensures
        v@ == s@,
{
    let mut v: Vec<char> = Vec::new();
    for c in it: s.chars()
        invariant
            v@ == it.seq().take(it.index() as int),
            it.seq() == s@,
    {
        v.push(c);
    }
    v
}

/// `String::push`: appends one character.
#[verifier::external_body]
pub(crate) fn push_char(s: &mut String, c: char)
    ensures
        final(s)@ == old(s)@.push(c),
{
    s.push(c);
}

/// The characters `v[from..to]` as a `String`.
pub fn string_of(v: &Vec<char>, from: usize, to: usize) -> (r: String)
    requires
        from <= to <= v.len(),
    ensures
        r@ == v@.subrange(from as int, to as int),
{
    let mut r = String::new();
    let mut i = from;
    while i < to
        invariant
            from <= i <= to <= v.len(),
            r@ == v@.subrange(from as int, i as int),
        decreases to - i,
    {
        push_char(&mut r, v[i]);
        assert(v@.subrange(from as int, i + 1) =~= v@.subrange(from as int, i as int).push(v@[i as int]));
        i += 1;
    }
    r
}

/// `a + b` as a new `String`.
pub fn concat2(a: &str, b: &str) -> (r: String)
    ensures
        r@ == a@ + b@,
{
    let mut r = String::from_str(a);
    r.append(b);
    r
}

/// `a + b + c` as a new `String`.
pub fn concat3(a: &str, b: &str, c: &str) -> (r: String)
    ensures
        r@ == a@ + b@ + c@,
{
    let mut r = String::from_str(a);
    r.append(b);
    r.append(c);
    r
}

/// Whether `pat` occurs in `v` at position `i`.
pub fn matches_at(v: &Vec<char>, pat: &Vec<char>, i: usize) -> (r: bool)
    requires
        i + pat.len() <= v.len(),
    ensures
        r == (v@.subrange(i as int, i + pat.len()) == pat@),
{
    let mut k: usize = 0;
    while k < pat.len()
        invariant
            i + pat.len() <= v.len(),
            k <= pat.len(),
            forall|j: int| 0 <= j < k ==> v@[i + j] == pat@[j],
        decreases pat.len() - k,
    {
        if v[i + k] != pat[k] {
            assert(v@.subrange(i as int, i + pat.len())[k as int] != pat@[k as int]);
            return false;
        }
        k += 1;
    }
    assert(v@.subrange(i as int, i + pat.len()) =~= pat@);
    true
}

/// The first occurrence of `pat` in `v` at or after `start`, as an index into `v`.
pub fn find_from(v: &Vec<char>, pat: &Vec<char>, start: usize) -> (r: Option<usize>)
    requires
        pat.len() > 0,
        start <= v.len(),
    ensures
        match find_seq(v@.skip(start as int), pat@) {
            Some(i) => r == Some((start + i) as usize),
            None => r is None,
        },
{
    let mut i = start;
    while i < v.len() && pat.len() <= v.len() - i
        invariant
            pat.len() > 0,
            start <= i <= v.len(),
            forall|j: int|
                start <= j < i ==> #[trigger] v@.subrange(j, j + pat.len()) != pat@,
        decreases v.len() - i,
    {
        if matches_at(v, pat, i) {
            proof {
                let t = v@.skip(start as int);
                assert forall|j: int| 0 <= j < i - start implies #[trigger] t.subrange(j, j + pat.len())
                    != pat@ by {
                    assert(t.subrange(j, j + pat.len()) =~= v@.subrange(
                        start + j,
                        start + j + pat.len(),
                    ));
                }
                assert(t.subrange(i - start, i - start + pat.len()) =~= v@.subrange(
                    i as int,
                    i + pat.len(),
                ));
                lemma_find_seq_at(t, pat@, i - start);
            }
            return Some(i);
        }
        i += 1;
    }
    proof {
        let t = v@.skip(start as int);
        assert forall|j: int| 0 <= j && j + pat.len() <= t.len() implies #[trigger] t.subrange(j, j + pat.len()) != pat@ by {
            assert(t.subrange(j, j + pat.len()) =~= v@.subrange(
                start + j,
                start + j + pat.len(),
            ));
        }
        lemma_find_seq_none(t, pat@);
    }
    None
}

/// The last occurrence of `c` in `v`.
pub fn rfind(v: &Vec<char>, c: char) -> (r: Option<usize>)
    ensures
        match rfind_char(v@, c) {
            Some(i) => r == Some(i as usize),
            None => r is None,
        },
{
    let mut i = v.len();
    while i > 0
        invariant
            i <= v.len(),
            forall|j: int| i <= j < v.len() ==> v@[j] != c,
        decreases i,
    {
        if v[i - 1] == c {
            proof {
                lemma_rfind_char_at(v@, c, i - 1);
            }
            return Some(i - 1);
        }
        i -= 1;
    }
    proof {
        lemma_rfind_char_none(v@, c);
    }
    None
}

/// Whether `v` begins with the characters of `pat`.
pub fn has_prefix(v: &Vec<char>, pat: &str) -> (r: bool)
    ensures
        r == starts_with(v@, pat@),
{
    let p = str_chars(pat);
    if p.len() > v.len() {
        return false;
    }
    let r = matches_at(v, &p, 0);
    assert(v@.take(p.len() as int) =~= v@.subrange(0, p.len() as int));
    r
}

/// Whether `v` consists of exactly the characters of `lit`.
pub fn chars_are(v: &Vec<char>, lit: &str) -> (r: bool)
    ensures
        r == (v@ == lit@),
{
    let p = str_chars(lit);
    if p.len() != v.len() {
        return false;
    }
    let r = matches_at(v, &p, 0);
    assert(v@.subrange(0, p.len() as int) =~= v@);
    r
}

/// Whether `pat` occurs in `v`.
pub fn contains(v: &Vec<char>, pat: &str) -> (r: bool)
    requires
        pat@.len() > 0,
    ensures
        r == contains_seq(v@, pat@),
{
    let p = str_chars(pat);
    assert(v@.skip(0) =~= v@);
    find_from(v, &p, 0).is_some()
}

/// The pieces of `v[start..]` split at every `pat`, appended to `out`.
fn split_all_from(v: &Vec<char>, pat: &Vec<char>, start: usize, out: &mut Vec<Vec<char>>)
    requires
        pat.len() > 0,
        start <= v.len(),
    ensures
        views(final(out)@) == views(old(out)@) + split_all(v@.skip(start as int), pat@),
{
    let mut s = start;
    loop
        invariant
            pat.len() > 0,
            s <= v.len(),
            views(old(out)@) + split_all(v@.skip(start as int), pat@) == views(out@)
                + split_all(v@.skip(s as int), pat@),
        decreases v.len() - s,
    {
        let ghost t = v@.skip(s as int);
        proof {
            lemma_find_seq_sound(t, pat@);
        }
        match find_from(v, pat, s) {
            Some(i) => {
                let mut piece: Vec<char> = Vec::new();
                let mut k = s;
                while k < i
                    invariant
                        s <= k <= i <= v.len(),
                        piece@ == v@.subrange(s as int, k as int),
                    decreases i - k,
                {
                    piece.push(v[k]);
                    assert(v@.subrange(s as int, k + 1) =~= v@.subrange(s as int, k as int).push(
                        v@[k as int],
                    ));
                    k += 1;
                }
                let ghost before = views(out@);
                out.push(piece);
                proof {
                    assert(piece@ =~= t.take(i - s));
                    assert(t.skip(i - s + pat.len()) =~= v@.skip(i + pat.len()));
                    assert(split_all(t, pat@) == seq![t.take(i - s)] + split_all(
                        t.skip(i - s + pat.len()),
                        pat@,
                    ));
                    assert(views(out@) =~= before.push(piece@));
                    assert(before + split_all(t, pat@) =~= views(out@) + split_all(
                        v@.skip(i + pat.len()),
                        pat@,
                    ));
                }
                s = i + pat.len();
            },
            None => {
                let mut piece: Vec<char> = Vec::new();
                let mut k = s;
                while k < v.len()
                    invariant
                        s <= k <= v.len(),
                        piece@ == v@.subrange(s as int, k as int),
                    decreases v.len() - k,
                {
                    piece.push(v[k]);
                    assert(v@.subrange(s as int, k + 1) =~= v@.subrange(s as int, k as int).push(
                        v@[k as int],
                    ));
                    k += 1;
                }
                let ghost before = views(out@);
                out.push(piece);
                proof {
                    assert(piece@ =~= t);
                    assert(split_all(t, pat@) == seq![t]);
                    assert(views(out@) =~= before + seq![piece@]);
                }
                return;
            },
        }
    }
}


/// The characters `v[from..to]`.
pub fn slice_chars(v: &Vec<char>, from: usize, to: usize) -> (r: Vec<char>)
    requires
        from <= to <= v.len(),
    ensures
        r@ == v@.subrange(from as int, to as int),
{
    let mut r: Vec<char> = Vec::new();
    let mut k = from;
    while k < to
        invariant
            from <= k <= to <= v.len(),
            r@ == v@.subrange(from as int, k as int),
        decreases to - k,
    {
        r.push(v[k]);
        assert(v@.subrange(from as int, k + 1) =~= v@.subrange(from as int, k as int).push(
            v@[k as int],
        ));
        k += 1;
    }
    r
}

/// A one-character pattern.
fn single(c: char) -> (r: Vec<char>)
    ensures
        r@ == seq![c],
{
    let mut r: Vec<char> = Vec::new();
    r.push(c);
    assert(r@ =~= seq![c]);
    r
}

/// `str::splitn` with a non-empty string pattern.
pub fn splitn_on(v: &Vec<char>, n: usize, pat: &str) -> (r: Vec<Vec<char>>)
    requires
        pat@.len() > 0,
        n >= 1,
    ensures
        views(r@) == splitn(v@, n as nat, pat@),
{
    let p = str_chars(pat);
    let mut out: Vec<Vec<char>> = Vec::new();
    let mut s: usize = 0;
    let mut k: usize = n;
    assert(v@.skip(0) =~= v@);
    assert(views(out@) =~= Seq::<Seq<char>>::empty());
    loop
        invariant
            p@ == pat@,
            p.len() > 0,
            s <= v.len(),
            k >= 1,
            views(out@) + splitn(v@.skip(s as int), k as nat, pat@) == splitn(v@, n as nat, pat@),
        decreases k,
    {
        let ghost t = v@.skip(s as int);
        let ghost before = views(out@);
        if k == 1 {
            let piece = slice_chars(v, s, v.len());
            out.push(piece);
            assert(piece@ =~= t);
            assert(views(out@) =~= before + seq![t]);
            return out;
        }
        proof {
            lemma_find_seq_sound(t, pat@);
        }
        match find_from(v, &p, s) {
            Some(i) => {
                let piece = slice_chars(v, s, i);
                out.push(piece);
                proof {
                    assert(piece@ =~= t.take(i - s));
                    assert(t.skip(i - s + p.len()) =~= v@.skip(i + p.len()));
                    assert(views(out@) =~= before.push(piece@));
                    assert(before + splitn(t, k as nat, pat@) =~= views(out@) + splitn(
                        v@.skip(i + p.len()),
                        (k - 1) as nat,
                        pat@,
                    ));
                }
                s = i + p.len();
                k = k - 1;
            },
            None => {
                let piece = slice_chars(v, s, v.len());
                out.push(piece);
                assert(piece@ =~= t);
                assert(views(out@) =~= before + seq![t]);
                return out;
            },
        }
    }
}

/// `str::lines`.
pub fn lines_of(v: &Vec<char>) -> (r: Vec<Vec<char>>)
    ensures
        views(r@) == lines(v@),
{
    let nl = single('\n');
    let mut out: Vec<Vec<char>> = Vec::new();
    let mut s: usize = 0;
    assert(v@.skip(0) =~= v@);
    assert(views(out@) =~= Seq::<Seq<char>>::empty());
    while s < v.len()
        invariant
            nl@ == seq!['\n'],
            s <= v.len(),
            views(out@) + lines(v@.skip(s as int)) == lines(v@),
        decreases v.len() - s,
    {
        let ghost t = v@.skip(s as int);
        let ghost before = views(out@);
        proof {
            lemma_find_seq_sound(t, seq!['\n']);
        }
        match find_from(v, &nl, s) {
            Some(i) => {
                let end = if i > s && v[i - 1] == '\r' {
                    i - 1
                } else {
                    i
                };
                let piece = slice_chars(v, s, end);
                out.push(piece);
                proof {
                    assert(t.skip(i - s + 1) =~= v@.skip(i + 1));
                    if i > s && v@[i - 1] == '\r' {
                        assert(t[i - s - 1] == '\r');
                        assert(piece@ =~= t.take(i - s - 1));
                    } else {
                        assert(piece@ =~= t.take(i - s));
                    }
                    assert(views(out@) =~= before.push(piece@));
                    assert(before + lines(t) =~= views(out@) + lines(v@.skip(i + 1)));
                }
                s = i + 1;
            },
            None => {
                let piece = slice_chars(v, s, v.len());
                out.push(piece);
                proof {
                    assert(piece@ =~= t);
                    assert(views(out@) =~= before + seq![t]);
                    assert(v@.skip(v.len() as int) =~= Seq::<char>::empty());
                }
                s = v.len();
            },
        }
    }
    proof {
        assert(v@.skip(s as int) =~= Seq::<char>::empty());
        assert(views(out@) + Seq::<Seq<char>>::empty() =~= views(out@));
    }
    out
}

/// `char::is_whitespace`.
pub fn is_space(c: char) -> (r: bool)
    ensures
        r == is_whitespace(c),
{
    ('\u{9}' <= c && c <= '\u{d}') || c == ' ' || c == '\u{85}' || c == '\u{a0}' || c == '\u{1680}'
        || ('\u{2000}' <= c && c <= '\u{200a}') || c == '\u{2028}' || c == '\u{2029}' || c
        == '\u{202f}' || c == '\u{205f}' || c == '\u{3000}'
}

proof fn lemma_trim_start_skip(v: Seq<char>, a: int)
    requires
        0 <= a < v.len(),
        is_whitespace(v[a]),
    ensures
        trim_start(v.skip(a)) == trim_start(v.skip(a + 1)),
{
    assert(v.skip(a).drop_first() =~= v.skip(a + 1));
}

proof fn lemma_trim_end_sub(v: Seq<char>, a: int, b: int)
    requires
        0 <= a < b <= v.len(),
        is_whitespace(v[b - 1]),
    ensures
        trim_end(v.subrange(a, b)) == trim_end(v.subrange(a, b - 1)),
{
    assert(v.subrange(a, b).drop_last() =~= v.subrange(a, b - 1));
}

/// `str::trim`.
pub fn trim_chars(v: &Vec<char>) -> (r: Vec<char>)
    ensures
        r@ == trim(v@),
{
    let mut a: usize = 0;
    assert(v@.skip(0) =~= v@);
    while a < v.len() && is_space(v[a])
        invariant
            a <= v.len(),
            trim_start(v@) == trim_start(v@.skip(a as int)),
        decreases v.len() - a,
    {
        proof {
            lemma_trim_start_skip(v@, a as int);
        }
        a += 1;
    }
    assert(trim_start(v@.skip(a as int)) == v@.skip(a as int));
    assert(v@.skip(a as int) =~= v@.subrange(a as int, v.len() as int));
    let mut b: usize = v.len();
    while b > a && is_space(v[b - 1])
        invariant
            a <= b <= v.len(),
            trim(v@) == trim_end(v@.subrange(a as int, b as int)),
        decreases b,
    {
        proof {
            lemma_trim_end_sub(v@, a as int, b as int);
        }
        b -= 1;
    }
    let r = slice_chars(v, a, b);
    proof {
        if b > a {
            assert(v@.subrange(a as int, b as int).last() == v@[b - 1]);
        }
    }
    r
}

/// `str::trim` of a string, as a new `String`.
pub fn trim_str(s: &str) -> (r: String)
    ensures
        r@ == trim(s@),
{
    let v = str_chars(s);
    let t = trim_chars(&v);
    string_of(&t, 0, t.len())
}

pub fn is_digit(c: char) -> (r: bool)
    ensures
        r == is_ascii_digit(c),
{
    '0' <= c && c <= '9'
}

proof fn lemma_decimal_take(s: Seq<char>, i: int)
    requires
        0 <= i < s.len(),
    ensures
        decimal_value(s.take(i + 1)) == decimal_value(s.take(i)) * 10 + digit_value(s[i]),
{
    assert(s.take(i + 1).drop_last() =~= s.take(i));
}

proof fn lemma_decimal_nonneg(s: Seq<char>)
    requires
        all_digits(s),
    ensures
        decimal_value(s) >= 0,
    decreases s.len(),
{
    if s.len() > 0 {
        assert(all_digits(s.drop_last())) by {
            assert forall|i: int| 0 <= i < s.drop_last().len() implies #[trigger] is_ascii_digit(
                s.drop_last()[i],
            ) by {
                assert(s.drop_last()[i] == s[i]);
            }
        }
        lemma_decimal_nonneg(s.drop_last());
        assert(is_ascii_digit(s[s.len() - 1]));
    }
}

/// `i64::from_str`, as an `Option`.
pub fn parse_i64(v: &Vec<char>) -> (r: Option<i64>)
    ensures
        r == parse_i64_spec(v@),
{
    let mut start: usize = 0;
    let mut neg = false;
    if v.len() > 0 && v[0] == '-' {
        start = 1;
        neg = true;
    } else if v.len() > 0 && v[0] == '+' {
        start = 1;
    }
    let ghost digits_g = v@.skip(start as int);
    assert(start == 1 ==> digits_g =~= v@.drop_first());
    assert(start == 0 ==> digits_g =~= v@);
    assert(parse_i64_spec(v@) == i64_of(neg, digits_g));
    if start == v.len() {
        return None;
    }
    // 2^63: the largest magnitude of an `i64`
    let limit: u64 = 9223372036854775808;
    let mut acc: u64 = 0;
    let mut too_big = false;
    let mut i = start;
    assert(digits_g.take(0) =~= Seq::<char>::empty());
    while i < v.len()
        invariant
            start <= i <= v.len(),
            digits_g == v@.skip(start as int),
            parse_i64_spec(v@) == i64_of(neg, digits_g),
            limit == 9223372036854775808u64,
            all_digits(digits_g.take(i - start)),
            decimal_value(digits_g.take(i - start)) >= 0,
            too_big ==> decimal_value(digits_g.take(i - start)) > limit,
            !too_big ==> acc == decimal_value(digits_g.take(i - start)) && acc <= limit,
        decreases v.len() - i,
    {
        let c = v[i];
        if !is_digit(c) {
            proof {
                assert(digits_g[i - start] == c);
                assert(!all_digits(digits_g));
            }
            return None;
        }
        proof {
            lemma_decimal_take(digits_g, i - start);
            assert(digits_g[i - start] == c);
            assert(all_digits(digits_g.take(i - start + 1))) by {
                assert forall|j: int| 0 <= j < i - start + 1 implies #[trigger] is_ascii_digit(
                    digits_g.take(i - start + 1)[j],
                ) by {
                    if j < i - start {
                        assert(digits_g.take(i - start + 1)[j] == digits_g.take(i - start)[j]);
                    }
                }
            }
        }
        let d = (c as u32 - '0' as u32) as u64;
        if !too_big {
            if acc > (limit - d) / 10 {
                too_big = true;
            } else {
                acc = acc * 10 + d;
            }
        }
        i += 1;
    }
    assert(digits_g.take(i - start) =~= digits_g);
    if too_big {
        return None;
    }
    if neg {
        if acc == limit {
            Some(i64::MIN)
        } else {
            Some(-(acc as i64))
        }
    } else {
        if acc == limit {
            None
        } else {
            Some(acc as i64)
        }
    }
}

/// `u16::from_str`.
pub fn parse_u16(v: &Vec<char>) -> (r: Result<u16, IntErrorKind>)
    ensures
        r == parse_u16_spec(v@),
{
    if v.len() == 0 {
        return Err(IntErrorKind::Empty);
    }
    if v.len() == 1 && (v[0] == '+' || v[0] == '-') {
        return Err(IntErrorKind::InvalidDigit);
    }
    let start: usize = if v[0] == '+' {
        1
    } else {
        0
    };
    let ghost digits = v@.skip(start as int);
    assert(v@.skip(1) =~= v@.drop_first());
    assert(v@.skip(0) =~= v@);
    let mut acc: u32 = 0;
    let mut i = start;
    while i < v.len()
        invariant
            start <= i <= v.len(),
            acc <= 65535,
            parse_u16_spec(v@) == u16_digits(v@.skip(i as int), acc as int),
        decreases v.len() - i,
    {
        let c = v[i];
        assert(v@.skip(i as int)[0] == c);
        if !is_digit(c) {
            return Err(IntErrorKind::InvalidDigit);
        }
        let d = c as u32 - '0' as u32;
        if acc * 10 + d > 65535 {
            return Err(IntErrorKind::PosOverflow);
        }
        assert(v@.skip(i as int).drop_first() =~= v@.skip(i + 1));
        acc = acc * 10 + d;
        i += 1;
    }
    assert(v@.skip(i as int).len() == 0);
    Ok(acc as u16)
}

/// `s` padded on the right with spaces to `width` characters (`{:<width}`).
pub open spec fn pad_right(s: Seq<char>, width: nat) -> Seq<char> {
    if s.len() < width {
        s + Seq::new((width - s.len()) as nat, |_i: int| ' ')
    } else {
        s
    }
}

/// Appends `s` padded to `width` characters.
pub fn push_padded(out: &mut String, s: &str, width: usize)
    ensures
        final(out)@ == old(out)@ + pad_right(s@, width as nat),
{
    let n = s.unicode_len();
    out.append(s);
    let ghost base = old(out)@ + s@;
    if n < width {
        let mut k = n;
        while k < width
            invariant
                n <= k <= width,
                n == s@.len(),
                out@ == base + Seq::new((k - n) as nat, |_i: int| ' '),
            decreases width - k,
        {
            push_char(out, ' ');
            assert(Seq::new((k + 1 - n) as nat, |_i: int| ' ') =~= Seq::new(
                (k - n) as nat,
                |_i: int| ' ',
            ).push(' '));
            k += 1;
        }
        assert(out@ =~= old(out)@ + pad_right(s@, width as nat));
    } else {
        assert(out@ =~= old(out)@ + pad_right(s@, width as nat));
    }
}


/// Appends the characters of `v`.
pub fn push_chars(out: &mut String, v: &Vec<char>)
    ensures
        final(out)@ == old(out)@ + v@,
{
    let mut i: usize = 0;
    while i < v.len()
        invariant
            i <= v.len(),
            out@ == old(out)@ + v@.take(i as int),
        decreases v.len() - i,
    {
        push_char(out, v[i]);
        assert(v@.take(i + 1) =~= v@.take(i as int).push(v@[i as int]));
        assert(old(out)@ + v@.take(i + 1) =~= (old(out)@ + v@.take(i as int)).push(v@[i as int]));
        i += 1;
    }
    assert(v@.take(v.len() as int) =~= v@);
}

/// The characters of `v` as a `String`.
pub fn string_from(v: &Vec<char>) -> (r: String)
    ensures
        r@ == v@,
{
    let mut r = String::new();
    push_chars(&mut r, v);
    assert(Seq::<char>::empty() + v@ =~= v@);
    r
}

/// The text before and after the first `c`.
pub fn split_once_char(v: &Vec<char>, c: char) -> (r: Option<(Vec<char>, Vec<char>)>)
    ensures
        match split_once(v@, seq![c]) {
            Some((a, b)) => r matches Some((x, y)) && x@ == a && y@ == b,
            None => r is None,
        },
{
    let p = single(c);
    assert(v@.skip(0) =~= v@);
    proof {
        lemma_find_seq_sound(v@, seq![c]);
    }
    match find_from(v, &p, 0) {
        Some(i) => {
            let a = slice_chars(v, 0, i);
            let b = slice_chars(v, i + 1, v.len());
            assert(a@ =~= v@.take(i as int));
            assert(b@ =~= v@.skip(i + 1));
            Some((a, b))
        },
        None => None,
    }
}

/// The text before and after the first non-empty `pat`.
pub fn split_once_str(v: &Vec<char>, pat: &str) -> (r: Option<(Vec<char>, Vec<char>)>)
    requires
        pat@.len() > 0,
    ensures
        match split_once(v@, pat@) {
            Some((a, b)) => r matches Some((x, y)) && x@ == a && y@ == b,
            None => r is None,
        },
{
    let p = str_chars(pat);
    assert(v@.skip(0) =~= v@);
    proof {
        lemma_find_seq_sound(v@, pat@);
    }
    match find_from(v, &p, 0) {
        Some(i) => {
            let a = slice_chars(v, 0, i);
            let b = slice_chars(v, i + p.len(), v.len());
            assert(a@ =~= v@.take(i as int));
            assert(b@ =~= v@.skip(i + p.len()));
            Some((a, b))
        },
        None => None,
    }
}

/// `split_all` always yields at least one piece.
pub proof fn lemma_split_all_nonempty(s: Seq<char>, pat: Seq<char>)
    requires
        pat.len() > 0,
    ensures
        split_all(s, pat).len() >= 1,
{
    lemma_find_seq_sound(s, pat);
}

/// `str::split` with a character pattern.
pub fn split_on_char(v: &Vec<char>, c: char) -> (r: Vec<Vec<char>>)
    ensures
        views(r@) == split_all(v@, seq![c]),
{
    let mut p: Vec<char> = Vec::new();
    p.push(c);
    assert(p@ =~= seq![c]);
    let mut out: Vec<Vec<char>> = Vec::new();
    split_all_from(v, &p, 0, &mut out);
    assert(v@.skip(0) =~= v@);
    assert(views(out@) =~= Seq::<Seq<char>>::empty() + split_all(v@, seq![c]));
    out
}

} // verus!
