//! Character-sequence utilities shared by every parser in the crate:
//! whitespace tokenization, single-character splitting, line splitting,
//! trimming, and decimal number reading and printing.  Each executable
//! function is pinned to a spec function over `Seq<char>`.
use vstd::prelude::*;

use crate::spec_is_space;
use crate::is_space;

verus! {

// ---------------------------------------------------------------------------
// Character classes
// ---------------------------------------------------------------------------
/// True for the ten ASCII decimal digits.
pub open spec fn spec_is_digit(c: char) -> bool {
    48 <= c as u32 && c as u32 <= 57
}

/// Decimal digit test.
pub fn is_digit(c: char) -> (r: bool)
    ensures
        r == spec_is_digit(c),
{
    let u = c as u32;
    48 <= u && u <= 57
}

/// Numeric value of a decimal digit character.
pub open spec fn digit_val(c: char) -> int {
    c as u32 - 48
}

/// The character for a decimal digit value in 0..=9.
pub open spec fn digit_char(d: int) -> char {
    if d == 0 {
        '0'
    } else if d == 1 {
        '1'
    } else if d == 2 {
        '2'
    } else if d == 3 {
        '3'
    } else if d == 4 {
        '4'
    } else if d == 5 {
        '5'
    } else if d == 6 {
        '6'
    } else if d == 7 {
        '7'
    } else if d == 8 {
        '8'
    } else {
        '9'
    }
}

/// Executable form of `digit_char`.
pub fn digit_char_of(d: u64) -> (c: char)
    requires
        d <= 9,
    ensures
        c == digit_char(d as int),
{
    if d == 0 {
        '0'
    } else if d == 1 {
        '1'
    } else if d == 2 {
        '2'
    } else if d == 3 {
        '3'
    } else if d == 4 {
        '4'
    } else if d == 5 {
        '5'
    } else if d == 6 {
        '6'
    } else if d == 7 {
        '7'
    } else if d == 8 {
        '8'
    } else {
        '9'
    }
}

/// The character `c` repeated `n` times.
pub open spec fn char_repeat(c: char, n: int) -> Seq<char> {
    Seq::new(n as nat, |i: int| c)
}

// ---------------------------------------------------------------------------
// First index of interest in a sequence
// ---------------------------------------------------------------------------
/// Length of the maximal leading run of non-whitespace characters.
pub open spec fn token_len(s: Seq<char>) -> int
    decreases s.len(),
{
    if s.len() <= 0 {
        0
    } else if spec_is_space(s[0]) {
        0
    } else {
        1 + token_len(s.skip(1))
    }
}

/// `token_len` lies in `[0, s.len()]`, nothing before it is whitespace,
/// and the character at it (if any) is whitespace.
pub proof fn lemma_token_len(s: Seq<char>)
    ensures
        0 <= token_len(s) <= s.len(),
        forall|j: int| 0 <= j < token_len(s) ==> !spec_is_space(#[trigger] s[j]),
        token_len(s) < s.len() ==> spec_is_space(s[token_len(s)]),
    decreases s.len(),
{
    if s.len() > 0 && !spec_is_space(s[0]) {
        lemma_token_len(s.skip(1));
        assert forall|j: int| 0 <= j < token_len(s) implies !spec_is_space(#[trigger] s[j]) by {
            if j > 0 {
                assert(s[j] == s.skip(1)[j - 1]);
            }
        }
        if token_len(s) < s.len() {
            assert(s[token_len(s)] == s.skip(1)[token_len(s.skip(1))]);
        }
    }
}

/// `token_len` is the unique index with the properties above.
pub proof fn lemma_token_len_is(s: Seq<char>, k: int)
    requires
        0 <= k <= s.len(),
        forall|j: int| 0 <= j < k ==> !spec_is_space(#[trigger] s[j]),
        k < s.len() ==> spec_is_space(s[k]),
    ensures
        token_len(s) == k,
{
    lemma_token_len(s);
    let f = token_len(s);
    if f < k {
        assert(!spec_is_space(s[f]));
    }
    if k < f {
        assert(!spec_is_space(s[k]));
    }
}

/// Index of the first occurrence of `c`, or `s.len()` if absent.
pub open spec fn find_char(s: Seq<char>, c: char) -> int
    decreases s.len(),
{
    if s.len() <= 0 {
        0
    } else if s[0] == c {
        0
    } else {
        1 + find_char(s.skip(1), c)
    }
}

/// `find_char` lies in `[0, s.len()]`, `c` does not occur before it,
/// and it points at `c` when `c` occurs at all.
pub proof fn lemma_find_char(s: Seq<char>, c: char)
    ensures
        0 <= find_char(s, c) <= s.len(),
        forall|j: int| 0 <= j < find_char(s, c) ==> #[trigger] s[j] != c,
        find_char(s, c) < s.len() ==> s[find_char(s, c)] == c,
    decreases s.len(),
{
    if s.len() > 0 && s[0] != c {
        lemma_find_char(s.skip(1), c);
        assert forall|j: int| 0 <= j < find_char(s, c) implies #[trigger] s[j] != c by {
            if j > 0 {
                assert(s[j] == s.skip(1)[j - 1]);
            }
        }
        if find_char(s, c) < s.len() {
            assert(s[find_char(s, c)] == s.skip(1)[find_char(s.skip(1), c)]);
        }
    }
}

/// `find_char` is the unique index with the properties above.
pub proof fn lemma_find_char_is(s: Seq<char>, c: char, k: int)
    requires
        0 <= k <= s.len(),
        forall|j: int| 0 <= j < k ==> #[trigger] s[j] != c,
        k < s.len() ==> s[k] == c,
    ensures
        find_char(s, c) == k,
{
    lemma_find_char(s, c);
    let f = find_char(s, c);
    if f < k {
        assert(s[f] != c);
    }
    if k < f {
        assert(s[k] != c);
    }
}

/// Length of the maximal leading run of decimal digits.
pub open spec fn digit_run(s: Seq<char>) -> int
    decreases s.len(),
{
    if s.len() <= 0 {
        0
    } else if !spec_is_digit(s[0]) {
        0
    } else {
        1 + digit_run(s.skip(1))
    }
}

/// `digit_run` lies in `[0, s.len()]`, everything before it is a digit,
/// and the character at it (if any) is not.
pub proof fn lemma_digit_run(s: Seq<char>)
    ensures
        0 <= digit_run(s) <= s.len(),
        forall|j: int| 0 <= j < digit_run(s) ==> spec_is_digit(#[trigger] s[j]),
        digit_run(s) < s.len() ==> !spec_is_digit(s[digit_run(s)]),
    decreases s.len(),
{
    if s.len() > 0 && spec_is_digit(s[0]) {
        lemma_digit_run(s.skip(1));
        assert forall|j: int| 0 <= j < digit_run(s) implies spec_is_digit(#[trigger] s[j]) by {
            if j > 0 {
                assert(s[j] == s.skip(1)[j - 1]);
            }
        }
        if digit_run(s) < s.len() {
            assert(s[digit_run(s)] == s.skip(1)[digit_run(s.skip(1))]);
        }
    }
}

/// `digit_run` is the unique index with the properties above.
pub proof fn lemma_digit_run_is(s: Seq<char>, k: int)
    requires
        0 <= k <= s.len(),
        forall|j: int| 0 <= j < k ==> spec_is_digit(#[trigger] s[j]),
        k < s.len() ==> !spec_is_digit(s[k]),
    ensures
        digit_run(s) == k,
{
    lemma_digit_run(s);
    let f = digit_run(s);
    if f < k {
        assert(spec_is_digit(s[f]));
    }
    if k < f {
        assert(spec_is_digit(s[k]));
    }
}

// ---------------------------------------------------------------------------
// Whitespace tokenization
// ---------------------------------------------------------------------------
/// The whitespace-separated tokens of `s`, in order; runs of whitespace
/// separate tokens and leading or trailing whitespace yields none.
pub open spec fn spec_tokenize(s: Seq<char>) -> Seq<Seq<char>>
    decreases s.len(),
    via spec_tokenize_dec
{
    if s.len() <= 0 {
        seq![]
    } else if spec_is_space(s[0]) {
        spec_tokenize(s.skip(1))
    } else {
        seq![s.take(token_len(s))] + spec_tokenize(s.skip(token_len(s)))
    }
}

#[via_fn]
proof fn spec_tokenize_dec(s: Seq<char>) {
    if s.len() > 0 && !spec_is_space(s[0]) {
        lemma_token_len(s);
    }
}

// ---------------------------------------------------------------------------
// Splitting on one character
// ---------------------------------------------------------------------------
/// The segments of `s` between occurrences of `c`; adjacent occurrences
/// yield empty segments, and a trailing occurrence yields a trailing
/// empty segment.
pub open spec fn spec_split_char(s: Seq<char>, c: char) -> Seq<Seq<char>>
    decreases s.len(),
    via spec_split_char_dec
{
    if find_char(s, c) >= s.len() {
        seq![s]
    } else {
        seq![s.take(find_char(s, c))] + spec_split_char(s.skip(find_char(s, c) + 1), c)
    }
}

#[via_fn]
proof fn spec_split_char_dec(s: Seq<char>, c: char) {
    lemma_find_char(s, c);
}

/// The parts of `s` before and after the first occurrence of `c`,
/// or `None` if `c` does not occur.
pub open spec fn spec_split_once(s: Seq<char>, c: char) -> Option<(Seq<char>, Seq<char>)> {
    if find_char(s, c) >= s.len() {
        None
    } else {
        Some((s.take(find_char(s, c)), s.skip(find_char(s, c) + 1)))
    }
}

// ---------------------------------------------------------------------------
// Lines
// ---------------------------------------------------------------------------
/// `l` without one trailing carriage return, if it has one.
pub open spec fn strip_cr(l: Seq<char>) -> Seq<char> {
    if l.len() > 0 && l[l.len() - 1] == '\r' {
        l.take(l.len() - 1)
    } else {
        l
    }
}

/// The lines of `s`: segments between line feeds, each without a
/// trailing carriage return, with no final empty line when `s` ends in
/// a line feed.
pub open spec fn spec_lines(s: Seq<char>) -> Seq<Seq<char>>
    decreases s.len(),
    via spec_lines_dec
{
    if s.len() == 0 {
        seq![]
    } else if find_char(s, '\n') >= s.len() {
        seq![strip_cr(s)]
    } else {
        seq![strip_cr(s.take(find_char(s, '\n')))] + spec_lines(s.skip(find_char(s, '\n') + 1))
    }
}

#[via_fn]
proof fn spec_lines_dec(s: Seq<char>) {
    lemma_find_char(s, '\n');
}

// ---------------------------------------------------------------------------
// Trimming
// ---------------------------------------------------------------------------
/// `s` without leading whitespace.
pub open spec fn spec_trim_start(s: Seq<char>) -> Seq<char>
    decreases s.len(),
{
    if s.len() > 0 && spec_is_space(s[0]) {
        spec_trim_start(s.skip(1))
    } else {
        s
    }
}

/// `s` without trailing whitespace.
pub open spec fn spec_trim_end(s: Seq<char>) -> Seq<char>
    decreases s.len(),
{
    if s.len() > 0 && spec_is_space(s[s.len() - 1]) {
        spec_trim_end(s.take(s.len() - 1))
    } else {
        s
    }
}

/// `s` without leading and trailing whitespace.
pub open spec fn spec_trim(s: Seq<char>) -> Seq<char> {
    spec_trim_end(spec_trim_start(s))
}

proof fn lemma_trim_start_skip(s: Seq<char>, lo: int)
    requires
        0 <= lo <= s.len(),
        forall|j: int| 0 <= j < lo ==> spec_is_space(#[trigger] s[j]),
        lo < s.len() ==> !spec_is_space(s[lo]),
    ensures
        spec_trim_start(s) == s.skip(lo),
    decreases lo,
{
    if lo == 0 {
        assert(s.skip(0) =~= s);
    } else {
        lemma_trim_start_skip(s.skip(1), lo - 1);
        assert(s.skip(1).skip(lo - 1) =~= s.skip(lo));
    }
}

proof fn lemma_trim_end_take(s: Seq<char>, hi: int)
    requires
        0 <= hi <= s.len(),
        forall|j: int| hi <= j < s.len() ==> spec_is_space(#[trigger] s[j]),
        hi > 0 ==> !spec_is_space(s[hi - 1]),
    ensures
        spec_trim_end(s) == s.take(hi),
    decreases s.len() - hi,
{
    if hi == s.len() {
        assert(s.take(hi) =~= s);
    } else {
        lemma_trim_end_take(s.take(s.len() - 1), hi);
    }
}

// ---------------------------------------------------------------------------
// Decimal values
// ---------------------------------------------------------------------------
/// True when every character of `s` is a decimal digit.
pub open spec fn all_digits(s: Seq<char>) -> bool {
    forall|j: int| 0 <= j < s.len() ==> spec_is_digit(#[trigger] s[j])
}

/// The value of `s` read as a decimal numeral, most significant digit
/// first.
pub open spec fn digits_val(s: Seq<char>) -> int
    decreases s.len(),
{
    if s.len() <= 0 {
        0
    } else {
        digits_val(s.take(s.len() - 1)) * 10 + digit_val(s[s.len() - 1])
    }
}

/// What a string parses to as a `u64`: its digit value when it is a
/// non-empty all-digit string whose value fits, and nothing otherwise.
pub open spec fn spec_parse_u64(s: Seq<char>) -> Option<u64> {
    if s.len() > 0 && all_digits(s) && digits_val(s) <= u64::MAX {
        Some(digits_val(s) as u64)
    } else {
        None
    }
}

/// `usize` analogue of `spec_parse_u64`.
pub open spec fn spec_parse_usize(s: Seq<char>) -> Option<usize> {
    if s.len() > 0 && all_digits(s) && digits_val(s) <= usize::MAX {
        Some(digits_val(s) as usize)
    } else {
        None
    }
}

/// A numeral of digits has a non-negative value.
pub proof fn lemma_digits_val_nonneg(s: Seq<char>)
    requires
        all_digits(s),
    ensures
        digits_val(s) >= 0,
    decreases s.len(),
{
    if s.len() > 0 {
        assert(all_digits(s.take(s.len() - 1)));
        lemma_digits_val_nonneg(s.take(s.len() - 1));
    }
}

/// Dropping trailing digits of a numeral cannot increase its value.
pub proof fn lemma_digits_val_prefix(s: Seq<char>, i: int)
    requires
        all_digits(s),
        0 <= i <= s.len(),
    ensures
        digits_val(s.take(i)) <= digits_val(s),
    decreases s.len() - i,
{
    if i == s.len() {
        assert(s.take(i) =~= s);
    } else {
        lemma_digits_val_prefix(s, i + 1);
        let t = s.take(i + 1);
        assert(t.take(t.len() - 1) =~= s.take(i));
        assert(all_digits(s.take(i)));
        lemma_digits_val_nonneg(s.take(i));
        assert(spec_is_digit(s[i]));
        assert(digits_val(t) == digits_val(s.take(i)) * 10 + digit_val(s[i]));
        assert(digits_val(s.take(i)) <= digits_val(t));
    }
}

/// The digits of `n`, most significant first, with no leading zero
/// except for `n == 0` itself.
pub open spec fn spec_u64_digits(n: int) -> Seq<char>
    decreases n,
{
    if n <= 9 {
        seq![digit_char(n)]
    } else {
        spec_u64_digits(n / 10) + seq![digit_char(n % 10)]
    }
}

/// A digit character carries the digit value it was made from.
pub proof fn lemma_digit_char_val(d: int)
    requires
        0 <= d <= 9,
    ensures
        digit_val(digit_char(d)) == d,
        spec_is_digit(digit_char(d)),
{
    if d == 0 {
        assert('0' as u32 == 48);
    } else if d == 1 {
        assert('1' as u32 == 49);
    } else if d == 2 {
        assert('2' as u32 == 50);
    } else if d == 3 {
        assert('3' as u32 == 51);
    } else if d == 4 {
        assert('4' as u32 == 52);
    } else if d == 5 {
        assert('5' as u32 == 53);
    } else if d == 6 {
        assert('6' as u32 == 54);
    } else if d == 7 {
        assert('7' as u32 == 55);
    } else if d == 8 {
        assert('8' as u32 == 56);
    } else {
        assert('9' as u32 == 57);
    }
}

/// Every character that `spec_u64_digits` yields is a digit.
pub proof fn lemma_u64_digits_are_digits(n: int)
    requires
        n >= 0,
    ensures
        all_digits(spec_u64_digits(n)),
        spec_u64_digits(n).len() >= 1,
    decreases n,
{
    if n <= 9 {
        lemma_digit_char_val(n);
    } else {
        lemma_u64_digits_are_digits(n / 10);
        lemma_digit_char_val(n % 10);
    }
}

/// Printing then reading a number is the identity.
pub proof fn lemma_u64_digits_value(n: int)
    requires
        n >= 0,
    ensures
        digits_val(spec_u64_digits(n)) == n,
    decreases n,
{
    if n <= 9 {
        lemma_digit_char_val(n);
        let d = spec_u64_digits(n);
        assert(d.len() == 1 && d[0] == digit_char(n));
        assert(d.take(0) =~= Seq::<char>::empty());
        assert(digits_val(d) == digits_val(d.take(0)) * 10 + digit_val(d[0]));
    } else {
        lemma_u64_digits_value(n / 10);
        lemma_digit_char_val(n % 10);
        let d = spec_u64_digits(n);
        assert(d.take(d.len() - 1) =~= spec_u64_digits(n / 10));
        assert(digits_val(d) == digits_val(d.take(d.len() - 1)) * 10 + digit_val(d[d.len() - 1]));
        assert(n == (n / 10) * 10 + n % 10) by (nonlinear_arith);
    }
}

// ---------------------------------------------------------------------------
// Executable helpers
// ---------------------------------------------------------------------------
/// Relies on std's `String::push`: appends the given character to the
/// end of the string.
#[verifier::external_body]
pub fn push_char(s: &mut String, c: char)
    ensures
        final(s)@ == old(s)@.push(c),
{
    s.push(c);
}

/// The characters of `s` as a vector.
pub fn chars_of(s: &str) -> (r: Vec<char>)
    ensures
        r@ == s@,
{
    let n = s.unicode_len();
    let mut r: Vec<char> = Vec::new();
    let mut i: usize = 0;
    while i < n
        invariant
            i <= n,
            n == s@.len(),
            r@ == s@.take(i as int),
        decreases n - i,
    {
        let c = s.get_char(i);
        r.push(c);
        proof {
            assert(s@.take(i + 1 as int) =~= s@.take(i as int).push(s@[i as int]));
        }
        i += 1;
    }
    proof {
        assert(s@.take(n as int) =~= s@);
    }
    r
}

/// A string holding `cs[from..to]`.
pub fn string_range(cs: &Vec<char>, from: usize, to: usize) -> (r: String)
    requires
        from <= to <= cs.len(),
    ensures
        r@ == cs@.subrange(from as int, to as int),
{
    let mut r = String::new();
    let mut i: usize = from;
    while i < to
        invariant
            from <= i <= to <= cs.len(),
            r@ == cs@.subrange(from as int, i as int),
        decreases to - i,
    {
        push_char(&mut r, cs[i]);
        proof {
            assert(cs@.subrange(from as int, i + 1 as int) =~= cs@.subrange(
                from as int,
                i as int,
            ).push(cs@[i as int]));
        }
        i += 1;
    }
    r
}

/// A vector holding `cs[from..to]`.
pub fn chars_range(cs: &Vec<char>, from: usize, to: usize) -> (r: Vec<char>)
    requires
        from <= to <= cs.len(),
    ensures
        r@ == cs@.subrange(from as int, to as int),
{
    let mut r: Vec<char> = Vec::new();
    let mut i: usize = from;
    while i < to
        invariant
            from <= i <= to <= cs.len(),
            r@ == cs@.subrange(from as int, i as int),
        decreases to - i,
    {
        r.push(cs[i]);
        proof {
            assert(cs@.subrange(from as int, i + 1 as int) =~= cs@.subrange(
                from as int,
                i as int,
            ).push(cs@[i as int]));
        }
        i += 1;
    }
    r
}

/// A string holding exactly the characters of `cs`.
pub fn string_from_chars(cs: &Vec<char>) -> (r: String)
    ensures
        r@ == cs@,
{
    let r = string_range(cs, 0, cs.len());
    proof {
        assert(cs@.subrange(0, cs@.len() as int) =~= cs@);
    }
    r
}

/// Whether two character vectors hold the same characters.
pub fn chars_equal(a: &Vec<char>, b: &Vec<char>) -> (r: bool)
    ensures
        r == (a@ == b@),
{
    if a.len() != b.len() {
        proof {
            assert(a@ != b@);
        }
        return false;
    }
    let mut i: usize = 0;
    while i < a.len()
        invariant
            i <= a.len(),
            a.len() == b.len(),
            forall|j: int| 0 <= j < i ==> a@[j] == b@[j],
        decreases a.len() - i,
    {
        if a[i] != b[i] {
            return false;
        }
        i += 1;
    }
    proof {
        assert(a@ =~= b@);
    }
    true
}

/// Whether a string and a string slice hold the same characters.
pub fn str_equal(a: &String, b: &str) -> (r: bool)
    ensures
        r == (a@ == b@),
{
    let bs = b.to_owned();
    a.eq(&bs)
}

/// Whether `cs` consists of the single character `c`.
pub fn is_single_char(cs: &Vec<char>, c: char) -> (r: bool)
    ensures
        r == (cs@ == seq![c]),
{
    let r = cs.len() == 1 && cs[0] == c;
    proof {
        if r {
            assert(cs@ =~= seq![c]);
        }
    }
    r
}

/// Whether `cs` begins with the character `c`.
pub fn first_char_is(cs: &Vec<char>, c: char) -> (r: bool)
    ensures
        r == (cs@.len() > 0 && cs@[0] == c),
{
    cs.len() > 0 && cs[0] == c
}

/// The whitespace-separated tokens of `cs`.
pub fn tokenize_chars(cs: &Vec<char>) -> (r: Vec<Vec<char>>)
    ensures
        r.deep_view() == spec_tokenize(cs@),
{
    let mut toks: Vec<Vec<char>> = Vec::new();
    let mut i: usize = 0;
    proof {
        assert(cs@.skip(0) =~= cs@);
        assert(toks.deep_view() + spec_tokenize(cs@) =~~= spec_tokenize(cs@));
    }
    while i < cs.len()
        invariant
            i <= cs.len(),
            toks.deep_view() + spec_tokenize(cs@.skip(i as int)) =~~= spec_tokenize(cs@),
        decreases cs.len() - i,
    {
        if is_space(cs[i]) {
            proof {
                assert(cs@.skip(i as int).skip(1) =~= cs@.skip(i + 1 as int));
            }
            i += 1;
        } else {
            let start = i;
            i += 1;
            while i < cs.len() && !is_space(cs[i])
                invariant
                    start < i <= cs.len(),
                    forall|j: int| start <= j < i ==> !spec_is_space(#[trigger] cs@[j]),
                decreases cs.len() - i,
            {
                i += 1;
            }
            let ghost rest = cs@.skip(start as int);
            proof {
                assert forall|j: int| 0 <= j < i - start implies !spec_is_space(
                    #[trigger] rest[j],
                ) by {
                    assert(rest[j] == cs@[start + j]);
                }
                if i < cs.len() {
                    assert(rest[i - start] == cs@[i as int]);
                }
                lemma_token_len_is(rest, i - start);
                assert(rest.take(i - start) =~= cs@.subrange(start as int, i as int));
                assert(rest.skip(i - start) =~= cs@.skip(i as int));
            }
            let tok = chars_range(cs, start, i);
            toks.push(tok);
            proof {
                assert(toks.deep_view() + spec_tokenize(cs@.skip(i as int)) =~~= spec_tokenize(
                    cs@,
                ));
            }
        }
    }
    proof {
        assert(cs@.skip(cs@.len() as int) =~= Seq::<char>::empty());
        assert(toks.deep_view() =~~= spec_tokenize(cs@));
    }
    toks
}

/// The segments of `cs` between occurrences of `c`.
pub fn split_char_chars(cs: &Vec<char>, c: char) -> (r: Vec<Vec<char>>)
    ensures
        r.deep_view() == spec_split_char(cs@, c),
{
    let mut segs: Vec<Vec<char>> = Vec::new();
    let mut start: usize = 0;
    let mut i: usize = 0;
    proof {
        assert(cs@.skip(0) =~= cs@);
        assert(segs.deep_view() + spec_split_char(cs@, c) =~~= spec_split_char(cs@, c));
    }
    while i < cs.len()
        invariant
            start <= i <= cs.len(),
            forall|j: int| start <= j < i ==> #[trigger] cs@[j] != c,
            segs.deep_view() + spec_split_char(cs@.skip(start as int), c) =~~= spec_split_char(
                cs@,
                c,
            ),
        decreases cs.len() - i,
    {
        if cs[i] == c {
            let ghost rest = cs@.skip(start as int);
            proof {
                assert forall|j: int| 0 <= j < i - start implies #[trigger] rest[j] != c by {
                    assert(rest[j] == cs@[start + j]);
                }
                assert(rest[i - start] == cs@[i as int]);
                lemma_find_char_is(rest, c, i - start);
                assert(rest.take(i - start) =~= cs@.subrange(start as int, i as int));
                assert(rest.skip(i - start + 1) =~= cs@.skip(i + 1 as int));
            }
            let seg = chars_range(cs, start, i);
            segs.push(seg);
            start = i + 1;
            i += 1;
            proof {
                assert(segs.deep_view() + spec_split_char(cs@.skip(start as int), c)
                    =~~= spec_split_char(cs@, c));
            }
        } else {
            i += 1;
        }
    }
    let ghost rest = cs@.skip(start as int);
    proof {
        assert forall|j: int| 0 <= j < rest.len() implies #[trigger] rest[j] != c by {
            assert(rest[j] == cs@[start + j]);
        }
        lemma_find_char_is(rest, c, rest.len() as int);
        assert(rest =~= cs@.subrange(start as int, cs@.len() as int));
    }
    let seg = chars_range(cs, start, cs.len());
    segs.push(seg);
    proof {
        assert(segs.deep_view() =~~= spec_split_char(cs@, c));
    }
    segs
}

/// The parts before and after the first occurrence of `c`, if any.
pub fn split_once_chars(cs: &Vec<char>, c: char) -> (r: Option<(Vec<char>, Vec<char>)>)
    ensures
        match r {
            Some(p) => spec_split_once(cs@, c) == Some((p.0@, p.1@)),
            None => spec_split_once(cs@, c) is None,
        },
{
    let mut i: usize = 0;
    while i < cs.len()
        invariant
            i <= cs.len(),
            forall|j: int| 0 <= j < i ==> #[trigger] cs@[j] != c,
        decreases cs.len() - i,
    {
        if cs[i] == c {
            proof {
                lemma_find_char_is(cs@, c, i as int);
            }
            let before = chars_range(cs, 0, i);
            let after = chars_range(cs, i + 1, cs.len());
            proof {
                assert(cs@.subrange(0, i as int) =~= cs@.take(i as int));
                assert(cs@.subrange(i + 1 as int, cs@.len() as int) =~= cs@.skip(i + 1 as int));
            }
            return Some((before, after));
        }
        i += 1;
    }
    proof {
        lemma_find_char_is(cs@, c, cs@.len() as int);
    }
    None
}

/// The lines of the text `s`.
pub fn split_lines(s: &str) -> (r: Vec<String>)
    ensures
        r.deep_view() == spec_lines(s@),
{
    let cs = chars_of(s);
    let mut lines: Vec<String> = Vec::new();
    let mut start: usize = 0;
    let mut i: usize = 0;
    proof {
        assert(cs@.skip(0) =~= cs@);
        assert(lines.deep_view() + spec_lines(cs@) =~~= spec_lines(cs@));
    }
    while i < cs.len()
        invariant
            start <= i <= cs.len(),
            cs@ == s@,
            forall|j: int| start <= j < i ==> #[trigger] cs@[j] != '\n',
            lines.deep_view() + spec_lines(cs@.skip(start as int)) =~~= spec_lines(cs@),
        decreases cs.len() - i,
    {
        if cs[i] == '\n' {
            let ghost rest = cs@.skip(start as int);
            proof {
                assert forall|j: int| 0 <= j < i - start implies #[trigger] rest[j] != '\n' by {
                    assert(rest[j] == cs@[start + j]);
                }
                assert(rest[i - start] == cs@[i as int]);
                lemma_find_char_is(rest, '\n', i - start);
                assert(rest.take(i - start) =~= cs@.subrange(start as int, i as int));
                assert(rest.skip(i - start + 1) =~= cs@.skip(i + 1 as int));
            }
            let end = if i > start && cs[i - 1] == '\r' {
                i - 1
            } else {
                i
            };
            proof {
                assert(cs@.subrange(start as int, end as int) =~= strip_cr(
                    cs@.subrange(start as int, i as int),
                ));
            }
            let line = string_range(&cs, start, end);
            lines.push(line);
            start = i + 1;
            i += 1;
            proof {
                assert(lines.deep_view() + spec_lines(cs@.skip(start as int)) =~~= spec_lines(
                    cs@,
                ));
            }
        } else {
            i += 1;
        }
    }
    if start < cs.len() {
        let ghost rest = cs@.skip(start as int);
        proof {
            assert forall|j: int| 0 <= j < rest.len() implies #[trigger] rest[j] != '\n' by {
                assert(rest[j] == cs@[start + j]);
            }
            lemma_find_char_is(rest, '\n', rest.len() as int);
        }
        let end = if cs[cs.len() - 1] == '\r' {
            cs.len() - 1
        } else {
            cs.len()
        };
        proof {
            assert(cs@.subrange(start as int, end as int) =~= strip_cr(cs@.skip(start as int)));
        }
        let line = string_range(&cs, start, end);
        lines.push(line);
    } else {
        proof {
            assert(cs@.skip(start as int) =~= Seq::<char>::empty());
        }
    }
    proof {
        assert(lines.deep_view() =~~= spec_lines(cs@));
    }
    lines
}

/// `cs` without leading and trailing whitespace.
pub fn trim_chars(cs: &Vec<char>) -> (r: Vec<char>)
    ensures
        r@ == spec_trim(cs@),
{
    let mut lo: usize = 0;
    while lo < cs.len() && is_space(cs[lo])
        invariant
            lo <= cs.len(),
            forall|j: int| 0 <= j < lo ==> spec_is_space(#[trigger] cs@[j]),
        decreases cs.len() - lo,
    {
        lo += 1;
    }
    proof {
        lemma_trim_start_skip(cs@, lo as int);
    }
    let mut hi: usize = cs.len();
    while hi > lo && is_space(cs[hi - 1])
        invariant
            lo <= hi <= cs.len(),
            forall|j: int| hi <= j < cs.len() ==> spec_is_space(#[trigger] cs@[j]),
        decreases hi,
    {
        hi -= 1;
    }
    let ghost tail = cs@.skip(lo as int);
    proof {
        assert forall|j: int| hi - lo <= j < tail.len() implies spec_is_space(
            #[trigger] tail[j],
        ) by {
            assert(tail[j] == cs@[lo + j]);
        }
        if hi > lo {
            assert(tail[hi - lo - 1] == cs@[hi - 1]);
        }
        lemma_trim_end_take(tail, hi - lo);
        assert(tail.take(hi - lo) =~= cs@.subrange(lo as int, hi as int));
    }
    chars_range(cs, lo, hi)
}

/// Reads `cs` as a decimal `u64`, or nothing when `cs` is empty, holds a
/// non-digit, or overflows.
pub fn parse_u64_chars(cs: &Vec<char>) -> (r: Option<u64>)
    ensures
        r == spec_parse_u64(cs@),
{
    if cs.len() == 0 {
        return None;
    }
    let mut acc: u64 = 0;
    let mut i: usize = 0;
    while i < cs.len()
        invariant
            i <= cs.len(),
            forall|j: int| 0 <= j < i ==> spec_is_digit(#[trigger] cs@[j]),
            acc == digits_val(cs@.take(i as int)),
        decreases cs.len() - i,
    {
        let c = cs[i];
        if !is_digit(c) {
            proof {
                assert(!all_digits(cs@));
            }
            return None;
        }
        let d = (c as u32 - 48) as u64;
        proof {
            assert(cs@.take(i + 1 as int).take(i as int) =~= cs@.take(i as int));
            assert(digits_val(cs@.take(i + 1 as int)) == acc * 10 + d);
        }
        if acc > (u64::MAX - d) / 10 {
            proof {
                assert(all_digits(cs@.take(i + 1 as int)));
                assert(acc * 10 + d > u64::MAX) by (nonlinear_arith)
                    requires
                        acc > (u64::MAX - d) / 10,
                        d <= 9,
                ;
                if all_digits(cs@) {
                    lemma_digits_val_prefix(cs@, i + 1 as int);
                    assert(digits_val(cs@) > u64::MAX);
                }
            }
            return None;
        }
        acc = acc * 10 + d;
        i += 1;
    }
    proof {
        assert(cs@.take(cs@.len() as int) =~= cs@);
    }
    Some(acc)
}

/// Reads `cs` as a decimal `usize`, or nothing when `cs` is empty, holds
/// a non-digit, or overflows.
pub fn parse_usize_chars(cs: &Vec<char>) -> (r: Option<usize>)
    ensures
        r == spec_parse_usize(cs@),
{
    if cs.len() == 0 {
        return None;
    }
    let mut acc: usize = 0;
    let mut i: usize = 0;
    while i < cs.len()
        invariant
            i <= cs.len(),
            forall|j: int| 0 <= j < i ==> spec_is_digit(#[trigger] cs@[j]),
            acc == digits_val(cs@.take(i as int)),
        decreases cs.len() - i,
    {
        let c = cs[i];
        if !is_digit(c) {
            proof {
                assert(!all_digits(cs@));
            }
            return None;
        }
        let d = (c as u32 - 48) as usize;
        proof {
            assert(cs@.take(i + 1 as int).take(i as int) =~= cs@.take(i as int));
            assert(digits_val(cs@.take(i + 1 as int)) == acc * 10 + d);
        }
        if acc > (usize::MAX - d) / 10 {
            proof {
                assert(all_digits(cs@.take(i + 1 as int)));
                assert(acc * 10 + d > usize::MAX) by (nonlinear_arith)
                    requires
                        acc > (usize::MAX - d) / 10,
                        d <= 9,
                ;
                if all_digits(cs@) {
                    lemma_digits_val_prefix(cs@, i + 1 as int);
                    assert(digits_val(cs@) > usize::MAX);
                }
            }
            return None;
        }
        acc = acc * 10 + d;
        i += 1;
    }
    proof {
        assert(cs@.take(cs@.len() as int) =~= cs@);
    }
    Some(acc)
}

/// Appends the decimal digits of `n` to `out`.
fn push_u64_digits(n: u64, out: &mut String)
    ensures
        final(out)@ == old(out)@ + spec_u64_digits(n as int),
    decreases n,
{
    if n > 9 {
        push_u64_digits(n / 10, out);
    }
    push_char(out, digit_char_of(n % 10));
    proof {
        if n <= 9 {
            assert(old(out)@ + spec_u64_digits(n as int) =~= old(out)@.push(
                digit_char(n as int),
            ));
        } else {
            assert(old(out)@ + spec_u64_digits(n as int) =~= (old(out)@ + spec_u64_digits(
                n as int / 10,
            )).push(digit_char(n as int % 10)));
        }
    }
}

/// The decimal representation of `n`, most significant digit first.
pub fn u64_to_string(n: u64) -> (r: String)
    ensures
        r@ == spec_u64_digits(n as int),
{
    let mut out = String::new();
    push_u64_digits(n, &mut out);
    proof {
        assert(Seq::<char>::empty() + spec_u64_digits(n as int) =~= spec_u64_digits(n as int));
    }
    out
}

/// Appends one string to a vector, tracked through the vector's view
/// as a sequence of character sequences.
pub fn push_string(dst: &mut Vec<String>, s: String)
    ensures
        final(dst).deep_view() == old(dst).deep_view().push(s@),
{
    let ghost before = dst.deep_view();
    let ghost sv = s@;
    dst.push(s);
    proof {
        assert(dst.deep_view().len() == before.push(sv).len());
        assert forall|k: int| 0 <= k < dst.deep_view().len() implies dst.deep_view()[k]
            == before.push(sv)[k] by {
            if k < before.len() {
                assert(dst@[k] == old(dst)@[k]);
            }
        }
        assert(dst.deep_view() =~= before.push(sv));
    }
}

/// True when `l` begins with `p`.
pub open spec fn has_prefix(l: Seq<char>, p: Seq<char>) -> bool {
    l.len() >= p.len() && l.subrange(0, p.len() as int) == p
}

/// Prefix test against a literal.
pub fn str_has_prefix(l: &Vec<char>, p: &str) -> (r: bool)
    ensures
        r == has_prefix(l@, p@),
{
    let pc = chars_of(p);
    if l.len() < pc.len() {
        return false;
    }
    let mut i: usize = 0;
    while i < pc.len()
        invariant
            i <= pc.len() <= l.len(),
            pc@ == p@,
            forall|j: int| 0 <= j < i ==> l@[j] == pc@[j],
        decreases pc.len() - i,
    {
        if l[i] != pc[i] {
            proof {
                assert(l@.subrange(0, pc@.len() as int)[i as int] == l@[i as int]);
            }
            return false;
        }
        i += 1;
    }
    proof {
        assert(l@.subrange(0, pc@.len() as int) =~= pc@);
    }
    true
}

} // verus!
