//! Character-level text primitives shared by the parsers: whitespace
//! trimming, splitting into lines, searching, and decimal integers.
//!
//! Every executable function works on a slice of characters and a half-open
//! index range, and is specified against a function on `Seq<char>`.

use vstd::prelude::*;

verus! {

/// Characters with the Unicode `White_Space` property.
pub open spec fn is_whitespace(c: char) -> bool {
    let u = c as u32;
    ||| 0x09 <= u <= 0x0D
    ||| u == 0x20
    ||| u == 0x85
    ||| u == 0xA0
    ||| u == 0x1680
    ||| 0x2000 <= u <= 0x200A
    ||| u == 0x2028
    ||| u == 0x2029
    ||| u == 0x202F
    ||| u == 0x205F
    ||| u == 0x3000
}

/// `s` without its leading whitespace.
pub open spec fn trim_start(s: Seq<char>) -> Seq<char>
    decreases s.len(),
{
    if s.len() > 0 && is_whitespace(s[0]) {
        trim_start(s.skip(1))
    } else {
        s
    }
}

/// `s` without its trailing whitespace.
pub open spec fn trim_end(s: Seq<char>) -> Seq<char>
    decreases s.len(),
{
    if s.len() > 0 && is_whitespace(s.last()) {
        trim_end(s.drop_last())
    } else {
        s
    }
}

/// `s` without leading and trailing whitespace.
pub open spec fn trim(s: Seq<char>) -> Seq<char> {
    trim_end(trim_start(s))
}

/// Index of the first occurrence of `c` in `s`, or `s.len()` when there is none.
pub open spec fn find_char(s: Seq<char>, c: char) -> nat
    decreases s.len(),
{
    if s.len() == 0 || s[0] == c {
        0
    } else {
        1 + find_char(s.skip(1), c)
    }
}

/// The lines of `s`: the pieces between line feeds. A final line feed does
/// not open another (empty) line.
pub open spec fn lines(s: Seq<char>) -> Seq<Seq<char>>
    decreases s.len(),
{
    if s.len() == 0 {
        Seq::empty()
    } else {
        let n = find_char(s, '\n') as int;
        if n >= s.len() {
            seq![s]
        } else {
            seq![s.take(n)] + lines(s.skip(n + 1))
        }
    }
}

/// True when `s` is made of ASCII decimal digits only (it may be empty).
pub open spec fn all_digits(s: Seq<char>) -> bool {
    forall|i: int| 0 <= i < s.len() ==> '0' <= #[trigger] s[i] <= '9'
}

/// The number that a sequence of decimal digits writes.
pub open spec fn digits_value(s: Seq<char>) -> nat
    decreases s.len(),
{
    if s.len() == 0 {
        0
    } else {
        (digits_value(s.drop_last()) * 10 + (s.last() as u32 - '0' as u32)) as nat
    }
}

/// The character that writes the digit `d`.
pub open spec fn digit_char(d: nat) -> char
    recommends
        d < 10,
{
    ((d + 48) as u8) as char
}

/// The decimal numeral of `n`, without leading zeros.
pub open spec fn decimal(n: nat) -> Seq<char>
    decreases n,
{
    if n < 10 {
        seq![digit_char(n)]
    } else {
        decimal(n / 10).push(digit_char(n % 10))
    }
}

/// The decimal numeral of `v`, with a `-` in front when `v` is negative.
pub open spec fn signed_decimal(v: int) -> Seq<char> {
    if v < 0 {
        seq!['-'] + decimal((-v) as nat)
    } else {
        decimal(v as nat)
    }
}

/// The decimal numeral of `n` in at least two places, as for the parts of
/// a date.
pub open spec fn two_digits(n: nat) -> Seq<char> {
    if n < 10 {
        seq!['0', digit_char(n)]
    } else {
        decimal(n)
    }
}

/// The digits of a signed decimal numeral: what follows one leading `+` or `-`.
pub open spec fn numeral_digits(s: Seq<char>) -> Seq<char> {
    if s.len() > 0 && (s[0] == '-' || s[0] == '+') {
        s.skip(1)
    } else {
        s
    }
}

/// The integer written by `s` as a signed decimal numeral: an optional `+`
/// or `-`, then at least one ASCII digit, with a value that fits `i64`.
pub open spec fn parse_i64(s: Seq<char>) -> Option<i64> {
    let body = numeral_digits(s);
    let magnitude = digits_value(body) as int;
    let value = if s.len() > 0 && s[0] == '-' {
        -magnitude
    } else {
        magnitude
    };
    if body.len() > 0 && all_digits(body) && i64::MIN <= value <= i64::MAX {
        Some(value as i64)
    } else {
        None
    }
}

/// The number that `body` writes in decimal digits, if it is one that does
/// not exceed `limit`.
pub open spec fn magnitude(body: Seq<char>, limit: nat) -> Option<u64> {
    if body.len() > 0 && all_digits(body) && digits_value(body) <= limit && limit <= u64::MAX {
        Some(digits_value(body) as u64)
    } else {
        None
    }
}

/// The integer written by `s` as a signed decimal numeral, if it fits `i32`.
pub open spec fn parse_i32(s: Seq<char>) -> Option<i32> {
    match parse_i64(s) {
        Some(v) => if i32::MIN <= v <= i32::MAX {
            Some(v as i32)
        } else {
            None
        },
        None => None,
    }
}

/// The digits of an unsigned decimal numeral: what follows one leading `+`.
pub open spec fn unsigned_digits(s: Seq<char>) -> Seq<char> {
    if s.len() > 0 && s[0] == '+' {
        s.skip(1)
    } else {
        s
    }
}

/// The number written by `s` as an unsigned decimal numeral: an optional
/// `+`, then at least one ASCII digit, with a value that fits `u32`.
pub open spec fn parse_u32(s: Seq<char>) -> Option<u32> {
    match magnitude(unsigned_digits(s), u32::MAX as nat) {
        Some(m) => Some(m as u32),
        None => None,
    }
}

/// The code point of `c`, folded to lower case when `c` is an ASCII capital.
pub open spec fn ascii_lower(c: char) -> u32 {
    if 'A' <= c <= 'Z' {
        (c as u32 + 32) as u32
    } else {
        c as u32
    }
}

/// Equality of two texts up to the case of ASCII letters.
pub open spec fn eq_ignore_ascii_case(a: Seq<char>, b: Seq<char>) -> bool {
    a.len() == b.len() && forall|i: int|
        0 <= i < a.len() ==> ascii_lower(#[trigger] a[i]) == ascii_lower(b[i])
}

/// The view of an optional text.
pub open spec fn opt_text(o: Option<String>) -> Option<Seq<char>> {
    match o {
        Some(s) => Some(s@),
        None => None,
    }
}

/// The view of an optional borrowed text.
pub open spec fn opt_str(o: Option<&str>) -> Option<Seq<char>> {
    match o {
        Some(s) => Some(s@),
        None => None,
    }
}

/// True when `needle` occurs in `hay` at offset `at`.
pub open spec fn occurs_at(hay: Seq<char>, needle: Seq<char>, at: int) -> bool {
    0 <= at && at + needle.len() <= hay.len() && hay.subrange(at, at + needle.len()) == needle
}

/// True when `needle` occurs somewhere in `hay`.
pub open spec fn contains_text(hay: Seq<char>, needle: Seq<char>) -> bool {
    exists|at: int| occurs_at(hay, needle, at)
}

/// One past the index of the last occurrence of `c` in `s`, or 0 when there
/// is none.
pub open spec fn after_last_index(s: Seq<char>, c: char) -> nat
    decreases s.len(),
{
    if s.len() == 0 {
        0
    } else if s.last() == c {
        s.len()
    } else {
        after_last_index(s.drop_last(), c)
    }
}

/// What follows the last occurrence of `c` in `s`; all of `s` when there is
/// none.
pub open spec fn after_last(s: Seq<char>, c: char) -> Seq<char> {
    s.skip(after_last_index(s, c) as int)
}

/// `s` in lower case, by the rules of Unicode. Stands for the result of
/// `str::to_lowercase`.
pub uninterp spec fn lowercase(s: Seq<char>) -> Seq<char>;

/// The offset of the first occurrence of `needle` in `hay`, when there is one.
pub open spec fn first_occurrence(hay: Seq<char>, needle: Seq<char>) -> int {
    choose|at: int|
        occurs_at(hay, needle, at) && forall|k: int| 0 <= k < at ==> !occurs_at(hay, needle, k)
}

/// `s` with every occurrence of `from` replaced by `to`. The occurrences are
/// taken from the left and do not overlap. An empty `from` occurs nowhere.
pub open spec fn replaced(s: Seq<char>, from: Seq<char>, to: Seq<char>) -> Seq<char>
    decreases s.len(),
{
    if s.len() == 0 {
        s
    } else if from.len() > 0 && occurs_at(s, from, 0) {
        to + replaced(s.skip(from.len() as int), from, to)
    } else {
        seq![s[0]] + replaced(s.skip(1), from, to)
    }
}

/// True when `s` begins with `prefix`.
pub open spec fn starts_with(s: Seq<char>, prefix: Seq<char>) -> bool {
    prefix.len() <= s.len() && s.take(prefix.len() as int) == prefix
}

/// The first occurrence is where the character stands with none before it.
pub proof fn lemma_find_char_is(s: Seq<char>, c: char, n: int)
    requires
        0 <= n <= s.len(),
        forall|j: int| 0 <= j < n ==> s[j] != c,
        n == s.len() || s[n] == c,
    ensures
        find_char(s, c) == n,
    decreases n,
{
    if n > 0 {
        let t = s.skip(1);
        assert forall|j: int| 0 <= j < n - 1 implies t[j] != c by {
            assert(t[j] == s[j + 1]);
        }
        lemma_find_char_is(t, c, n - 1);
    }
}

/// A prefix of a numeral writes no greater number than the numeral.
pub proof fn lemma_digits_value_prefix(s: Seq<char>, k: int)
    requires
        0 <= k <= s.len(),
        all_digits(s),
    ensures
        digits_value(s.take(k)) <= digits_value(s),
    decreases s.len() - k,
{
    if k < s.len() {
        lemma_digits_value_prefix(s, k + 1);
        let t = s.take(k + 1);
        assert(t.drop_last() == s.take(k));
        assert('0' <= t.last() <= '9');
    } else {
        assert(s.take(k) == s);
    }
}

/// A decimal numeral is made of digits and writes its number.
pub proof fn lemma_decimal(n: nat)
    ensures
        decimal(n).len() > 0,
        all_digits(decimal(n)),
        digits_value(decimal(n)) == n,
        decimal(n)[0] != '-' && decimal(n)[0] != '+',
    decreases n,
{
    if n < 10 {
        assert(decimal(n).drop_last() == Seq::<char>::empty());
        assert(digits_value(decimal(n).drop_last()) == 0);
    } else {
        lemma_decimal(n / 10);
        let front = decimal(n / 10);
        let all = decimal(n);
        assert(all.drop_last() == front);
        assert forall|i: int| 0 <= i < all.len() implies '0' <= #[trigger] all[i] <= '9' by {
            if i < front.len() {
                assert(all[i] == front[i]);
            }
        }
        assert(all[0] == front[0]);
    }
}

/// Reading a numeral that was written gives the number back.
pub proof fn lemma_parse_signed_decimal(v: i64)
    ensures
        parse_i64(signed_decimal(v as int)) == Some(v),
{
    let s = signed_decimal(v as int);
    if v < 0 {
        let m = (-(v as int)) as nat;
        lemma_decimal(m);
        assert(s[0] == '-');
        assert(numeral_digits(s) == decimal(m));
    } else {
        lemma_decimal(v as nat);
        assert(numeral_digits(s) == s);
    }
}

/// Reading a number that was written in two places gives it back.
pub proof fn lemma_parse_two_digits(n: u32)
    ensures
        parse_u32(two_digits(n as nat)) == Some(n),
{
    let s = two_digits(n as nat);
    if n < 10 {
        assert(s.drop_last() == seq!['0']);
        assert(seq!['0'].drop_last() == Seq::<char>::empty());
        assert(digits_value(Seq::<char>::empty()) == 0);
        assert(digits_value(seq!['0']) == 0);
        assert(digits_value(s) == n);
        assert(unsigned_digits(s) == s);
    } else {
        lemma_decimal(n as nat);
        assert(unsigned_digits(s) == s);
    }
}

/// Reading a year that was written gives it back.
pub proof fn lemma_parse_i32_signed_decimal(v: i32)
    ensures
        parse_i32(signed_decimal(v as int)) == Some(v),
{
    lemma_parse_signed_decimal(v as i64);
}

/// The characters of `s`, in order.
pub fn chars_of(s: &str) -> (out: Vec<char>)
    ensures
        out@ == s@,
{
    let mut out: Vec<char> = Vec::new();
    for c in it: s.chars()
        invariant
            it.seq() == s@,
            out@ == it.seq().take(it.index() as int),
    {
        out.push(c);
    }
    out
}

/// Appends one character to a `String`, as `String::push` does.
#[verifier::external_body]
fn push_char(s: &mut String, c: char)
    ensures
        final(s)@ == old(s)@.push(c),
{
    s.push(c)
}

/// Appends the decimal numeral of `n`.
pub fn push_decimal(out: &mut String, n: u64)
    ensures
        final(out)@ == old(out)@ + decimal(n as nat),
    decreases n,
{
    if n >= 10 {
        push_decimal(out, n / 10);
    }
    let d: u8 = (n % 10) as u8;
    let c: char = (d + 48) as char;
    assert(c == digit_char((n % 10) as nat));
    push_char(out, c);
    proof {
        if n >= 10 {
            assert(final(out)@ == old(out)@ + decimal(n as nat));
        } else {
            assert(final(out)@ == old(out)@ + decimal(n as nat));
        }
    }
}

/// Appends the decimal numeral of `v`, signed when negative.
pub fn push_signed_decimal(out: &mut String, v: i64)
    ensures
        final(out)@ == old(out)@ + signed_decimal(v as int),
{
    if v < 0 {
        push_char(out, '-');
        let magnitude: u64 = if v == i64::MIN {
            9_223_372_036_854_775_808
        } else {
            (-v) as u64
        };
        push_decimal(out, magnitude);
        assert(final(out)@ == old(out)@ + signed_decimal(v as int));
    } else {
        push_decimal(out, v as u64);
    }
}

/// Appends the decimal numeral of `n` in at least two places.
pub fn push_two_digits(out: &mut String, n: u32)
    ensures
        final(out)@ == old(out)@ + two_digits(n as nat),
{
    if n < 10 {
        push_char(out, '0');
        let c: char = (n as u8 + 48) as char;
        push_char(out, c);
        assert(final(out)@ == old(out)@ + two_digits(n as nat));
    } else {
        push_decimal(out, n as u64);
    }
}

/// The text of `chars[start..end]`.
pub fn string_of(chars: &[char], start: usize, end: usize) -> (out: String)
    requires
        start <= end <= chars.len(),
    ensures
        out@ == chars@.subrange(start as int, end as int),
{
    let mut out = String::new();
    let mut i: usize = start;
    while i < end
        invariant
            start <= i <= end <= chars.len(),
            out@ == chars@.subrange(start as int, i as int),
        decreases end - i,
    {
        push_char(&mut out, chars[i]);
        i += 1;
        assert(out@ == chars@.subrange(start as int, i as int));
    }
    out
}

/// Whether `c` is whitespace.
pub fn char_is_whitespace(c: char) -> (r: bool)
    ensures
        r == is_whitespace(c),
{
    let u: u32 = c as u32;
    (0x09 <= u && u <= 0x0D) || u == 0x20 || u == 0x85 || u == 0xA0 || u == 0x1680 || (0x2000 <= u
        && u <= 0x200A) || u == 0x2028 || u == 0x2029 || u == 0x202F || u == 0x205F || u == 0x3000
}

/// The bounds of `chars[start..end]` once trimmed.
pub fn trim_range(chars: &[char], start: usize, end: usize) -> (r: (usize, usize))
    requires
        start <= end <= chars.len(),
    ensures
        start <= r.0 <= r.1 <= end,
        chars@.subrange(r.0 as int, r.1 as int) == trim(chars@.subrange(start as int, end as int)),
{
    let mut a: usize = start;
    while a < end && char_is_whitespace(chars[a])
        invariant
            start <= a <= end <= chars.len(),
            trim_start(chars@.subrange(a as int, end as int)) == trim_start(
                chars@.subrange(start as int, end as int),
            ),
        decreases end - a,
    {
        assert(chars@.subrange(a as int, end as int).skip(1) == chars@.subrange(
            a + 1,
            end as int,
        ));
        a += 1;
    }
    let mut b: usize = end;
    while a < b && char_is_whitespace(chars[b - 1])
        invariant
            a <= b <= end <= chars.len(),
            trim_end(chars@.subrange(a as int, b as int)) == trim_end(
                chars@.subrange(a as int, end as int),
            ),
        decreases b - a,
    {
        assert(chars@.subrange(a as int, b as int).drop_last() == chars@.subrange(
            a as int,
            b - 1,
        ));
        b -= 1;
    }
    (a, b)
}

/// The index of the first `c` in `chars[start..end]`, or `end`.
pub fn find_char_in(chars: &[char], start: usize, end: usize, c: char) -> (i: usize)
    requires
        start <= end <= chars.len(),
    ensures
        start <= i <= end,
        i - start == find_char(chars@.subrange(start as int, end as int), c),
{
    let mut i: usize = start;
    while i < end && chars[i] != c
        invariant
            start <= i <= end <= chars.len(),
            forall|j: int| start <= j < i ==> chars@[j] != c,
        decreases end - i,
    {
        i += 1;
    }
    proof {
        lemma_find_char_is(chars@.subrange(start as int, end as int), c, i - start);
    }
    i
}

/// Whether `chars[start..end]` is exactly the text `lit`.
pub fn range_equals(chars: &[char], start: usize, end: usize, lit: &str) -> (r: bool)
    requires
        start <= end <= chars.len(),
    ensures
        r == (chars@.subrange(start as int, end as int) == lit@),
{
    let want = chars_of(lit);
    if want.len() != end - start {
        return false;
    }
    let mut k: usize = 0;
    while k < want.len()
        invariant
            start <= end <= chars.len(),
            want@ == lit@,
            want.len() == end - start,
            k <= want.len(),
            forall|j: int| 0 <= j < k ==> chars@[start + j] == want@[j],
        decreases want.len() - k,
    {
        if chars[start + k] != want[k] {
            proof {
                let s = chars@.subrange(start as int, end as int);
                assert(s[k as int] == chars@[start + k]);
                assert(s != want@);
            }
            return false;
        }
        k += 1;
    }
    assert(chars@.subrange(start as int, end as int) =~= want@);
    true
}

/// Not verified: `str::to_lowercase`. Claims only that the result is a
/// function of the text.
#[verifier::external_body]
pub(crate) fn to_lowercase(s: &str) -> (r: String)
    ensures
        r@ == lowercase(s@),
{
    s.to_lowercase()
}

/// Whether two texts are the same.
pub fn text_equals(a: &str, b: &str) -> (r: bool)
    ensures
        r == (a@ == b@),
{
    let x = chars_of(a);
    let r = range_equals(&x, 0, x.len(), b);
    assert(x@.subrange(0, x.len() as int) == x@);
    r
}

/// The code point of `c`, folded to lower case when `c` is an ASCII capital.
pub fn char_ascii_lower(c: char) -> (r: u32)
    ensures
        r == ascii_lower(c),
{
    if 'A' <= c && c <= 'Z' {
        c as u32 + 32
    } else {
        c as u32
    }
}

/// Whether two texts are equal up to the case of ASCII letters.
pub fn equals_ignoring_ascii_case(a: &str, b: &str) -> (r: bool)
    ensures
        r == eq_ignore_ascii_case(a@, b@),
{
    let x = chars_of(a);
    let y = chars_of(b);
    if x.len() != y.len() {
        return false;
    }
    let mut k: usize = 0;
    while k < x.len()
        invariant
            x@ == a@,
            y@ == b@,
            x.len() == y.len(),
            k <= x.len(),
            forall|j: int| 0 <= j < k ==> ascii_lower(#[trigger] x@[j]) == ascii_lower(y@[j]),
        decreases x.len() - k,
    {
        if char_ascii_lower(x[k]) != char_ascii_lower(y[k]) {
            return false;
        }
        k += 1;
    }
    true
}

/// Whether `s` begins with the text `prefix`.
pub fn has_prefix(chars: &[char], prefix: &str) -> (r: bool)
    ensures
        r == starts_with(chars@, prefix@),
{
    let want = chars_of(prefix);
    if want.len() > chars.len() {
        return false;
    }
    let r = range_equals(chars, 0, want.len(), prefix);
    assert(chars@.take(want.len() as int) == chars@.subrange(0, want.len() as int));
    r
}

/// Whether `needle` occurs in `hay` at offset `at`.
pub fn matches_at(hay: &[char], needle: &[char], at: usize) -> (r: bool)
    ensures
        r == occurs_at(hay@, needle@, at as int),
{
    if needle.len() > hay.len() || at > hay.len() - needle.len() {
        return false;
    }
    let mut k: usize = 0;
    while k < needle.len()
        invariant
            at + needle.len() <= hay.len(),
            k <= needle.len(),
            forall|j: int| 0 <= j < k ==> hay@[at + j] == needle@[j],
        decreases needle.len() - k,
    {
        if hay[at + k] != needle[k] {
            proof {
                let part = hay@.subrange(at as int, at + needle.len());
                assert(part[k as int] == hay@[at + k]);
            }
            return false;
        }
        k += 1;
    }
    assert(hay@.subrange(at as int, at + needle.len()) =~= needle@);
    true
}

/// The offset of the first occurrence of `needle` in `hay`.
pub fn find_text(hay: &[char], needle: &[char]) -> (r: Option<usize>)
    ensures
        match r {
            Some(at) => occurs_at(hay@, needle@, at as int) && forall|k: int|
                0 <= k < at ==> !occurs_at(hay@, needle@, k),
            None => !contains_text(hay@, needle@),
        },
{
    if needle.len() > hay.len() {
        return None;
    }
    let last: usize = hay.len() - needle.len();
    let mut at: usize = 0;
    loop
        invariant
            last == hay.len() - needle.len(),
            at <= last,
            forall|k: int| 0 <= k < at ==> !occurs_at(hay@, needle@, k),
        decreases last - at,
    {
        if matches_at(hay, needle, at) {
            return Some(at);
        }
        if at == last {
            return None;
        }
        at += 1;
    }
}

/// The first occurrence is the one that no occurrence comes before.
pub proof fn lemma_first_occurrence_is(hay: Seq<char>, needle: Seq<char>, at: int)
    requires
        occurs_at(hay, needle, at),
        forall|k: int| 0 <= k < at ==> !occurs_at(hay, needle, k),
    ensures
        first_occurrence(hay, needle) == at,
        contains_text(hay, needle),
{
    let found = first_occurrence(hay, needle);
    if found < at {
        assert(!occurs_at(hay, needle, found));
    } else if at < found {
        assert(!occurs_at(hay, needle, at));
    }
}

/// `s` without leading and trailing whitespace, as a new text.
pub fn trimmed(s: &str) -> (r: String)
    ensures
        r@ == trim(s@),
{
    let chars = chars_of(s);
    let (a, b) = trim_range(&chars, 0, chars.len());
    assert(chars@.subrange(0, chars.len() as int) == s@);
    string_of(&chars, a, b)
}

/// Whether the text `needle` occurs in the text `hay`.
pub fn text_contains(hay: &str, needle: &str) -> (r: bool)
    ensures
        r == contains_text(hay@, needle@),
{
    let h = chars_of(hay);
    let n = chars_of(needle);
    find_text(&h, &n).is_some()
}

/// `s` with every occurrence of `from` replaced by `to`.
pub fn replace_text(s: &str, from: &str, to: &str) -> (r: String)
    ensures
        r@ == replaced(s@, from@, to@),
{
    let chars = chars_of(s);
    let needle = chars_of(from);
    let n = chars.len();
    let mut out = String::new();
    let mut i: usize = 0;
    proof {
        assert(chars@.skip(0) == chars@);
        assert(out@ + replaced(chars@, from@, to@) == replaced(chars@, from@, to@));
    }
    while i < n
        invariant
            i <= n == chars.len(),
            chars@ == s@,
            needle@ == from@,
            out@ + replaced(chars@.skip(i as int), from@, to@) == replaced(s@, from@, to@),
        decreases n - i,
    {
        let ghost rest = chars@.skip(i as int);
        let ghost before = out@;
        let here = needle.len() > 0 && matches_at(&chars, &needle, i);
        proof {
            assert(occurs_at(chars@, needle@, i as int) == occurs_at(rest, needle@, 0)) by {
                if i + needle@.len() <= n {
                    assert(chars@.subrange(i as int, i + needle@.len()) == rest.subrange(
                        0,
                        needle@.len() as int,
                    ));
                }
            }
        }
        if here {
            out.append(to);
            proof {
                assert(rest.skip(needle@.len() as int) == chars@.skip(i + needle@.len()));
                assert(before + (to@ + replaced(rest.skip(needle@.len() as int), from@, to@))
                    == before + to@ + replaced(rest.skip(needle@.len() as int), from@, to@));
            }
            i += needle.len();
        } else {
            push_char(&mut out, chars[i]);
            proof {
                assert(rest[0] == chars@[i as int]);
                assert(rest.skip(1) == chars@.skip(i + 1));
                assert(before + (seq![rest[0]] + replaced(rest.skip(1), from@, to@))
                    == before.push(rest[0]) + replaced(rest.skip(1), from@, to@));
            }
            i += 1;
        }
    }
    proof {
        assert(replaced(chars@.skip(i as int), from@, to@) == Seq::<char>::empty());
        assert(out@ + Seq::<char>::empty() == out@);
    }
    out
}

/// Where the part of `chars` after its last `c` begins.
pub fn after_last_start(chars: &[char], c: char) -> (i: usize)
    ensures
        i == after_last_index(chars@, c),
        i <= chars.len(),
{
    let mut i: usize = chars.len();
    proof {
        assert(chars@.take(i as int) == chars@);
    }
    while i > 0 && chars[i - 1] != c
        invariant
            i <= chars.len(),
            after_last_index(chars@, c) == after_last_index(chars@.take(i as int), c),
        decreases i,
    {
        proof {
            assert(chars@.take(i as int).drop_last() == chars@.take(i - 1));
        }
        i -= 1;
    }
    i
}

/// Reads `chars[from..end]` as a number written in decimal digits, if it is
/// one that does not exceed `limit`.
pub fn parse_magnitude(chars: &[char], from: usize, end: usize, limit: u64) -> (r: Option<u64>)
    requires
        from <= end <= chars.len(),
    ensures
        r == magnitude(chars@.subrange(from as int, end as int), limit as nat),
{
    let ghost body = chars@.subrange(from as int, end as int);
    if from == end {
        return None;
    }
    let mut acc: u64 = 0;
    let mut i: usize = from;
    while i < end
        invariant
            from <= i <= end <= chars.len(),
            body == chars@.subrange(from as int, end as int),
            all_digits(body.take(i - from)),
            acc == digits_value(body.take(i - from)),
            acc <= limit,
        decreases end - i,
    {
        let c = chars[i];
        assert(c == body[i - from]);
        if c < '0' || c > '9' {
            assert(!all_digits(body));
            return None;
        }
        let d: u64 = (c as u32 - '0' as u32) as u64;
        proof {
            let t = body.take(i - from + 1);
            assert(t.drop_last() == body.take(i - from));
            assert(t.last() == c);
            assert(all_digits(t)) by {
                assert forall|j: int| 0 <= j < t.len() implies '0' <= #[trigger] t[j] <= '9' by {
                    if j < i - from {
                        assert(t[j] == body.take(i - from)[j]);
                    }
                }
            }
            assert(digits_value(t) == acc * 10 + d);
        }
        if d > limit || acc > (limit - d) / 10 {
            proof {
                let t = body.take(i - from + 1);
                assert(digits_value(t) > limit);
                if all_digits(body) {
                    lemma_digits_value_prefix(body, i - from + 1);
                }
            }
            return None;
        }
        acc = acc * 10 + d;
        i += 1;
    }
    assert(body.take(i - from) == body);
    Some(acc)
}

/// Reads `chars[start..end]` as a signed decimal numeral.
pub fn parse_i64_range(chars: &[char], start: usize, end: usize) -> (r: Option<i64>)
    requires
        start <= end <= chars.len(),
    ensures
        r == parse_i64(chars@.subrange(start as int, end as int)),
{
    let ghost s = chars@.subrange(start as int, end as int);
    if start == end {
        return None;
    }
    let negative = chars[start] == '-';
    let from: usize = if negative || chars[start] == '+' {
        start + 1
    } else {
        start
    };
    assert(numeral_digits(s) == chars@.subrange(from as int, end as int));
    match parse_magnitude(chars, from, end, 9_223_372_036_854_775_808) {
        Some(m) => {
            if negative {
                if m == 9_223_372_036_854_775_808 {
                    Some(i64::MIN)
                } else {
                    Some(-(m as i64))
                }
            } else if m == 9_223_372_036_854_775_808 {
                None
            } else {
                Some(m as i64)
            }
        },
        None => {
            proof {
                let body = numeral_digits(s);
                if body.len() > 0 && all_digits(body) {
                    assert(digits_value(body) > 9_223_372_036_854_775_808);
                }
            }
            None
        },
    }
}

/// Reads a text as a signed decimal numeral that fits `i32`.
pub fn parse_i32_text(s: &str) -> (r: Option<i32>)
    ensures
        r == parse_i32(s@),
{
    let chars = chars_of(s);
    assert(chars@.subrange(0, chars.len() as int) == s@);
    match parse_i64_range(&chars, 0, chars.len()) {
        Some(v) => if -2_147_483_648 <= v && v <= 2_147_483_647 {
            Some(v as i32)
        } else {
            None
        },
        None => None,
    }
}

/// Reads a text as an unsigned decimal numeral that fits `u32`.
pub fn parse_u32_text(s: &str) -> (r: Option<u32>)
    ensures
        r == parse_u32(s@),
{
    let chars = chars_of(s);
    let from: usize = if chars.len() > 0 && chars[0] == '+' {
        1
    } else {
        0
    };
    assert(chars@.subrange(from as int, chars.len() as int) == unsigned_digits(s@));
    match parse_magnitude(&chars, from, chars.len(), 4_294_967_295) {
        Some(m) => Some(m as u32),
        None => None,
    }
}

} // verus!
