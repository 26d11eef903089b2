//! Text primitives: characters, splitting, trimming and decimal integers.
//!
//! Every function here is stated over the character sequence of a string.

use vstd::prelude::*;

verus! {

// ---------------------------------------------------------------------
// Characters, as the standard library classifies them
// ---------------------------------------------------------------------

/// `String::push` appends the given character to the end of the string.
pub assume_specification[ std::string::String::push ](s: &mut std::string::String, c: char)
    ensures
        final(s)@ == old(s)@.push(c),
;

/// Whether the standard library counts a character beyond ASCII as an
/// upper-case letter.
pub uninterp spec fn wide_upper_case(c: char) -> bool;

/// The characters that the standard library's lower-casing of a character
/// beyond ASCII yields.
pub uninterp spec fn wide_lower_case(c: char) -> Seq<char>;

/// White space: the characters with the Unicode property `White_Space`.
pub open spec fn white_space(c: char) -> bool {
    let code = c as u32;
    ||| 0x9 <= code <= 0xd
    ||| code == 0x20
    ||| code == 0x85
    ||| code == 0xa0
    ||| code == 0x1680
    ||| 0x2000 <= code <= 0x200a
    ||| code == 0x2028
    ||| code == 0x2029
    ||| code == 0x202f
    ||| code == 0x205f
    ||| code == 0x3000
}

/// An upper-case letter: of the ASCII range, `A` to `Z`.
pub open spec fn upper_case(c: char) -> bool {
    if (c as u32) < 128 {
        'A' <= c <= 'Z'
    } else {
        wide_upper_case(c)
    }
}

/// What a character is in lower case: of the ASCII range, the small letter
/// of a capital, and itself otherwise.
pub open spec fn lower_case(c: char) -> Seq<char> {
    if 'A' <= c <= 'Z' {
        seq![((c as u32 + 32) as char)]
    } else if (c as u32) < 128 {
        seq![c]
    } else {
        wide_lower_case(c)
    }
}

/// Calls `char::is_whitespace`. The claim is that it answers by the Unicode
/// property `White_Space`, as its documentation says, with the characters
/// that the Unicode Character Database lists under that property.
#[verifier::external_body]
fn is_white_space(c: char) -> (yes: bool)
    ensures
        yes == white_space(c),
{
    c.is_whitespace()
}

/// Calls `char::is_uppercase`. In the ASCII range only `A` to `Z` have the
/// `Uppercase` property; elsewhere the answer is only named.
#[verifier::external_body]
pub(crate) fn is_upper_case(c: char) -> (yes: bool)
    ensures
        (c as u32) < 128 ==> yes == ('A' <= c <= 'Z'),
        (c as u32) >= 128 ==> yes == wide_upper_case(c),
{
    c.is_uppercase()
}

/// Calls `char::to_lowercase` and collects what it yields. An ASCII
/// character yields one character: the small letter of a capital, and
/// itself otherwise; elsewhere the answer is only named.
#[verifier::external_body]
pub(crate) fn to_lower_case(c: char) -> (chars: Vec<char>)
    ensures
        'A' <= c <= 'Z' ==> chars@ == seq![((c as u32 + 32) as char)],
        (c as u32) < 128 && !('A' <= c <= 'Z') ==> chars@ == seq![c],
        (c as u32) >= 128 ==> chars@ == wide_lower_case(c),
{
    c.to_lowercase().collect()
}

// ---------------------------------------------------------------------
// Strings and their characters
// ---------------------------------------------------------------------

/// The characters of a string.
pub fn to_chars(s: &str) -> (chars: Vec<char>)
    ensures
        chars@ == s@,
{
    let mut chars: Vec<char> = Vec::new();
    for c in iter: s.chars()
        invariant
            chars@ == iter.seq().take(iter.index()),
            iter.seq() == s@,
    {
        chars.push(c);
        assert(iter.seq().take(iter.index() + 1) =~= iter.seq().take(iter.index()).push(c));
    }
    assert(s@.take(s@.len() as int) =~= s@);
    chars
}

/// The string of `chars[from..to]`.
pub fn substring(chars: &Vec<char>, from: usize, to: usize) -> (s: String)
    requires
        from <= to <= chars@.len(),
    ensures
        s@ == chars@.subrange(from as int, to as int),
{
    let mut s = String::new();
    let mut i: usize = from;
    while i < to
        invariant
            from <= i <= to <= chars@.len(),
            s@ == chars@.subrange(from as int, i as int),
        decreases to - i,
    {
        s.push(chars[i]);
        i += 1;
        assert(chars@.subrange(from as int, i as int) =~= chars@.subrange(
            from as int,
            i - 1,
        ).push(chars@[i - 1]));
    }
    s
}

/// Whether two strings hold the same characters.
pub fn same_text(a: &str, b: &str) -> (same: bool)
    ensures
        same == (a@ == b@),
{
    let x = to_chars(a);
    let y = to_chars(b);
    if x.len() != y.len() {
        return false;
    }
    let mut i: usize = 0;
    while i < x.len()
        invariant
            i <= x@.len() == y@.len(),
            forall|j: int| 0 <= j < i ==> x@[j] == y@[j],
            x@ == a@,
            y@ == b@,
        decreases x@.len() - i,
    {
        if x[i] != y[i] {
            return false;
        }
        i += 1;
    }
    assert(a@ =~= b@);
    true
}

/// `s` ends in `suffix`.
pub open spec fn ends_in(s: Seq<char>, suffix: Seq<char>) -> bool {
    s.len() >= suffix.len() && s.skip(s.len() - suffix.len()) == suffix
}

/// Whether a text ends in `suffix`.
pub fn ends_with(text: &str, suffix: &str) -> (yes: bool)
    ensures
        yes == ends_in(text@, suffix@),
{
    let chars = to_chars(text);
    let width: usize = to_chars(suffix).len();
    if chars.len() < width {
        return false;
    }
    let end = substring(&chars, chars.len() - width, chars.len());
    assert(end@ =~= text@.skip(text@.len() - suffix@.len()));
    same_text(end.as_str(), suffix)
}

// ---------------------------------------------------------------------
// Splitting and trimming
// ---------------------------------------------------------------------

/// The character sequences of a list of strings.
pub open spec fn texts(list: Seq<String>) -> Seq<Seq<char>> {
    Seq::new(list.len(), |i: int| list[i]@)
}

/// The pieces of `s` between occurrences of `sep`, in order; always at
/// least one.
pub open spec fn split(s: Seq<char>, sep: char) -> Seq<Seq<char>>
    decreases s.len(),
{
    if s.len() == 0 {
        seq![Seq::<char>::empty()]
    } else {
        let before = split(s.drop_last(), sep);
        if s.last() == sep {
            before.push(Seq::<char>::empty())
        } else {
            before.update(before.len() - 1, before.last().push(s.last()))
        }
    }
}

/// Splitting yields at least one piece.
pub proof fn lemma_split_nonempty(s: Seq<char>, sep: char)
    ensures
        split(s, sep).len() >= 1,
    decreases s.len(),
{
    if s.len() > 0 {
        lemma_split_nonempty(s.drop_last(), sep);
    }
}

/// Splits `s` at every occurrence of `sep`.
pub fn split_text(s: &str, sep: char) -> (pieces: Vec<String>)
    ensures
        texts(pieces@) == split(s@, sep),
{
    let chars = to_chars(s);
    let mut pieces: Vec<String> = Vec::new();
    let mut current = String::new();
    let mut i: usize = 0;
    assert(chars@.take(0) =~= Seq::<char>::empty());
    assert(texts(pieces@).push(current@) =~= seq![Seq::<char>::empty()]);
    while i < chars.len()
        invariant
            i <= chars@.len(),
            chars@ == s@,
            split(chars@.take(i as int), sep) == texts(pieces@).push(current@),
        decreases chars@.len() - i,
    {
        let c = chars[i];
        let ghost whole = texts(pieces@).push(current@);
        assert(chars@.take(i + 1).drop_last() =~= chars@.take(i as int));
        if c == sep {
            pieces.push(current);
            current = String::new();
            assert(texts(pieces@) =~= whole);
        } else {
            current.push(c);
            assert(whole.update(whole.len() - 1, whole.last().push(c)) =~= texts(pieces@).push(
                current@,
            ));
        }
        i += 1;
    }
    assert(chars@.take(chars@.len() as int) =~= chars@);
    let ghost whole = texts(pieces@).push(current@);
    pieces.push(current);
    assert(texts(pieces@) =~= whole);
    pieces
}

/// `i` is the first position of `c` in `s`.
pub open spec fn first_at(s: Seq<char>, c: char, i: int) -> bool {
    &&& 0 <= i < s.len()
    &&& s[i] == c
    &&& forall|j: int| 0 <= j < i ==> s[j] != c
}

/// What stands before and after the first `sep` in `s`, if there is one.
pub open spec fn split_once(s: Seq<char>, sep: char) -> Option<(Seq<char>, Seq<char>)> {
    if exists|i: int| first_at(s, sep, i) {
        let i = choose|i: int| first_at(s, sep, i);
        Some((s.take(i), s.skip(i + 1)))
    } else {
        None
    }
}

/// Splits `s` at the first occurrence of `sep`.
pub fn split_text_once(s: &str, sep: char) -> (halves: Option<(String, String)>)
    ensures
        match halves {
            Some((a, b)) => split_once(s@, sep) == Some((a@, b@)),
            None => split_once(s@, sep) is None,
        },
{
    let chars = to_chars(s);
    let n: usize = chars.len();
    let mut i: usize = 0;
    while i < n
        invariant
            i <= n == chars@.len(),
            chars@ == s@,
            forall|j: int| 0 <= j < i ==> chars@[j] != sep,
        decreases n - i,
    {
        if chars[i] == sep {
            let a = substring(&chars, 0, i);
            let b = substring(&chars, i + 1, n);
            assert(first_at(s@, sep, i as int));
            assert(a@ =~= s@.take(i as int));
            assert(b@ =~= s@.skip(i + 1));
            assert forall|k: int| first_at(s@, sep, k) implies k == i by {}
            return Some((a, b));
        }
        i += 1;
    }
    assert(forall|k: int| !first_at(s@, sep, k));
    None
}

/// `s` without its leading white space.
pub open spec fn trim_start(s: Seq<char>) -> Seq<char>
    decreases s.len(),
{
    if s.len() > 0 && white_space(s.first()) {
        trim_start(s.drop_first())
    } else {
        s
    }
}

/// `s` without its trailing white space.
pub open spec fn trim_end(s: Seq<char>) -> Seq<char>
    decreases s.len(),
{
    if s.len() > 0 && white_space(s.last()) {
        trim_end(s.drop_last())
    } else {
        s
    }
}

/// `s` without white space at either end.
pub open spec fn trimmed(s: Seq<char>) -> Seq<char> {
    trim_end(trim_start(s))
}

/// Strips white space from both ends.
pub fn trim(s: &str) -> (t: String)
    ensures
        t@ == trimmed(s@),
{
    let chars = to_chars(s);
    let mut from: usize = 0;
    assert(chars@.skip(0) =~= chars@);
    while from < chars.len() && is_white_space(chars[from])
        invariant
            from <= chars@.len(),
            trim_start(chars@) == trim_start(chars@.skip(from as int)),
        decreases chars@.len() - from,
    {
        assert(chars@.skip(from as int).drop_first() =~= chars@.skip(from + 1));
        from += 1;
    }
    assert(trim_start(chars@.skip(from as int)) =~= chars@.skip(from as int));
    let ghost rest = chars@.skip(from as int);
    let mut to: usize = chars.len();
    assert(chars@.subrange(from as int, to as int) =~= rest);
    while from < to && is_white_space(chars[to - 1])
        invariant
            from <= to <= chars@.len(),
            trim_end(rest) == trim_end(chars@.subrange(from as int, to as int)),
        decreases to,
    {
        assert(chars@.subrange(from as int, to as int).drop_last() =~= chars@.subrange(
            from as int,
            to - 1,
        ));
        to -= 1;
    }
    substring(&chars, from, to)
}

// ---------------------------------------------------------------------
// Decimal integers
// ---------------------------------------------------------------------

/// A decimal digit.
pub open spec fn is_digit(c: char) -> bool {
    '0' <= c <= '9'
}

/// One or more decimal digits.
pub open spec fn is_digits(s: Seq<char>) -> bool {
    &&& s.len() > 0
    &&& forall|i: int| 0 <= i < s.len() ==> is_digit(#[trigger] s[i])
}

/// The number that a digit string denotes.
pub open spec fn digits_value(s: Seq<char>) -> nat
    decreases s.len(),
{
    if s.len() == 0 {
        0
    } else {
        (digits_value(s.drop_last()) * 10 + (s.last() as int - '0' as int)) as nat
    }
}

/// The integer that `s` denotes: digits behind an optional `+`, or, where
/// a sign is allowed, behind a `-`.
pub open spec fn integer_of(s: Seq<char>, signed: bool) -> Option<int> {
    if is_digits(s) {
        Some(digits_value(s) as int)
    } else if s.len() > 0 && s[0] == '+' && is_digits(s.skip(1)) {
        Some(digits_value(s.skip(1)) as int)
    } else if signed && s.len() > 0 && s[0] == '-' && is_digits(s.skip(1)) {
        Some(-(digits_value(s.skip(1)) as int))
    } else {
        None
    }
}

/// The integer that `s` denotes, where it lies between `low` and `high`.
pub open spec fn integer_within(s: Seq<char>, low: int, high: int) -> Option<int> {
    match integer_of(s, low < 0) {
        Some(n) => if low <= n <= high {
            Some(n)
        } else {
            None
        },
        None => None,
    }
}

/// A longer digit string denotes no smaller a number.
proof fn lemma_digits_monotone(s: Seq<char>, k: int)
    requires
        is_digits(s),
        0 <= k <= s.len(),
    ensures
        digits_value(s.take(k)) <= digits_value(s),
    decreases s.len() - k,
{
    if k < s.len() {
        lemma_digits_monotone(s, k + 1);
        assert(s.take(k + 1).drop_last() =~= s.take(k));
    } else {
        assert(s.take(k) =~= s);
    }
}

/// The value of the digits `chars[from..]`, where it is at most `max`.
fn parse_magnitude(chars: &Vec<char>, from: usize, max: u64) -> (value: Option<u64>)
    requires
        from <= chars@.len(),
    ensures
        match value {
            Some(n) => is_digits(chars@.skip(from as int)) && digits_value(
                chars@.skip(from as int),
            ) == n && n <= max,
            None => is_digits(chars@.skip(from as int)) ==> digits_value(chars@.skip(from as int))
                > max,
        },
{
    let ghost s = chars@.skip(from as int);
    if from == chars.len() {
        return None;
    }
    let mut total: u64 = 0;
    let mut i: usize = from;
    assert(s.take(0) =~= Seq::<char>::empty());
    while i < chars.len()
        invariant
            from <= i <= chars@.len(),
            s == chars@.skip(from as int),
            forall|j: int| 0 <= j < i - from ==> is_digit(#[trigger] s[j]),
            total == digits_value(s.take(i - from)),
            total <= max,
        decreases chars@.len() - i,
    {
        let c = chars[i];
        assert(c == s[i - from]);
        if c < '0' || c > '9' {
            return None;
        }
        assert(s.take(i - from + 1).drop_last() =~= s.take(i - from));
        let wide: u128 = total as u128 * 10 + (c as u32 - '0' as u32) as u128;
        if wide > max as u128 {
            proof {
                if is_digits(s) {
                    lemma_digits_monotone(s, i - from + 1);
                }
            }
            return None;
        }
        total = wide as u64;
        i += 1;
    }
    assert(s.take(s.len() as int) =~= s);
    Some(total)
}

/// The unsigned integer, at most `max`, that `s` denotes: the rule by
/// which the standard library parses its unsigned integer types.
pub fn parse_unsigned(s: &str, max: u64) -> (value: Option<u64>)
    ensures
        match value {
            Some(n) => integer_within(s@, 0, max as int) == Some(n as int),
            None => integer_within(s@, 0, max as int) is None,
        },
{
    let chars = to_chars(s);
    assert(chars@.skip(0) =~= chars@);
    if chars.len() > 0 && chars[0] == '+' {
        assert(!is_digit(s@[0]));
        return parse_magnitude(&chars, 1, max);
    }
    parse_magnitude(&chars, 0, max)
}

/// The `i64` that `s` denotes: the rule by which the standard library
/// parses that type.
pub fn parse_i64(s: &str) -> (value: Option<i64>)
    ensures
        match value {
            Some(n) => integer_within(s@, i64::MIN as int, i64::MAX as int) == Some(n as int),
            None => integer_within(s@, i64::MIN as int, i64::MAX as int) is None,
        },
{
    let chars = to_chars(s);
    assert(chars@.skip(0) =~= chars@);
    if chars.len() > 0 && chars[0] == '-' {
        assert(!is_digit(s@[0]));
        match parse_magnitude(&chars, 1, 0x8000_0000_0000_0000) {
            Some(n) => if n == 0x8000_0000_0000_0000 {
                Some(i64::MIN)
            } else {
                Some(-(n as i64))
            },
            None => None,
        }
    } else {
        match parse_unsigned(s, 0x7fff_ffff_ffff_ffff) {
            Some(n) => Some(n as i64),
            None => None,
        }
    }
}

/// The `i32` that `s` denotes: the rule by which the standard library
/// parses that type.
pub fn parse_i32(s: &str) -> (value: Option<i32>)
    ensures
        match value {
            Some(n) => integer_within(s@, i32::MIN as int, i32::MAX as int) == Some(n as int),
            None => integer_within(s@, i32::MIN as int, i32::MAX as int) is None,
        },
{
    match parse_i64(s) {
        Some(n) => if i32::MIN as i64 <= n && n <= i32::MAX as i64 {
            Some(n as i32)
        } else {
            None
        },
        None => None,
    }
}

/// The decimal digits of `n`, without leading zeros.
pub open spec fn decimal(n: nat) -> Seq<char>
    decreases n,
{
    if n < 10 {
        seq![('0' as u32 + n) as char]
    } else {
        decimal(n / 10).push(('0' as u32 + n % 10) as char)
    }
}

/// Appends the decimal digits of `n`.
pub fn push_decimal(out: &mut String, n: u64)
    ensures
        final(out)@ == old(out)@ + decimal(n as nat),
    decreases n,
{
    let digit = (48u8 + (n % 10) as u8) as char;
    if n >= 10 {
        push_decimal(out, n / 10);
    }
    let ghost before = out@;
    out.push(digit);
    assert(out@ =~= old(out)@ + decimal(n as nat));
}

/// Writing a number in decimal and reading it back gives the number.
pub proof fn law_decimal_reads_back(n: nat)
    ensures
        integer_of(decimal(n), false) == Some(n as int),
        is_digits(decimal(n)),
        digits_value(decimal(n)) == n,
    decreases n,
{
    let s = decimal(n);
    if n < 10 {
        assert(s.drop_last() =~= Seq::<char>::empty());
        assert(digits_value(s.drop_last()) == 0);
    } else {
        law_decimal_reads_back(n / 10);
        assert(s.drop_last() =~= decimal(n / 10));
    }
}

/// A text without the separator is one piece, and where a separator stands
/// between two texts, the pieces of the first are followed by those of the
/// second.
pub proof fn law_split_at_every_separator(a: Seq<char>, b: Seq<char>, sep: char)
    ensures
        !a.contains(sep) ==> split(a, sep) == seq![a],
        split(a.push(sep) + b, sep) == split(a, sep) + split(b, sep),
    decreases a.len() + b.len(),
{
    if !a.contains(sep) {
        lemma_one_piece(a, sep);
    }
    lemma_split_nonempty(a, sep);
    lemma_split_nonempty(b, sep);
    let whole = a.push(sep) + b;
    if b.len() == 0 {
        assert(whole =~= a.push(sep));
        assert(whole.drop_last() =~= a);
        assert(split(whole, sep) =~= split(a, sep) + split(b, sep));
    } else {
        law_split_at_every_separator(a, b.drop_last(), sep);
        assert(whole.drop_last() =~= a.push(sep) + b.drop_last());
        lemma_split_nonempty(b.drop_last(), sep);
        assert(split(whole, sep) =~= split(a, sep) + split(b, sep));
    }
}

proof fn lemma_one_piece(a: Seq<char>, sep: char)
    requires
        !a.contains(sep),
    ensures
        split(a, sep) == seq![a],
    decreases a.len(),
{
    if a.len() > 0 {
        let shorter = a.drop_last();
        assert(a[a.len() - 1] != sep);
        assert forall|i: int| 0 <= i < shorter.len() implies shorter[i] != sep by {
            assert(a[i] != sep);
        }
        lemma_one_piece(shorter, sep);
        assert(shorter.push(a.last()) =~= a);
        assert(split(a, sep) =~= seq![a]);
    } else {
        assert(a =~= Seq::<char>::empty());
        assert(split(a, sep) =~= seq![a]);
    }
}

/// A text is split once at its first separator, and not at all where it has
/// none.
pub proof fn law_split_at_the_first_separator(a: Seq<char>, b: Seq<char>, sep: char)
    requires
        !a.contains(sep),
    ensures
        split_once(a, sep) is None,
        split_once(a.push(sep) + b, sep) == Some((a, b)),
{
    assert forall|i: int| !first_at(a, sep, i) by {
        if 0 <= i < a.len() {
            assert(a.contains(a[i]));
        }
    }
    let whole = a.push(sep) + b;
    let n = a.len() as int;
    assert forall|j: int| 0 <= j < n implies whole[j] != sep by {
        assert(whole[j] == a[j]);
        assert(a.contains(a[j]));
    }
    assert(first_at(whole, sep, n));
    let i = choose|i: int| first_at(whole, sep, i);
    assert(i == n);
    assert(whole.take(n) =~= a);
    assert(whole.skip(n + 1) =~= b);
}

/// Trimming takes away the white space around a text and nothing else.
pub proof fn law_only_white_space_is_trimmed(before: Seq<char>, s: Seq<char>, after: Seq<char>)
    requires
        forall|i: int| 0 <= i < before.len() ==> white_space(#[trigger] before[i]),
        forall|i: int| 0 <= i < after.len() ==> white_space(#[trigger] after[i]),
        s.len() > 0 ==> !white_space(s.first()) && !white_space(s.last()),
    ensures
        trimmed(before + s + after) == s,
    decreases before.len() + after.len(),
{
    let whole = before + s + after;
    if s.len() == 0 {
        assert forall|i: int| 0 <= i < whole.len() implies white_space(#[trigger] whole[i]) by {
            if i < before.len() {
                assert(whole[i] == before[i]);
            } else {
                assert(whole[i] == after[i - before.len()]);
            }
        }
        lemma_all_white(whole);
        assert(s =~= Seq::<char>::empty());
    } else {
        lemma_trim_start(before, s + after);
        assert(before + (s + after) =~= whole);
        lemma_trim_end(s, after);
    }
}

proof fn lemma_all_white(s: Seq<char>)
    requires
        forall|i: int| 0 <= i < s.len() ==> white_space(#[trigger] s[i]),
    ensures
        trimmed(s) == Seq::<char>::empty(),
    decreases s.len(),
{
    if s.len() > 0 {
        let rest = s.drop_first();
        assert forall|i: int| 0 <= i < rest.len() implies white_space(#[trigger] rest[i]) by {
            assert(rest[i] == s[i + 1]);
        }
        assert(white_space(s[0]));
        lemma_all_white(rest);
    } else {
        assert(trimmed(s) =~= Seq::<char>::empty());
    }
}

proof fn lemma_trim_start(before: Seq<char>, s: Seq<char>)
    requires
        forall|i: int| 0 <= i < before.len() ==> white_space(#[trigger] before[i]),
        s.len() > 0,
        !white_space(s.first()),
    ensures
        trim_start(before + s) == s,
    decreases before.len(),
{
    if before.len() > 0 {
        let rest = before.drop_first();
        assert forall|i: int| 0 <= i < rest.len() implies white_space(#[trigger] rest[i]) by {
            assert(rest[i] == before[i + 1]);
        }
        assert(white_space(before[0]));
        lemma_trim_start(rest, s);
        assert((before + s).drop_first() =~= rest + s);
    } else {
        assert(before + s =~= s);
    }
}

proof fn lemma_trim_end(s: Seq<char>, after: Seq<char>)
    requires
        forall|i: int| 0 <= i < after.len() ==> white_space(#[trigger] after[i]),
        s.len() > 0,
        !white_space(s.last()),
    ensures
        trim_end(s + after) == s,
    decreases after.len(),
{
    if after.len() > 0 {
        let rest = after.drop_last();
        assert forall|i: int| 0 <= i < rest.len() implies white_space(#[trigger] rest[i]) by {
            assert(rest[i] == after[i]);
        }
        assert(white_space(after[after.len() - 1]));
        lemma_trim_end(s, rest);
        assert((s + after).drop_last() =~= s + rest);
    } else {
        assert(s + after =~= s);
    }
}

/// An integer is read from its decimal digits, alone or behind a plus sign,
/// and behind a minus sign its negative where negative numbers are asked
/// for; each only where it lies within the bounds. A text in which anything
/// but a digit stands, other than one sign in front, is no integer.
pub proof fn law_integers_are_read(n: nat, low: int, high: int, other: Seq<char>, i: int)
    requires
        low <= 0 <= high,
        0 <= i < other.len(),
        !('0' <= other[i] <= '9'),
        i > 0 || (other[0] != '+' && other[0] != '-') || other.len() == 1,
    ensures
        integer_within(decimal(n), low, high) == if n <= high {
            Some(n as int)
        } else {
            None
        },
        integer_within(seq!['+'] + decimal(n), low, high) == if n <= high {
            Some(n as int)
        } else {
            None
        },
        integer_within(seq!['-'] + decimal(n), low, high) == if low < 0 && low <= -n {
            Some(-n)
        } else {
            None
        },
        integer_within(other, low, high) is None,
        integer_within(Seq::<char>::empty(), low, high) is None,
{
    law_decimal_reads_back(n);
    let plus = seq!['+'] + decimal(n);
    let minus = seq!['-'] + decimal(n);
    assert(plus.skip(1) =~= decimal(n));
    assert(minus.skip(1) =~= decimal(n));
    assert(!is_digit(plus[0]));
    assert(!is_digit(minus[0]));
    assert(!is_digit(other[i]));
    assert(!is_digits(other));
    if i > 0 {
        assert(other.skip(1)[i - 1] == other[i]);
        assert(!is_digits(other.skip(1)));
    }
}

/// Digits are read one by one: each is worth its figure, and one more behind
/// others makes those worth ten times as much. Zeros in front are worth
/// nothing, and none are written.
pub proof fn law_digits_are_read_one_by_one(s: Seq<char>, c: char, n: nat)
    requires
        s.len() > 0,
        forall|i: int| 0 <= i < s.len() ==> '0' <= #[trigger] s[i] <= '9',
        '0' <= c <= '9',
    ensures
        integer_of(seq![c], false) == Some(c as int - '0' as int),
        integer_of(s, false) is Some,
        integer_of(s.push(c), false) == Some(
            integer_of(s, false)->0 * 10 + (c as int - '0' as int),
        ),
        integer_of(seq!['0'] + s, false) == integer_of(s, false),
        n >= 10 ==> decimal(n)[0] != '0',
        n < 10 ==> decimal(n).len() == 1,
{
    let one = seq![c];
    assert(one.drop_last() =~= Seq::<char>::empty());
    assert(digits_value(one.drop_last()) == 0);
    assert(is_digits(one));
    assert(is_digits(s));
    assert(s.push(c).drop_last() =~= s);
    assert(is_digits(s.push(c)));
    lemma_leading_zero(s);
    lemma_first_digit(n);
}

proof fn lemma_leading_zero(s: Seq<char>)
    requires
        is_digits(s),
    ensures
        is_digits(seq!['0'] + s),
        digits_value(seq!['0'] + s) == digits_value(s),
    decreases s.len(),
{
    let padded = seq!['0'] + s;
    assert forall|i: int| 0 <= i < padded.len() implies is_digit(#[trigger] padded[i]) by {
        if i > 0 {
            assert(is_digit(s[i - 1]));
        }
    }
    let shorter = s.drop_last();
    assert(padded.drop_last() =~= seq!['0'] + shorter);
    if shorter.len() > 0 {
        assert forall|i: int| 0 <= i < shorter.len() implies is_digit(#[trigger] shorter[i]) by {
            assert(is_digit(s[i]));
        }
        lemma_leading_zero(shorter);
    } else {
        let zero = seq!['0'] + shorter;
        assert(zero.drop_last() =~= Seq::<char>::empty());
        assert(digits_value(zero.drop_last()) == 0);
        assert(zero.last() == '0');
        assert(digits_value(zero) == 0);
        assert(digits_value(shorter) == 0);
    }
    assert(padded.last() == s.last());
    assert(digits_value(padded.drop_last()) == digits_value(shorter));
}

proof fn lemma_first_digit(n: nat)
    ensures
        n > 0 ==> decimal(n)[0] != '0',
        decimal(n).len() > 0,
    decreases n,
{
    if n >= 10 {
        lemma_first_digit(n / 10);
    }
}

/// A text ends in a suffix exactly where it is some text with the suffix
/// behind it.
pub proof fn law_what_a_text_ends_in(s: Seq<char>, suffix: Seq<char>)
    ensures
        ends_in(s, suffix) <==> exists|before: Seq<char>| #[trigger] (before + suffix) == s,
{
    if ends_in(s, suffix) {
        let before = s.take(s.len() - suffix.len());
        assert(before + suffix =~= s);
    }
    if exists|before: Seq<char>| #[trigger] (before + suffix) == s {
        let before = choose|before: Seq<char>| #[trigger] (before + suffix) == s;
        assert(s.skip(s.len() - suffix.len()) =~= suffix);
    }
}

} // verus!
