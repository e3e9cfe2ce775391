//! Character-level building blocks of the text grammars: whitespace
//! trimming, splitting on a delimiter, case-insensitive comparison and
//! decimal integers.

use vstd::prelude::*;
use vstd::std_specs::iter::IteratorSpec;

verus! {

/// Whether `c` carries the Unicode `White_Space` property.
pub open spec fn is_space(c: char) -> bool {
    let n = c as u32;
    (0x09 <= n <= 0x0D) || n == 0x20 || n == 0x85 || n == 0xA0 || n == 0x1680 || (0x2000 <= n
        <= 0x200A) || n == 0x2028 || n == 0x2029 || n == 0x202F || n == 0x205F || n == 0x3000
}

/// `s` without its leading whitespace.
pub open spec fn trim_start(s: Seq<char>) -> Seq<char>
    decreases s.len(),
{
    if s.len() > 0 && is_space(s[0]) {
        trim_start(s.skip(1))
    } else {
        s
    }
}

/// `s` without its trailing whitespace.
pub open spec fn trim_end(s: Seq<char>) -> Seq<char>
    decreases s.len(),
{
    if s.len() > 0 && is_space(s.last()) {
        trim_end(s.drop_last())
    } else {
        s
    }
}

/// `s` without leading and trailing whitespace.
pub open spec fn trim(s: Seq<char>) -> Seq<char> {
    trim_end(trim_start(s))
}

/// Leading whitespace is all that trimming at the start takes away: what
/// is left is the end of the sequence, begins with no whitespace, and has
/// only whitespace before it.
pub proof fn lemma_trim_start(s: Seq<char>)
    ensures
        trim_start(s).len() <= s.len(),
        trim_start(s) == s.skip(s.len() - trim_start(s).len()),
        trim_start(s).len() > 0 ==> !is_space(trim_start(s)[0]),
        forall|i: int| 0 <= i < s.len() - trim_start(s).len() ==> is_space(#[trigger] s[i]),
    decreases s.len(),
{
    if s.len() > 0 && is_space(s[0]) {
        let rest = s.skip(1);
        lemma_trim_start(rest);
        let cut = rest.len() - trim_start(rest).len();
        assert(rest.skip(cut) =~= s.skip(cut + 1));
        assert forall|i: int| 0 <= i < s.len() - trim_start(s).len() implies is_space(
            #[trigger] s[i],
        ) by {
            if i > 0 {
                assert(s[i] == rest[i - 1]);
            }
        }
    } else {
        assert(s.skip(0) =~= s);
    }
}

/// Trailing whitespace is all that trimming at the end takes away: what is
/// left is the start of the sequence, ends with no whitespace, and has only
/// whitespace after it.
pub proof fn lemma_trim_end(s: Seq<char>)
    ensures
        trim_end(s).len() <= s.len(),
        trim_end(s) == s.take(trim_end(s).len() as int),
        trim_end(s).len() > 0 ==> !is_space(trim_end(s).last()),
        forall|i: int| trim_end(s).len() <= i < s.len() ==> is_space(#[trigger] s[i]),
    decreases s.len(),
{
    if s.len() > 0 && is_space(s.last()) {
        let rest = s.drop_last();
        lemma_trim_end(rest);
        assert(rest.take(trim_end(rest).len() as int) =~= s.take(trim_end(rest).len() as int));
        assert forall|i: int| trim_end(s).len() <= i < s.len() implies is_space(
            #[trigger] s[i],
        ) by {
            if i < s.len() - 1 {
                assert(s[i] == rest[i]);
            }
        }
    } else {
        assert(s.take(s.len() as int) =~= s);
    }
}

/// Trimming keeps the part of a sequence between its leading and its
/// trailing whitespace: the part begins and ends with no whitespace, and
/// all that stands before and after it is whitespace.
pub proof fn lemma_trim(s: Seq<char>)
    ensures
        trim_start(s).len() <= s.len(),
        trim(s).len() <= trim_start(s).len(),
        trim(s) == s.subrange(
            s.len() - trim_start(s).len(),
            s.len() - trim_start(s).len() + trim(s).len(),
        ),
        trim(s).len() > 0 ==> !is_space(trim(s)[0]) && !is_space(trim(s).last()),
        forall|i: int|
            0 <= i < s.len() && !(s.len() - trim_start(s).len() <= i < s.len() - trim_start(
                s,
            ).len() + trim(s).len()) ==> is_space(#[trigger] s[i]),
{
    let middle = trim_start(s);
    let start = s.len() - middle.len();
    lemma_trim_start(s);
    lemma_trim_end(middle);
    assert(trim(s) =~= s.subrange(start, start + trim(s).len()));
    assert forall|i: int|
        0 <= i < s.len() && !(start <= i < start + trim(s).len()) implies is_space(
        #[trigger] s[i],
    ) by {
        if i >= start {
            assert(s[i] == middle[i - start]);
        }
    }
    if trim(s).len() > 0 {
        assert(trim(s)[0] == middle[0]);
    }
}

/// The pieces of `s` between occurrences of `delimiter`. There is always at
/// least one piece; `n` delimiters give `n + 1` pieces, empty ones included.
pub open spec fn split(s: Seq<char>, delimiter: char) -> Seq<Seq<char>>
    decreases s.len(),
{
    if s.len() == 0 {
        seq![Seq::<char>::empty()]
    } else {
        let before = split(s.drop_last(), delimiter);
        if s.last() == delimiter {
            before.push(Seq::<char>::empty())
        } else {
            before.update(before.len() - 1, before.last().push(s.last()))
        }
    }
}

/// The views of the items of a sequence.
pub open spec fn views<T: View>(s: Seq<T>) -> Seq<T::V> {
    Seq::new(s.len(), |i: int| s[i]@)
}

/// Whether `c` is whitespace.
pub fn is_space_char(c: char) -> (r: bool)
    ensures
        r == is_space(c),
{
    let n: u32 = c as u32;
    (0x09 <= n && n <= 0x0D) || n == 0x20 || n == 0x85 || n == 0xA0 || n == 0x1680 || (0x2000 <= n
        && n <= 0x200A) || n == 0x2028 || n == 0x2029 || n == 0x202F || n == 0x205F || n == 0x3000
}

/// Splitting gives at least one piece.
pub proof fn lemma_split_nonempty(s: Seq<char>, delimiter: char)
    ensures
        split(s, delimiter).len() >= 1,
    decreases s.len(),
{
    if s.len() > 0 {
        lemma_split_nonempty(s.drop_last(), delimiter);
    }
}

/// The pieces put together again, with `delimiter` between each two.
pub open spec fn joined(pieces: Seq<Seq<char>>, delimiter: char) -> Seq<char>
    decreases pieces.len(),
{
    if pieces.len() == 0 {
        Seq::empty()
    } else if pieces.len() == 1 {
        pieces[0]
    } else {
        joined(pieces.drop_last(), delimiter).push(delimiter) + pieces.last()
    }
}

/// The pieces of a sequence hold no delimiter, and give the sequence back
/// when they are joined with the delimiter between them.
pub proof fn lemma_split_joined(s: Seq<char>, delimiter: char)
    ensures
        joined(split(s, delimiter), delimiter) == s,
        forall|i: int, k: int|
            0 <= i < split(s, delimiter).len() && 0 <= k < split(s, delimiter)[i].len() ==> split(
                s,
                delimiter,
            )[i][k] != delimiter,
    decreases s.len(),
{
    if s.len() == 0 {
        assert(joined(split(s, delimiter), delimiter) =~= s);
    } else {
        let front = s.drop_last();
        let before = split(front, delimiter);
        let pieces = split(s, delimiter);
        lemma_split_joined(front, delimiter);
        lemma_split_nonempty(front, delimiter);
        if s.last() == delimiter {
            assert(pieces.drop_last() =~= before);
            assert(joined(pieces, delimiter) =~= front.push(delimiter));
            assert(front.push(delimiter) =~= s);
        } else if before.len() == 1 {
            assert(joined(before, delimiter) == before[0]);
            assert(joined(pieces, delimiter) =~= front.push(s.last()));
            assert(front.push(s.last()) =~= s);
        } else {
            assert(pieces.drop_last() =~= before.drop_last());
            assert(joined(pieces, delimiter) =~= (joined(before.drop_last(), delimiter).push(
                delimiter,
            ) + before.last()).push(s.last()));
            assert(front.push(s.last()) =~= s);
        }
    }
}

/// Splits `s` at every occurrence of `delimiter`.
pub fn split_chars(s: &[char], delimiter: char) -> (pieces: Vec<Vec<char>>)
    ensures
        views(pieces@) == split(s@, delimiter),
{
    let mut pieces: Vec<Vec<char>> = Vec::new();
    let mut current: Vec<char> = Vec::new();
    let mut i: usize = 0;
    while i < s.len()
        invariant
            i <= s.len(),
            views(pieces@).push(current@) == split(s@.take(i as int), delimiter),
        decreases s.len() - i,
    {
        let c = s[i];
        proof {
            assert(s@.take(i + 1).drop_last() == s@.take(i as int));
            assert(s@.take(i + 1).last() == c);
        }
        let ghost before = views(pieces@);
        let ghost piece = current@;
        if c == delimiter {
            pieces.push(current);
            current = Vec::new();
            assert(views(pieces@) == before.push(piece));
            assert(views(pieces@).push(current@) == before.push(piece).push(Seq::<char>::empty()));
        } else {
            current.push(c);
            assert(views(pieces@).push(current@) == before.push(piece).update(
                before.len() as int,
                piece.push(c),
            ));
        }
        i += 1;
    }
    let ghost before = views(pieces@);
    let ghost piece = current@;
    pieces.push(current);
    assert(views(pieces@) == before.push(piece));
    assert(s@.take(s.len() as int) == s@);
    pieces
}

/// Removes leading and trailing whitespace.
pub fn trim_chars(s: &[char]) -> (r: &[char])
    ensures
        r@ == trim(s@),
{
    let mut start: usize = 0;
    assert(s@.skip(0) == s@);
    while start < s.len() && is_space_char(s[start])
        invariant
            start <= s.len(),
            trim_start(s@) == trim_start(s@.skip(start as int)),
        decreases s.len() - start,
    {
        assert(s@.skip(start as int).skip(1) == s@.skip(start + 1));
        start += 1;
    }
    assert(trim_start(s@) == s@.skip(start as int));
    let mut end: usize = s.len();
    assert(s@.skip(start as int) == s@.subrange(start as int, end as int));
    while end > start && is_space_char(s[end - 1])
        invariant
            start <= end <= s.len(),
            trim(s@) == trim_end(s@.subrange(start as int, end as int)),
        decreases end,
    {
        assert(s@.subrange(start as int, end as int).drop_last() == s@.subrange(
            start as int,
            end - 1,
        ));
        end -= 1;
    }
    vstd::slice::slice_subrange(s, start, end)
}

/// The lower-case form of an ASCII capital letter; any other character
/// unchanged.
pub open spec fn lower(c: char) -> char {
    if 'A' <= c <= 'Z' {
        ((c as u32) + 32) as char
    } else {
        c
    }
}

/// `s` with its ASCII capital letters in lower case.
pub open spec fn lowered(s: Seq<char>) -> Seq<char> {
    Seq::new(s.len(), |i: int| lower(s[i]))
}

/// The lower-case form of an ASCII capital letter; any other character
/// unchanged.
pub fn lower_char(c: char) -> (r: char)
    ensures
        r == lower(c),
{
    if 'A' <= c && c <= 'Z' {
        let code: u32 = c as u32 + 32;
        let folded: u8 = code as u8;
        folded as char
    } else {
        c
    }
}

/// Whether `token` is `word` once its ASCII capital letters are lowered.
pub fn is_word(token: &[char], word: &str) -> (r: bool)
    ensures
        r == (lowered(token@) == word@),
{
    let n: usize = word.unicode_len();
    if token.len() != n {
        return false;
    }
    let mut i: usize = 0;
    while i < n
        invariant
            i <= n,
            n == token@.len(),
            n == word@.len(),
            forall|j: int| 0 <= j < i ==> lower(token@[j]) == word@[j],
        decreases n - i,
    {
        if lower_char(token[i]) != word.get_char(i) {
            assert(lowered(token@)[i as int] != word@[i as int]);
            return false;
        }
        i += 1;
    }
    assert(lowered(token@) =~= word@);
    true
}

/// Whether `token` is exactly `word`.
pub fn is_exactly(token: &[char], word: &str) -> (r: bool)
    ensures
        r == (token@ == word@),
{
    let n: usize = word.unicode_len();
    if token.len() != n {
        return false;
    }
    let mut i: usize = 0;
    while i < n
        invariant
            i <= n,
            n == token@.len(),
            n == word@.len(),
            forall|j: int| 0 <= j < i ==> token@[j] == word@[j],
        decreases n - i,
    {
        if token[i] != word.get_char(i) {
            return false;
        }
        i += 1;
    }
    assert(token@ =~= word@);
    true
}

/// Whether `c` is one of the ten ASCII digits.
pub open spec fn is_digit(c: char) -> bool {
    '0' <= c <= '9'
}

/// Whether `s` holds ASCII digits only.
pub open spec fn all_digits(s: Seq<char>) -> bool {
    forall|i: int| 0 <= i < s.len() ==> is_digit(#[trigger] s[i])
}

/// The number that a sequence of decimal digits writes.
pub open spec fn digits_value(s: Seq<char>) -> nat
    decreases s.len(),
{
    if s.len() == 0 {
        0
    } else {
        digits_value(s.drop_last()) * 10 + ((s.last() as u32 - '0' as u32) as nat)
    }
}

/// Whether `c` is `+` or `-`.
pub open spec fn is_sign(c: char) -> bool {
    c == '+' || c == '-'
}

/// The number that `s` writes as an unsigned decimal integer no greater than
/// `max`: an optional `+`, then one or more digits.
pub open spec fn unsigned_of(s: Seq<char>, max: nat) -> Option<nat> {
    let body = if s.len() > 0 && s[0] == '+' {
        s.skip(1)
    } else {
        s
    };
    if body.len() > 0 && all_digits(body) && digits_value(body) <= max {
        Some(digits_value(body))
    } else {
        None
    }
}

/// The number that `s` writes as a signed decimal integer between `min` and
/// `max`: an optional `+` or `-`, then one or more digits.
pub open spec fn signed_of(s: Seq<char>, min: int, max: int) -> Option<int> {
    let signed = s.len() > 0 && is_sign(s[0]);
    let body = if signed {
        s.skip(1)
    } else {
        s
    };
    let value = if signed && s[0] == '-' {
        -(digits_value(body) as int)
    } else {
        digits_value(body) as int
    };
    if body.len() > 0 && all_digits(body) && min <= value <= max {
        Some(value)
    } else {
        None
    }
}

/// The digits that a number begins with write no greater number.
pub proof fn lemma_digits_value_prefix(s: Seq<char>, n: int)
    requires
        0 <= n <= s.len(),
    ensures
        digits_value(s.take(n)) <= digits_value(s),
    decreases s.len() - n,
{
    if n == s.len() {
        assert(s.take(n) == s);
    } else {
        lemma_digits_value_prefix(s.drop_last(), n);
        assert(s.drop_last().take(n) == s.take(n));
    }
}

/// Reads the digits of `s` from `start` on as a number no greater than `max`.
fn parse_digits(s: &[char], start: usize, max: u64) -> (r: Option<u64>)
    requires
        start <= s@.len(),
    ensures
        r == (if s@.len() > start && all_digits(s@.skip(start as int)) && digits_value(
            s@.skip(start as int),
        ) <= max {
            Some(digits_value(s@.skip(start as int)) as u64)
        } else {
            None
        }),
{
    let ghost body = s@.skip(start as int);
    if start == s.len() {
        return None;
    }
    let mut value: u64 = 0;
    let mut i: usize = start;
    while i < s.len()
        invariant
            start <= i <= s.len(),
            body == s@.skip(start as int),
            all_digits(body.take(i - start)),
            value == digits_value(body.take(i - start)),
            value <= max,
        decreases s.len() - i,
    {
        let c = s[i];
        assert(body[i - start] == c);
        if !('0' <= c && c <= '9') {
            return None;
        }
        let digit: u32 = c as u32 - '0' as u32;
        let next: u128 = value as u128 * 10 + digit as u128;
        proof {
            assert(body.take(i + 1 - start).drop_last() == body.take(i - start));
            assert(body.take(i + 1 - start).last() == c);
            assert(next == digits_value(body.take(i + 1 - start)));
        }
        if next > max as u128 {
            proof {
                lemma_digits_value_prefix(body, i + 1 - start);
            }
            return None;
        }
        value = next as u64;
        i += 1;
    }
    assert(body.take(i - start) == body);
    Some(value)
}

/// Reads an unsigned decimal integer no greater than `max`.
pub fn parse_unsigned(s: &[char], max: u64) -> (r: Option<u64>)
    ensures
        r is Some <==> unsigned_of(s@, max as nat) is Some,
        r is Some ==> r.unwrap() == unsigned_of(s@, max as nat).unwrap(),
{
    if s.len() > 0 && s[0] == '+' {
        parse_digits(s, 1, max)
    } else {
        assert(s@.skip(0) == s@);
        parse_digits(s, 0, max)
    }
}

/// Reads a signed decimal integer that fits in 32 bits.
pub fn parse_i32(s: &[char]) -> (r: Option<i32>)
    ensures
        r is Some <==> signed_of(s@, i32::MIN as int, i32::MAX as int) is Some,
        r is Some ==> r.unwrap() == signed_of(s@, i32::MIN as int, i32::MAX as int).unwrap(),
{
    if s.len() > 0 && s[0] == '-' {
        match parse_digits(s, 1, 0x8000_0000) {
            Some(magnitude) => {
                let value: i64 = -(magnitude as i64);
                Some(value as i32)
            },
            None => None,
        }
    } else if s.len() > 0 && s[0] == '+' {
        match parse_digits(s, 1, 0x7fff_ffff) {
            Some(magnitude) => Some(magnitude as i32),
            None => None,
        }
    } else {
        assert(s@.skip(0) == s@);
        match parse_digits(s, 0, 0x7fff_ffff) {
            Some(magnitude) => Some(magnitude as i32),
            None => None,
        }
    }
}

/// The number of digits that `s` begins with.
pub open spec fn digit_run(s: Seq<char>) -> nat
    decreases s.len(),
{
    if s.len() > 0 && is_digit(s[0]) {
        1 + digit_run(s.skip(1))
    } else {
        0
    }
}

/// `s` without a leading `+` or `-`.
pub open spec fn unsigned_part(s: Seq<char>) -> Seq<char> {
    if s.len() > 0 && is_sign(s[0]) {
        s.skip(1)
    } else {
        s
    }
}

/// An exponent after its letter: an optional sign, then one or more digits.
pub open spec fn is_exponent(s: Seq<char>) -> bool {
    let body = unsigned_part(s);
    body.len() > 0 && digit_run(body) == body.len()
}

/// An unsigned decimal number: digits with at most one `.` among them, at
/// least one digit in all, and optionally `e` or `E` with an exponent.
pub open spec fn is_decimal(s: Seq<char>) -> bool {
    let whole = digit_run(s);
    let after_whole = s.skip(whole as int);
    let pointed = after_whole.len() > 0 && after_whole[0] == '.';
    let fraction = if pointed {
        digit_run(after_whole.skip(1))
    } else {
        0
    };
    let rest = if pointed {
        after_whole.skip(1 + fraction as int)
    } else {
        after_whole
    };
    whole + fraction > 0 && (rest.len() == 0 || ((rest[0] == 'e' || rest[0] == 'E')
        && is_exponent(rest.skip(1))))
}

/// Whether `s` writes a real number: an optional sign, then a decimal number
/// or one of the words `inf`, `infinity` and `nan` in any ASCII case.
pub open spec fn is_real_literal(s: Seq<char>) -> bool {
    let body = unsigned_part(s);
    lowered(body) == "inf"@ || lowered(body) == "infinity"@ || lowered(body) == "nan"@
        || is_decimal(body)
}

/// The position after the digits that stand at `start`.
fn skip_digits(s: &[char], start: usize) -> (end: usize)
    requires
        start <= s@.len(),
    ensures
        start <= end <= s@.len(),
        end == start + digit_run(s@.skip(start as int)),
{
    let mut end: usize = start;
    while end < s.len() && '0' <= s[end] && s[end] <= '9'
        invariant
            start <= end <= s.len(),
            start + digit_run(s@.skip(start as int)) == end + digit_run(s@.skip(end as int)),
        decreases s.len() - end,
    {
        assert(s@.skip(end as int).skip(1) == s@.skip(end + 1));
        end += 1;
    }
    end
}

/// The position after a sign that stands at `start`, or `start` itself.
fn skip_sign(s: &[char], start: usize) -> (end: usize)
    requires
        start <= s@.len(),
    ensures
        start <= end <= s@.len(),
        s@.skip(end as int) == unsigned_part(s@.skip(start as int)),
{
    if start < s.len() && (s[start] == '+' || s[start] == '-') {
        assert(s@.skip(start as int).skip(1) == s@.skip(start + 1));
        start + 1
    } else {
        start
    }
}

/// Whether `s` writes an unsigned decimal number from `start` on.
fn is_decimal_from(s: &[char], start: usize) -> (r: bool)
    requires
        start <= s@.len(),
    ensures
        r == is_decimal(s@.skip(start as int)),
{
    let ghost body = s@.skip(start as int);
    let point: usize = skip_digits(s, start);
    assert(body.skip(point - start) == s@.skip(point as int));
    let pointed: bool = point < s.len() && s[point] == '.';
    let mark: usize = if pointed {
        assert(s@.skip(point as int).skip(1) == s@.skip(point + 1));
        let after: usize = skip_digits(s, point + 1);
        assert(s@.skip(point as int).skip(1 + (after - point - 1)) == s@.skip(after as int));
        after
    } else {
        point
    };
    let digits: usize = if pointed {
        mark - start - 1
    } else {
        mark - start
    };
    if digits == 0 {
        return false;
    }
    if mark == s.len() {
        return true;
    }
    if s[mark] != 'e' && s[mark] != 'E' {
        return false;
    }
    assert(s@.skip(mark as int).skip(1) == s@.skip(mark + 1));
    let first: usize = skip_sign(s, mark + 1);
    let last: usize = skip_digits(s, first);
    first < s.len() && last == s.len()
}

/// Whether `s` writes a real number.
pub fn is_real(s: &[char]) -> (r: bool)
    ensures
        r == is_real_literal(s@),
{
    assert(s@.skip(0) == s@);
    let start: usize = skip_sign(s, 0);
    let body = vstd::slice::slice_subrange(s, start, s.len());
    assert(body@ == s@.skip(start as int));
    is_word(body, "inf") || is_word(body, "infinity") || is_word(body, "nan") || is_decimal_from(
        s,
        start,
    )
}

/// The characters of a string.
pub fn chars_of(s: &str) -> (chars: Vec<char>)
    ensures
        chars@ == s@,
{
    broadcast use vstd::string::group_string_axioms;

    let mut chars: Vec<char> = Vec::new();
    let mut rest = s.chars();
    loop
        invariant
            chars@ + rest.remaining() == s@,
            rest.obeys_prophetic_iter_laws(),
            rest.decrease() is Some,
        ensures
            chars@ == s@,
        decreases rest.decrease()->0,
    {
        let ghost before = rest.remaining();
        match rest.next() {
            Some(c) => {
                chars.push(c);
                assert(chars@ + rest.remaining() =~= s@);
            },
            None => {
                assert(chars@ + before =~= chars@);
                break ;
            },
        }
    }
    chars
}

/// `String::push` appends the character to the end of the string.
pub assume_specification[ String::push ](s: &mut String, c: char)
    ensures
        final(s)@ == old(s)@.push(c),
;

/// A string of the given characters.
pub fn string_of(chars: &[char]) -> (s: String)
    ensures
        s@ == chars@,
{
    let mut s = String::new();
    let mut i: usize = 0;
    while i < chars.len()
        invariant
            i <= chars@.len(),
            s@ == chars@.take(i as int),
        decreases chars.len() - i,
    {
        s.push(chars[i]);
        assert(chars@.take(i + 1) =~= chars@.take(i as int).push(chars@[i as int]));
        i += 1;
    }
    assert(chars@.take(chars@.len() as int) =~= chars@);
    s
}

/// The text that `bytes` encode, by `core::str::from_utf8`: present exactly
/// when the bytes are well-formed UTF-8.
#[verifier::external_body]
pub(crate) fn utf8_text(bytes: &[u8]) -> (text: Option<&str>)
    ensures
        text is Some <==> vstd::utf8::valid_utf8(bytes@),
        text is Some ==> text.unwrap()@ == vstd::utf8::decode_utf8(bytes@),
{
    core::str::from_utf8(bytes).ok()
}

} // verus!
