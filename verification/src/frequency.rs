//! Frequencies as people write them.

use vstd::prelude::*;

use crate::decimal::{
    all_digits, digits_value, leading_digit_counts, scaled_to_u32, whole_numbers_are_exact, Decimal,
};
use crate::text::{chars_of, spec_decimal};

verus! {

/// Characters that count as white space around a number.
pub open spec fn spec_is_space(c: char) -> bool {
    ||| '\u{9}' <= c <= '\u{D}'
    ||| c == ' '
    ||| c == '\u{85}'
    ||| c == '\u{A0}'
    ||| c == '\u{1680}'
    ||| '\u{2000}' <= c <= '\u{200A}'
    ||| c == '\u{2028}'
    ||| c == '\u{2029}'
    ||| c == '\u{202F}'
    ||| c == '\u{205F}'
    ||| c == '\u{3000}'
}

fn is_space(c: char) -> (space: bool)
    ensures
        space == spec_is_space(c),
{
    ('\u{9}' <= c && c <= '\u{D}') || c == ' ' || c == '\u{85}' || c == '\u{A0}' || c == '\u{1680}'
        || ('\u{2000}' <= c && c <= '\u{200A}') || c == '\u{2028}' || c == '\u{2029}' || c
        == '\u{202F}' || c == '\u{205F}' || c == '\u{3000}'
}

/// Text without white space at its end.
pub open spec fn trimmed_end(text: Seq<char>) -> Seq<char>
    decreases text.len(),
{
    if text.len() > 0 && spec_is_space(text.last()) {
        trimmed_end(text.drop_last())
    } else {
        text
    }
}

/// Text without white space at either end.
pub open spec fn trimmed(text: Seq<char>) -> Seq<char>
    decreases text.len(),
{
    if text.len() > 0 && spec_is_space(text[0]) {
        trimmed(text.skip(1))
    } else {
        trimmed_end(text)
    }
}

/// Whether a character is a decimal digit.
pub open spec fn is_digit(c: char) -> bool {
    '0' <= c <= '9'
}

/// Where the run of digits that starts at `from` ends.
pub open spec fn digit_run(text: Seq<char>, from: int) -> int
    decreases text.len() - from,
{
    if 0 <= from < text.len() && is_digit(text[from]) {
        digit_run(text, from + 1)
    } else {
        from
    }
}

/// The digits that characters write.
pub open spec fn digits_of(text: Seq<char>) -> Seq<u8> {
    text.map_values(|c: char| (c as int - '0' as int) as u8)
}

/// A number with its leading zeroes dropped and its point moved along.
pub open spec fn normalised(digits: Seq<u8>, point: int) -> Decimal
    decreases digits.len(),
{
    if digits.len() > 0 && digits[0] == 0 {
        normalised(digits.skip(1), point - 1)
    } else {
        Decimal { digits, point }
    }
}

/// What a text says of a number.
pub enum Reading {
    /// Not a number at all: the text does not follow the grammar.
    Malformed,
    /// The word for an undefined value.
    Undefined,
    /// The word for infinity.
    Infinite { negative: bool },
    /// A decimal number.
    Finite { negative: bool, number: Decimal },
}

/// The exponent that a text writes from `from` on: an optional sign, then at least one
/// digit, then nothing more.
pub open spec fn exponent_at(text: Seq<char>, from: int) -> Option<int> {
    let signed = from < text.len() && (text[from] == '+' || text[from] == '-');
    let start = if signed {
        from + 1
    } else {
        from
    };
    let end = digit_run(text, start);
    if end == start || end != text.len() {
        None
    } else {
        let magnitude = digits_value(digits_of(text.subrange(start, end))) as int;
        Some(
            if signed && text[from] == '-' {
                -magnitude
            } else {
                magnitude
            },
        )
    }
}

/// An unsigned decimal number: digits with an optional point among them, at least one digit
/// in all, and an optional exponent.
pub open spec fn unsigned_number(text: Seq<char>) -> Option<Decimal> {
    let a = digit_run(text, 0);
    let dotted = a < text.len() && text[a] == '.';
    let b = if dotted {
        digit_run(text, a + 1)
    } else {
        a
    };
    let after = if dotted {
        text.subrange(a + 1, b)
    } else {
        seq![]
    };
    let digits = digits_of(text.take(a) + after);
    let exponent = if b == text.len() {
        Some(0)
    } else if text[b] == 'e' || text[b] == 'E' {
        exponent_at(text, b + 1)
    } else {
        None
    };
    match exponent {
        Some(e) if digits.len() > 0 => Some(normalised(digits, a + e)),
        _ => None,
    }
}

/// A character without its case.
pub open spec fn lower(c: char) -> char {
    if c == 'I' {
        'i'
    } else if c == 'N' {
        'n'
    } else if c == 'F' {
        'f'
    } else if c == 'T' {
        't'
    } else if c == 'Y' {
        'y'
    } else if c == 'A' {
        'a'
    } else {
        c
    }
}

/// Whether a text is a word, its case aside.
pub open spec fn spells(text: Seq<char>, word: Seq<char>) -> bool {
    text.map_values(|c: char| lower(c)) == word
}

/// What a text says of a number: an optional sign, then one of the words or a decimal number.
pub open spec fn read_number(text: Seq<char>) -> Reading {
    let signed = text.len() > 0 && (text[0] == '+' || text[0] == '-');
    let negative = signed && text[0] == '-';
    let rest = if signed {
        text.skip(1)
    } else {
        text
    };
    if spells(rest, seq!['i', 'n', 'f']) || spells(
        rest,
        seq!['i', 'n', 'f', 'i', 'n', 'i', 't', 'y'],
    ) {
        Reading::Infinite { negative }
    } else if spells(rest, seq!['n', 'a', 'n']) {
        Reading::Undefined
    } else {
        match unsigned_number(rest) {
            Some(number) => Reading::Finite { negative, number },
            None => Reading::Malformed,
        }
    }
}

/// The power of ten that a suffix stands for.
pub open spec fn suffix_exponent(c: char) -> Option<nat> {
    if c == 'k' || c == 'K' {
        Some(3)
    } else if c == 'M' || c == 'm' {
        Some(6)
    } else if c == 'G' || c == 'g' {
        Some(9)
    } else {
        None
    }
}

/// What a text says of a frequency in hertz.
///
/// Negative and undefined values come out as zero, values too large as the largest there is.
pub open spec fn spec_parse_frequency(text: Seq<char>) -> Option<u32> {
    let body = trimmed(text);
    if body.len() == 0 {
        None
    } else {
        let suffix = suffix_exponent(body.last());
        let number = if suffix is Some {
            body.drop_last()
        } else {
            body
        };
        let exponent = match suffix {
            Some(e) => e,
            None => 0,
        };
        match read_number(number) {
            Reading::Malformed => None,
            Reading::Undefined => Some(0),
            Reading::Infinite { negative } => Some(
                if negative {
                    0
                } else {
                    u32::MAX
                },
            ),
            Reading::Finite { negative, number } => Some(
                if negative {
                    0
                } else {
                    number.scaled_to_u32(exponent) as u32
                },
            ),
        }
    }
}

/// Drops white space from both ends.
fn trim(chars: &Vec<char>) -> (bounds: (usize, usize))
    ensures
        bounds.0 <= bounds.1 <= chars@.len(),
        chars@.subrange(bounds.0 as int, bounds.1 as int) == trimmed(chars@),
{
    let n: usize = chars.len();
    let mut start: usize = 0;
    assert(chars@.skip(0) =~= chars@);
    while start < n && is_space(chars[start])
        invariant
            start <= n,
            n == chars@.len(),
            trimmed(chars@) == trimmed(chars@.skip(start as int)),
        decreases n - start,
    {
        assert(chars@.skip(start as int).skip(1) =~= chars@.skip(start + 1));
        start += 1;
    }
    let mut end: usize = n;
    assert(chars@.subrange(start as int, end as int) =~= chars@.skip(start as int));
    assert(trimmed(chars@) == trimmed_end(chars@.subrange(start as int, end as int)));
    while end > start && is_space(chars[end - 1])
        invariant
            start <= end <= n,
            n == chars@.len(),
            trimmed(chars@) == trimmed_end(chars@.subrange(start as int, end as int)),
        decreases end,
    {
        assert(chars@.subrange(start as int, end as int).drop_last() =~= chars@.subrange(
            start as int,
            end - 1,
        ));
        end -= 1;
    }
    (start, end)
}

/// Where the run of digits that starts at `from` ends.
fn run_end(text: &[char], from: usize) -> (end: usize)
    requires
        from <= text@.len(),
    ensures
        end == digit_run(text@, from as int),
        from <= end <= text@.len(),
        forall|i: int| from <= i < end ==> is_digit(#[trigger] text@[i]),
{
    let mut end: usize = from;
    while end < text.len() && '0' <= text[end] && text[end] <= '9'
        invariant
            from <= end <= text@.len(),
            digit_run(text@, from as int) == digit_run(text@, end as int),
            forall|i: int| from <= i < end ==> is_digit(#[trigger] text@[i]),
        decreases text@.len() - end,
    {
        end += 1;
    }
    end
}

/// An exponent beyond which nothing changes any more.
pub const FAR: i128 = 1_000_000_000_000_000_000_000_000_000_000;

/// An exponent kept within reach.
pub open spec fn within_reach(e: int) -> int {
    if e > FAR {
        FAR as int
    } else if e < -FAR {
        -FAR as int
    } else {
        e
    }
}

/// The exponent that a text writes from `from` on, kept within reach.
fn read_exponent(text: &[char], from: usize) -> (exponent: Option<i128>)
    requires
        from <= text@.len(),
    ensures
        match exponent_at(text@, from as int) {
            None => exponent is None,
            Some(e) => exponent matches Some(x) && x == within_reach(e),
        },
{
    let mut start: usize = from;
    let mut negative = false;
    if from < text.len() && (text[from] == '+' || text[from] == '-') {
        negative = text[from] == '-';
        start = from + 1;
    }
    let end: usize = run_end(text, start);
    if end == start || end != text.len() {
        return None;
    }
    let ghost written = digits_of(text@.subrange(start as int, end as int));
    let mut magnitude: i128 = 0;
    let mut i: usize = start;
    assert(written.take(0) =~= seq![]);
    while i < end
        invariant
            start <= i <= end <= text@.len(),
            written == digits_of(text@.subrange(start as int, end as int)),
            forall|j: int| start <= j < end ==> is_digit(#[trigger] text@[j]),
            0 <= magnitude <= FAR,
            magnitude == within_reach(digits_value(written.take(i - start)) as int),
        decreases end - i,
    {
        let ghost before = digits_value(written.take(i - start));
        assert(is_digit(text@[i as int]));
        let digit: i128 = (text[i] as u32 - '0' as u32) as i128;
        proof {
            assert(written.take(i - start + 1).drop_last() =~= written.take(i - start));
            assert(written.take(i - start + 1).last() == digit);
        }
        magnitude = 10 * magnitude + digit;
        if magnitude > FAR {
            magnitude = FAR;
        }
        i += 1;
    }
    assert(written.take(end - start) =~= written);
    Some(
        if negative {
            -magnitude
        } else {
            magnitude
        },
    )
}

proof fn normalising_drops_zeroes(digits: Seq<u8>, point: int, z: int)
    requires
        0 <= z <= digits.len(),
        forall|i: int| 0 <= i < z ==> #[trigger] digits[i] == 0,
        z < digits.len() ==> digits[z] != 0,
    ensures
        normalised(digits, point) == (Decimal { digits: digits.skip(z), point: point - z }),
    decreases z,
{
    if z > 0 {
        assert(digits[0] == 0);
        assert forall|i: int| 0 <= i < z - 1 implies #[trigger] digits.skip(1)[i] == 0 by {
            assert(digits.skip(1)[i] == digits[i + 1]);
        }
        normalising_drops_zeroes(digits.skip(1), point - 1, z - 1);
        assert(digits.skip(1).skip(z - 1) =~= digits.skip(z));
    } else {
        assert(digits.skip(0) =~= digits);
    }
}

/// Reads an unsigned decimal number: its digits without leading zeroes, and its point with
/// the exponent kept within reach.
fn read_unsigned(text: &[char]) -> (number: Option<(Vec<u8>, i128)>)
    ensures
        match unsigned_number(text@) {
            None => number is None,
            Some(exact) => number matches Some((digits, point)) && {
                let near = Decimal { digits: digits@, point: point as int };
                &&& near.wf()
                &&& -2 * FAR < point < 2 * FAR
                &&& forall|e: nat| e <= 9 ==> #[trigger] near.scaled_to_u32(e)
                    == exact.scaled_to_u32(e)
            },
        },
{
    let a: usize = run_end(text, 0);
    let dotted = a < text.len() && text[a] == '.';
    let b: usize = if dotted {
        run_end(text, a + 1)
    } else {
        a
    };
    let exponent: i128 = if b == text.len() {
        0
    } else if text[b] == 'e' || text[b] == 'E' {
        match read_exponent(text, b + 1) {
            Some(e) => e,
            None => {
                return None;
            },
        }
    } else {
        return None;
    };
    let ghost after = if dotted {
        text@.subrange(a + 1, b as int)
    } else {
        seq![]
    };
    let ghost shown = text@.take(a as int) + after;
    let ghost all = digits_of(shown);
    if a == 0 && (!dotted || b == a + 1) {
        assert(shown =~= seq![]);
        return None;
    }
    let mut digits: Vec<u8> = Vec::new();
    let mut zeroes: usize = 0;
    let mut i: usize = 0;
    while i < b
        invariant
            0 <= a <= b <= text@.len(),
            i <= b,
            dotted ==> a < b,
            !dotted ==> a == b,
            forall|j: int| 0 <= j < a ==> is_digit(#[trigger] text@[j]),
            forall|j: int| a < j < b ==> is_digit(#[trigger] text@[j]),
            dotted == (a < text@.len() && text@[a as int] == '.'),
            after == (if dotted {
                text@.subrange(a + 1, b as int)
            } else {
                seq![]
            }),
            shown == text@.take(a as int) + after,
            all == digits_of(shown),
            zeroes + digits@.len() == if i <= a {
                i as int
            } else {
                i - 1
            },
            digits@ == all.subrange(zeroes as int, zeroes + digits@.len()),
            all_digits(digits@),
            forall|j: int| 0 <= j < zeroes ==> #[trigger] all[j] == 0,
            digits@.len() > 0 ==> digits@[0] != 0,
        decreases b - i,
    {
        if i != a {
            let ghost at = zeroes + digits@.len();
            assert(is_digit(text@[i as int]));
            assert(shown[at as int] == text@[i as int]);
            let digit: u8 = (text[i] as u32 - '0' as u32) as u8;
            assert(all[at as int] == digit);
            if digit == 0 && digits.len() == 0 {
                zeroes += 1;
                assert(digits@ =~= all.subrange(zeroes as int, zeroes + digits@.len()));
            } else {
                digits.push(digit);
                assert(digits@ =~= all.subrange(zeroes as int, zeroes + digits@.len()));
            }
        }
        i += 1;
    }
    let point: i128 = a as i128 + exponent - zeroes as i128;
    proof {
        assert(all.len() == zeroes + digits@.len());
        assert(digits@ =~= all.skip(zeroes as int));
        let exact_exponent = if b == text@.len() {
            0
        } else {
            exponent_at(text@, b + 1)->0
        };
        normalising_drops_zeroes(all, a + exact_exponent, zeroes as int);
        let exact = normalised(all, a + exact_exponent);
        let near = Decimal { digits: digits@, point: point as int };
        assert forall|e: nat| e <= 9 implies #[trigger] near.scaled_to_u32(e)
            == exact.scaled_to_u32(e) by {
            assert(exact.digits == near.digits);
            if exact_exponent > FAR {
                assert(near.point + e > 10 && exact.point + e > 10);
            } else if exact_exponent < -FAR {
                assert(near.point + e < 0 && exact.point + e < 0);
            }
        }
    }
    Some((digits, point))
}

/// Whether a text is a word, its case aside.
fn is_word(text: &[char], word: &[char]) -> (same: bool)
    ensures
        same == spells(text@, word@),
{
    let ghost folded = text@.map_values(|c: char| lower(c));
    if text.len() != word.len() {
        return false;
    }
    let mut i: usize = 0;
    while i < text.len()
        invariant
            i <= text@.len(),
            text@.len() == word@.len(),
            folded == text@.map_values(|c: char| lower(c)),
            forall|j: int| 0 <= j < i ==> folded[j] == word@[j],
        decreases text@.len() - i,
    {
        if without_case(text[i]) != word[i] {
            assert(folded[i as int] != word@[i as int]);
            return false;
        }
        i += 1;
    }
    assert(folded =~= word@);
    true
}

fn without_case(c: char) -> (folded: char)
    ensures
        folded == lower(c),
{
    match c {
        'I' => 'i',
        'N' => 'n',
        'F' => 'f',
        'T' => 't',
        'Y' => 'y',
        'A' => 'a',
        _ => c,
    }
}

/// Reads a signed number and scales it to a whole number of hertz.
fn read_scaled(text: &[char], exponent: usize) -> (value: Option<u32>)
    requires
        exponent <= 9,
    ensures
        value == (match read_number(text@) {
            Reading::Malformed => None,
            Reading::Undefined => Some(0u32),
            Reading::Infinite { negative } => Some(
                if negative {
                    0u32
                } else {
                    u32::MAX
                },
            ),
            Reading::Finite { negative, number } => Some(
                if negative {
                    0u32
                } else {
                    number.scaled_to_u32(exponent as nat) as u32
                },
            ),
        }),
{
    let signed = text.len() > 0 && (text[0] == '+' || text[0] == '-');
    let negative = signed && text[0] == '-';
    let rest = if signed {
        vstd::slice::slice_subrange(text, 1, text.len())
    } else {
        text
    };
    proof {
        if signed {
            assert(rest@ =~= text@.skip(1));
        }
    }
    let short = ['i', 'n', 'f'];
    let long = ['i', 'n', 'f', 'i', 'n', 'i', 't', 'y'];
    let undefined = ['n', 'a', 'n'];
    assert(short@ =~= seq!['i', 'n', 'f']);
    assert(long@ =~= seq!['i', 'n', 'f', 'i', 'n', 'i', 't', 'y']);
    assert(undefined@ =~= seq!['n', 'a', 'n']);
    if is_word(rest, short.as_slice()) || is_word(rest, long.as_slice()) {
        return Some(
            if negative {
                0
            } else {
                u32::MAX
            },
        );
    }
    if is_word(rest, undefined.as_slice()) {
        return Some(0);
    }
    match read_unsigned(rest) {
        None => None,
        Some((digits, point)) => {
            if negative {
                Some(0)
            } else {
                Some(scaled_to_u32(digits.as_slice(), point, exponent))
            }
        },
    }
}

/// Accepts plain hertz or a suffixed form such as `98.5M` or `7100k`.
pub fn parse_frequency(text: &str) -> (hertz: Option<u32>)
    ensures
        hertz == spec_parse_frequency(text@),
{
    let chars = chars_of(text);
    let (start, end) = trim(&chars);
    if start == end {
        return None;
    }
    let exponent: usize = match chars[end - 1] {
        'k' | 'K' => 3,
        'M' | 'm' => 6,
        'G' | 'g' => 9,
        _ => 0,
    };
    let stop: usize = if exponent == 0 {
        end
    } else {
        end - 1
    };
    let ghost body = chars@.subrange(start as int, end as int);
    proof {
        assert(body.last() == chars@[end - 1]);
        assert(body.drop_last() =~= chars@.subrange(start as int, end - 1));
    }
    read_scaled(vstd::slice::slice_subrange(chars.as_slice(), start, stop), exponent)
}

/// The digits of a number written in decimal write that number.
proof fn written_digits(n: nat)
    ensures
        ({
            let text = spec_decimal(n);
            &&& text.len() > 0
            &&& forall|i: int| 0 <= i < text.len() ==> is_digit(#[trigger] text[i])
            &&& digits_value(digits_of(text)) == n
            &&& n > 0 ==> digits_of(text)[0] > 0
            &&& n == 0 ==> digits_of(text) == seq![0u8]
        }),
    decreases n,
{
    let text = spec_decimal(n);
    let digits = digits_of(text);
    if n < 10 {
        assert(digits.drop_last() =~= seq![]);
        reveal_with_fuel(digits_value, 2);
        assert(digits[0] == n);
        if n == 0 {
            assert(digits =~= seq![0u8]);
        }
    } else {
        written_digits(n / 10);
        let shorter = spec_decimal(n / 10);
        assert(digits.drop_last() =~= digits_of(shorter));
        assert(digits.last() == n % 10);
        assert(text[0] == shorter[0]);
        assert forall|i: int| 0 <= i < text.len() implies is_digit(#[trigger] text[i]) by {
            if i < shorter.len() {
                assert(text[i] == shorter[i]);
            }
        }
        assert(digits[0] == digits_of(shorter)[0]);
    }
}

proof fn digit_run_covers(text: Seq<char>, from: int)
    requires
        0 <= from <= text.len(),
        forall|i: int| 0 <= i < text.len() ==> is_digit(#[trigger] text[i]),
    ensures
        digit_run(text, from) == text.len(),
    decreases text.len() - from,
{
    if from < text.len() {
        digit_run_covers(text, from + 1);
    }
}

/// Plain hertz are read exactly: writing a frequency in decimal and reading it gives it back.
pub proof fn plain_hertz_read_back(hertz: u32)
    ensures
        spec_parse_frequency(spec_decimal(hertz as nat)) == Some(hertz),
{
    let n = hertz as nat;
    let text = spec_decimal(n);
    let digits = digits_of(text);
    written_digits(n);
    digit_run_covers(text, 0);
    assert(is_digit(text[0]) && is_digit(text[text.len() - 1]));
    assert(trimmed(text) == text);
    let folded = text.map_values(|c: char| lower(c));
    assert(folded[0] == text[0]);
    assert(text.take(text.len() as int) + seq![] =~= text);
    assert(unsigned_number(text) == Some(normalised(digits, text.len() as int)));
    if n == 0 {
        normalising_drops_zeroes(digits, 1, 1);
        assert(digits.skip(1) =~= seq![]);
    } else {
        normalising_drops_zeroes(digits, digits.len() as int, 0);
        assert(digits.skip(0) =~= digits);
        leading_digit_counts(digits);
        whole_numbers_are_exact(digits, n);
    }
}

/// How many hertz a suffix stands for.
pub open spec fn hertz_in(suffix: char) -> nat {
    if suffix == 'k' || suffix == 'K' {
        1_000
    } else if suffix == 'm' || suffix == 'M' {
        1_000_000
    } else {
        1_000_000_000
    }
}

/// A suffix multiplies: a whole number of kilohertz, megahertz or gigahertz, in either case of
/// letter, is read as that many hertz.
pub proof fn suffixes_multiply(n: u32, suffix: char)
    requires
        suffix == 'k' || suffix == 'K' || suffix == 'm' || suffix == 'M' || suffix == 'g' || suffix
            == 'G',
        n * hertz_in(suffix) <= u32::MAX,
    ensures
        spec_parse_frequency(spec_decimal(n as nat).push(suffix)) == Some(
            (n * hertz_in(suffix)) as u32,
        ),
{
    let whole = spec_decimal(n as nat);
    let text = whole.push(suffix);
    let digits = digits_of(whole);
    written_digits(n as nat);
    digit_run_covers(whole, 0);
    assert(text[0] == whole[0]);
    assert(is_digit(whole[0]));
    assert(text.last() == suffix);
    assert(trimmed(text) == text);
    assert(text.drop_last() =~= whole);
    let folded = whole.map_values(|c: char| lower(c));
    assert(folded[0] == whole[0]);
    assert(whole.take(whole.len() as int) + seq![] =~= whole);
    assert(unsigned_number(whole) == Some(normalised(digits, whole.len() as int)));
    crate::decimal::suffix_powers();
    if n == 0 {
        normalising_drops_zeroes(digits, 1, 1);
        assert(digits.skip(1) =~= seq![]);
    } else {
        normalising_drops_zeroes(digits, digits.len() as int, 0);
        assert(digits.skip(0) =~= digits);
        let exponent = suffix_exponent(suffix)->0;
        crate::decimal::scaled_whole_numbers_are_exact(digits, n as nat, exponent);
    }
}

/// White space around a frequency does not matter.
pub proof fn white_space_is_ignored(text: Seq<char>)
    requires
        text.len() > 0,
    ensures
        spec_parse_frequency(seq![' '] + text) == spec_parse_frequency(text),
        spec_parse_frequency(text.push(' ')) == spec_parse_frequency(text),
{
    assert((seq![' '] + text).skip(1) =~= text);
    trailing_space_is_trimmed(text);
}

proof fn trailing_space_is_trimmed(text: Seq<char>)
    ensures
        trimmed(text.push(' ')) == trimmed(text),
    decreases text.len(),
{
    let longer = text.push(' ');
    assert(longer.drop_last() =~= text);
    if text.len() > 0 && spec_is_space(text[0]) {
        assert(longer[0] == text[0]);
        assert(longer.skip(1) =~= text.skip(1).push(' '));
        trailing_space_is_trimmed(text.skip(1));
    } else if text.len() == 0 {
        assert(longer.skip(1) =~= seq![]);
        assert(text =~= seq![]);
    } else {
        assert(longer[0] == text[0]);
    }
}

/// A number with a minus sign is no frequency above zero.
pub proof fn negative_numbers_read_as_zero(n: u32)
    ensures
        spec_parse_frequency(seq!['-'] + spec_decimal(n as nat)) == Some(0u32),
{
    let whole = spec_decimal(n as nat);
    let text = seq!['-'] + whole;
    written_digits(n as nat);
    digit_run_covers(whole, 0);
    assert(is_digit(whole[whole.len() - 1]));
    assert(text[text.len() - 1] == whole[whole.len() - 1]);
    assert(trimmed(text) == text);
    assert(text.skip(1) =~= whole);
    let folded = whole.map_values(|c: char| lower(c));
    assert(folded[0] == whole[0]);
    assert(is_digit(whole[0]));
    assert(whole.take(whole.len() as int) + seq![] =~= whole);
    assert(unsigned_number(whole) is Some);
}

} // verus!
