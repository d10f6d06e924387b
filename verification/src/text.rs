//! Text as sequences of characters: building, comparing and writing numbers.

use vstd::prelude::*;
use vstd::string::*;
use vstd::utf8::*;

verus! {

/// `String::push` of the standard library: the character is added at the end.
#[verifier::external_body]
fn push_char(text: &mut String, c: char)
    ensures
        final(text)@ == old(text)@.push(c),
{
    text.push(c);
}

/// Whether two texts hold the same characters.
pub fn same(a: &str, b: &str) -> (r: bool)
    ensures
        r == (a@ == b@),
{
    a.to_owned() == b.to_owned()
}

/// The characters of a text.
pub fn chars_of(text: &str) -> (r: Vec<char>)
    ensures
        r@ == text@,
{
    let mut out: Vec<char> = Vec::new();
    for c in it: text.chars()
        invariant
            out@ == it.seq().take(it.index()),
            it.seq() == text@,
    {
        out.push(c);
    }
    out
}

/// The text of a sequence of characters.
pub fn from_chars(chars: &[char]) -> (r: String)
    ensures
        r@ == chars@,
{
    let mut out: String = String::new();
    let mut i: usize = 0;
    while i < chars.len()
        invariant
            i <= chars.len(),
            out@ == chars@.take(i as int),
        decreases chars.len() - i,
    {
        push_char(&mut out, chars[i]);
        assert(chars@.take(i as int).push(chars@[i as int]) =~= chars@.take(i + 1));
        i = i + 1;
    }
    assert(chars@.take(i as int) =~= chars@);
    out
}

/// The character of a decimal digit.
pub open spec fn digit(d: nat) -> char {
    (48 + d) as char
}

/// A number in decimal, without leading zeros.
pub open spec fn decimal_of(n: nat) -> Seq<char>
    decreases n,
{
    if n < 10 {
        seq![digit(n)]
    } else {
        decimal_of(n / 10).push(digit(n % 10))
    }
}

fn digit_char(d: u64) -> (r: char)
    requires
        d < 10,
    ensures
        r == digit(d as nat),
{
    match d {
        0 => '0',
        1 => '1',
        2 => '2',
        3 => '3',
        4 => '4',
        5 => '5',
        6 => '6',
        7 => '7',
        8 => '8',
        _ => '9',
    }
}

/// A number in decimal.
pub fn decimal(n: u64) -> (r: String)
    ensures
        r@ == decimal_of(n as nat),
    decreases n,
{
    if n < 10 {
        let mut out: String = String::new();
        push_char(&mut out, digit_char(n));
        assert(out@ =~= seq![digit(n as nat)]);
        out
    } else {
        let mut out: String = decimal(n / 10);
        push_char(&mut out, digit_char(n % 10));
        out
    }
}

/// The length of the longest common beginning of two sequences.
pub open spec fn agreement<T>(a: Seq<T>, b: Seq<T>, from: nat) -> nat
    decreases a.len() - from,
{
    if from < a.len() && from < b.len() && a[from as int] == b[from as int] {
        agreement(a, b, from + 1)
    } else {
        from
    }
}

/// The encodings of two texts, one behind the other, encode the two texts, one behind the
/// other.
pub proof fn lemma_encoding_joins(a: Seq<char>, b: Seq<char>)
    ensures
        encode_utf8(a + b) == encode_utf8(a) + encode_utf8(b),
    decreases a.len(),
{
    if a.len() == 0 {
        assert(a + b =~= b);
        assert(encode_utf8(a) + encode_utf8(b) =~= encode_utf8(b));
    } else {
        lemma_encoding_joins(a.drop_first(), b);
        assert((a + b).drop_first() =~= a.drop_first() + b);
        assert(encode_utf8(a + b) =~= encode_utf8(a) + encode_utf8(b));
    }
}

/// The bytes that a character takes in UTF-8.
pub fn width(c: char) -> (r: usize)
    ensures
        r == encode_scalar(c as u32).len(),
        1 <= r <= 4,
{
    let code: u32 = c as u32;
    if code <= 0x7f {
        1
    } else if code <= 0x7ff {
        2
    } else if code <= 0xffff {
        3
    } else {
        4
    }
}

/// The longest common beginning of two lists of tokens.
pub fn common_tokens(a: &[u32], b: &[u32]) -> (r: usize)
    ensures
        r == agreement(a@, b@, 0),
        r <= a@.len(),
{
    let mut i: usize = 0;
    while i < a.len() && i < b.len() && a[i] == b[i]
        invariant
            i <= a@.len(),
            agreement(a@, b@, i as nat) == agreement(a@, b@, 0),
        decreases a@.len() - i,
    {
        i = i + 1;
    }
    i
}

/// The first `agreement` items of two sequences are the same, and the next ones differ.
pub proof fn law_agreement_is_longest<T>(a: Seq<T>, b: Seq<T>, from: nat)
    requires
        from <= a.len(),
        from <= b.len(),
        a.take(from as int) == b.take(from as int),
    ensures
        agreement(a, b, from) <= a.len(),
        agreement(a, b, from) <= b.len(),
        a.take(agreement(a, b, from) as int) == b.take(agreement(a, b, from) as int),
        agreement(a, b, from) < a.len() && agreement(a, b, from) < b.len() ==> a[agreement(a, b, from) as int]
            != b[agreement(a, b, from) as int],
    decreases a.len() - from,
{
    if from < a.len() && from < b.len() && a[from as int] == b[from as int] {
        assert(a.take((from + 1) as int) =~= a.take(from as int).push(a[from as int]));
        assert(b.take((from + 1) as int) =~= b.take(from as int).push(b[from as int]));
        law_agreement_is_longest(a, b, from + 1);
    }
}

/// Whether a character is a decimal digit.
pub open spec fn is_digit(c: char) -> bool {
    '0' <= c && c <= '9'
}

/// The number that a row of decimal digits stands for.
pub open spec fn digits_value(digits: Seq<char>) -> nat
    decreases digits.len(),
{
    if digits.len() == 0 {
        0
    } else {
        10 * digits_value(digits.drop_last()) + (digits.last() as nat - '0' as nat) as nat
    }
}

/// The number that a text stands for: one or more decimal digits, with or without a plus
/// sign before them.
pub open spec fn unsigned_value(text: Seq<char>) -> Option<nat> {
    if unsigned_text(text).len() > 0 && all_digits(unsigned_text(text)) {
        Some(digits_value(unsigned_text(text)))
    } else {
        None
    }
}

/// What stands behind the plus sign, where there is one.
pub open spec fn unsigned_text(text: Seq<char>) -> Seq<char> {
    if text.len() > 0 && text[0] == '+' {
        text.skip(1)
    } else {
        text
    }
}

/// Whether a text holds decimal digits alone.
pub open spec fn all_digits(text: Seq<char>) -> bool {
    forall|i: int| 0 <= i < text.len() ==> is_digit(#[trigger] text[i])
}

/// Reads a number; nothing where the text stands for none, or for one that does not fit.
pub fn parse_unsigned(text: &str) -> (r: Option<usize>)
    ensures
        r == match unsigned_value(text@) {
            Some(n) => if n <= usize::MAX {
                Some(n as usize)
            } else {
                None
            },
            None => None::<usize>,
        },
{
    let chars = chars_of(text);
    let start: usize = if chars.len() > 0 && chars[0] == '+' {
        1
    } else {
        0
    };
    let ghost digits = unsigned_text(text@);
    assert(digits =~= text@.skip(start as int));
    if start == chars.len() {
        return None;
    }
    let mut value: usize = 0;
    let mut fits: bool = true;
    let mut i: usize = start;
    while i < chars.len()
        invariant
            chars@ == text@,
            start <= i <= chars@.len(),
            start < chars@.len(),
            digits == text@.skip(start as int),
            digits == unsigned_text(text@),
            forall|k: int| 0 <= k < i - start ==> is_digit(#[trigger] digits[k]),
            fits ==> value == digits_value(digits.take(i - start)),
            !fits ==> digits_value(digits.take(i - start)) > usize::MAX,
        decreases chars@.len() - i,
    {
        let c: char = chars[i];
        assert(digits[i - start] == c);
        if c < '0' || c > '9' {
            assert(!is_digit(digits[i - start]));
            return None;
        }
        let ghost before = digits.take(i - start);
        let ghost after = digits.take(i - start + 1);
        assert(after.drop_last() =~= before);
        assert(after.last() == c);
        let d: usize = (c as u32 - '0' as u32) as usize;
        if fits {
            match value.checked_mul(10) {
                Some(tens) => match tens.checked_add(d) {
                    Some(next) => value = next,
                    None => fits = false,
                },
                None => fits = false,
            }
        }
        i = i + 1;
    }
    assert(digits.take(i - start) =~= digits);
    if fits {
        Some(value)
    } else {
        None
    }
}

/// A number in decimal, however large.
pub fn decimal_wide(n: u128) -> (r: String)
    ensures
        r@ == decimal_of(n as nat),
    decreases n,
{
    if n < 10 {
        let mut out: String = String::new();
        push_char(&mut out, digit_char(n as u64));
        assert(out@ =~= seq![digit(n as nat)]);
        out
    } else {
        let mut out: String = decimal_wide(n / 10);
        push_char(&mut out, digit_char((n % 10) as u64));
        out
    }
}

/// The last digits of a number, as many as there are places.
pub open spec fn padded(n: nat, places: nat) -> Seq<char>
    decreases places,
{
    if places == 0 {
        Seq::empty()
    } else {
        padded(n / 10, (places - 1) as nat).push(digit(n % 10))
    }
}

/// Ten to a power.
pub open spec fn ten_to(places: nat) -> nat
    decreases places,
{
    if places == 0 {
        1
    } else {
        10 * ten_to((places - 1) as nat)
    }
}

/// A quotient rounded to the nearest integer, and to the even one of two as near.
pub open spec fn rounded(a: nat, b: nat) -> nat {
    let q = a / b;
    let twice = 2 * (a % b);
    if twice > b || (twice == b && q % 2 == 1) {
        q + 1
    } else {
        q
    }
}

/// A quotient in decimal with so many places, rounded.
pub open spec fn fixed_text(a: nat, b: nat, places: nat) -> Seq<char> {
    let q = rounded(a * ten_to(places), b);
    decimal_of(q / ten_to(places)) + "."@ + padded(q % ten_to(places), places)
}

fn push_padded(text: &mut String, n: u128, places: u32)
    ensures
        final(text)@ == old(text)@ + padded(n as nat, places as nat),
    decreases places,
{
    if places > 0 {
        push_padded(text, n / 10, places - 1);
        push_char(text, digit_char((n % 10) as u64));
    }
    assert(text@ =~= old(text)@ + padded(n as nat, places as nat));
}

/// A quotient in decimal with one or three places.
pub fn fixed(a: u128, b: u128, thousandths: bool) -> (r: String)
    requires
        b > 0,
        a * 1000 <= u128::MAX,
    ensures
        r@ == fixed_text(
            a as nat,
            b as nat,
            if thousandths {
                3
            } else {
                1
            },
        ),
{
    let places: u32 = if thousandths {
        3
    } else {
        1
    };
    let scale: u128 = if thousandths {
        1000
    } else {
        10
    };
    proof {
        reveal_with_fuel(ten_to, 4);
        assert(ten_to(places as nat) == scale);
    }
    let wide: u128 = a * scale;
    let floor: u128 = wide / b;
    let rest: u128 = wide % b;
    let up: bool = rest > b - rest || (rest == b - rest && floor % 2 == 1);
    let q: u128 = if up {
        proof {
            assert(floor < u128::MAX) by {
                if b == 1 {
                    assert(rest == 0);
                } else {
                    assert(floor * b <= wide) by (nonlinear_arith)
                        requires
                            b > 0,
                            floor == wide / b,
                    ;
                    assert(floor * 2 <= floor * b) by (nonlinear_arith)
                        requires
                            b >= 2,
                    ;
                }
            }
        }
        floor + 1
    } else {
        floor
    };
    let mut out: String = decimal_wide(q / scale);
    out.append(".");
    push_padded(&mut out, q % scale, places);
    out
}

/// Whether a character is a control character.
pub open spec fn is_control(c: char) -> bool {
    c <= '\u{1f}' || ('\u{7f}' <= c && c <= '\u{9f}')
}

/// A text with its control characters made blank.
pub open spec fn cleaned(text: Seq<char>) -> Seq<char> {
    text.map_values(
        |c: char|
            if is_control(c) {
                ' '
            } else {
                c
            },
    )
}

/// Makes control characters blank.
pub fn clean(text: &str) -> (r: String)
    ensures
        r@ == cleaned(text@),
{
    let chars = chars_of(text);
    let mut out: Vec<char> = Vec::new();
    let mut i: usize = 0;
    while i < chars.len()
        invariant
            i <= chars@.len(),
            out@ =~= cleaned(chars@.take(i as int)),
        decreases chars@.len() - i,
    {
        let c: char = chars[i];
        out.push(
            if c <= '\u{1f}' || ('\u{7f}' <= c && c <= '\u{9f}') {
                ' '
            } else {
                c
            },
        );
        i = i + 1;
    }
    assert(chars@.take(i as int) =~= chars@);
    from_chars(out.as_slice())
}

/// A letter of the Latin alphabet as a small one.
pub open spec fn small(c: char) -> char {
    if 'A' <= c && c <= 'Z' {
        (c as u32 + 32) as char
    } else {
        c
    }
}

/// A text with its Latin letters small.
pub open spec fn lower(text: Seq<char>) -> Seq<char> {
    text.map_values(|c: char| small(c))
}

fn to_small(c: char) -> (r: char)
    ensures
        r == small(c),
{
    match c {
        'A' => 'a',
        'B' => 'b',
        'C' => 'c',
        'D' => 'd',
        'E' => 'e',
        'F' => 'f',
        'G' => 'g',
        'H' => 'h',
        'I' => 'i',
        'J' => 'j',
        'K' => 'k',
        'L' => 'l',
        'M' => 'm',
        'N' => 'n',
        'O' => 'o',
        'P' => 'p',
        'Q' => 'q',
        'R' => 'r',
        'S' => 's',
        'T' => 't',
        'U' => 'u',
        'V' => 'v',
        'W' => 'w',
        'X' => 'x',
        'Y' => 'y',
        'Z' => 'z',
        other => other,
    }
}

/// Makes Latin letters small.
pub fn to_lower(chars: &[char]) -> (r: String)
    ensures
        r@ == lower(chars@),
{
    let mut out: Vec<char> = Vec::new();
    let mut i: usize = 0;
    while i < chars.len()
        invariant
            i <= chars@.len(),
            out@ =~= lower(chars@.take(i as int)),
        decreases chars@.len() - i,
    {
        out.push(to_small(chars[i]));
        i = i + 1;
    }
    assert(chars@.take(i as int) =~= chars@);
    from_chars(out.as_slice())
}

/// A number's decimal digits stand for the number, and begin with a zero only where it is zero.
pub proof fn law_decimal_reads_back(n: nat)
    ensures
        unsigned_value(decimal_of(n)) == Some(n),
        decimal_of(n).len() > 0,
        forall|i: int| 0 <= i < decimal_of(n).len() ==> '0' <= #[trigger] decimal_of(n)[i] <= '9',
        n > 0 ==> decimal_of(n)[0] != '0',
        n < 10 ==> decimal_of(n).len() == 1,
    decreases n,
{
    if n >= 10 {
        law_decimal_reads_back(n / 10);
        let d = decimal_of(n);
        assert(d.drop_last() =~= decimal_of(n / 10));
        assert(unsigned_text(d.drop_last()) == d.drop_last());
        assert(d[0] == d.drop_last()[0]);
        assert(unsigned_text(d) == d);
        assert forall|i: int| 0 <= i < d.len() implies is_digit(#[trigger] d[i]) by {
            if i < d.len() - 1 {
                assert(d[i] == d.drop_last()[i]);
            }
        }
        assert(digits_value(d.drop_last()) == n / 10);
    } else {
        let d = decimal_of(n);
        assert(d.drop_last() =~= Seq::<char>::empty());
        assert(digits_value(d.drop_last()) == 0);
        assert(unsigned_text(d) == d);
        assert(is_digit(d[0]));
    }
}

/// What was written of a number is read back as that number.
pub proof fn law_number_round_trip(n: u64, written: String, text: &str, r: Option<usize>)
    requires
        call_ensures(decimal, (n,), written),
        text@ == written@,
        call_ensures(parse_unsigned, (text,), r),
    ensures
        r == if n <= usize::MAX {
            Some(n as usize)
        } else {
            None
        },
{
    law_decimal_reads_back(n as nat);
}

/// A text is read as a number only where it is made of digits, but for a plus sign before them.
pub proof fn law_only_digits_are_read(text: &str, r: Option<usize>, i: int)
    requires
        call_ensures(parse_unsigned, (text,), r),
        0 <= i < text@.len(),
        !('0' <= text@[i] <= '9'),
        i > 0 || text@[i] != '+' || text@.len() == 1,
    ensures
        r is None,
{
    let digits = unsigned_text(text@);
    if text@[0] == '+' {
        if text@.len() > 1 && i > 0 {
            assert(digits[i - 1] == text@[i]);
        }
    } else {
        assert(digits[i] == text@[i]);
    }
}

/// Two lists share their first items up to the first place where they differ, or where one ends.
pub proof fn law_common_tokens(a: &[u32], b: &[u32], r: usize)
    requires
        call_ensures(common_tokens, (a, b), r),
    ensures
        r <= a@.len() && r <= b@.len(),
        forall|i: int| 0 <= i < r ==> a@[i] == b@[i],
        r == a@.len() || r == b@.len() || a@[r as int] != b@[r as int],
{
    assert(a@.take(0) =~= b@.take(0));
    law_agreement_is_longest(a@, b@, 0);
    assert forall|i: int| 0 <= i < r implies a@[i] == b@[i] by {
        assert(a@.take(r as int)[i] == b@.take(r as int)[i]);
    }
}

/// Control characters become blanks, every other character stays, and none is lost.
pub proof fn law_clean(text: &str, r: String)
    requires
        call_ensures(clean, (text,), r),
    ensures
        r@.len() == text@.len(),
        forall|i: int|
            0 <= i < text@.len() ==> #[trigger] r@[i] == if (text@[i] as int) < 32 || 127 <= (text@[i] as int) < 160 {
                ' '
            } else {
                text@[i]
            },
{
}

/// Latin capitals become the small letters 32 places on, every other character stays.
pub proof fn law_to_lower(chars: &[char], r: String)
    requires
        call_ensures(to_lower, (chars,), r),
    ensures
        r@.len() == chars@.len(),
        forall|i: int|
            0 <= i < chars@.len() ==> #[trigger] r@[i] as u32 == if 65 <= (chars@[i] as u32) <= 90 {
                chars@[i] as u32 + 32
            } else {
                chars@[i] as int
            },
{
}

/// A quotient is rounded to an integer that lies no further from it than any other.
pub proof fn law_rounded_is_nearest(a: nat, b: nat)
    requires
        b > 0,
    ensures
        2 * (rounded(a, b) * b - a) <= b,
        2 * (a - rounded(a, b) * b) <= b,
        2 * (rounded(a, b) * b - a) == b || 2 * (a - rounded(a, b) * b) == b ==> rounded(a, b) % 2 == 0,
{
    let q = a / b;
    assert(a == q * b + a % b && a % b < b) by (nonlinear_arith)
        requires
            b > 0,
            q == a / b,
    ;
    assert((q + 1) * b == q * b + b) by (nonlinear_arith);
}

/// Digits padded to so many places stand for the number, where it has no more.
proof fn lemma_padded_value(n: nat, places: nat)
    requires
        n < ten_to(places),
    ensures
        padded(n, places).len() == places,
        all_digits(padded(n, places)),
        digits_value(padded(n, places)) == n,
    decreases places,
{
    if places > 0 {
        lemma_padded_value(n / 10, (places - 1) as nat);
        assert(padded(n, places).drop_last() =~= padded(n / 10, (places - 1) as nat));
    }
}

/// A quotient with one or three places: what stands before the point and the places behind it,
/// read as one number, is the quotient in tenths or thousandths, rounded to the nearest.
pub proof fn law_fixed(a: u128, b: u128, thousandths: bool, r: String) -> (q: nat)
    requires
        call_ensures(fixed, (a, b, thousandths), r),
        b > 0,
    ensures
        ({
            let places = if thousandths {
                3nat
            } else {
                1nat
            };
            let scale = if thousandths {
                1000int
            } else {
                10int
            };
            let point = r@.len() - places - 1;
            &&& 2 * (q * b - a * scale) <= b
            &&& 2 * (a * scale - q * b) <= b
            &&& point > 0
            &&& r@[point] == '.'
            &&& unsigned_value(r@.take(point)) == Some((q as int / scale) as nat)
            &&& all_digits(r@.skip(point + 1))
            &&& digits_value(r@.skip(point + 1)) == q as int % scale
        }),
{
    let places: nat = if thousandths {
        3
    } else {
        1
    };
    let scale: nat = ten_to(places);
    reveal_with_fuel(ten_to, 4);
    assert(scale == if thousandths {
        1000int
    } else {
        10int
    });
    let q = rounded(a as nat * scale, b as nat);
    law_rounded_is_nearest(a as nat * scale, b as nat);
    law_decimal_reads_back(q / scale);
    lemma_padded_value(q % scale, places);
    reveal_strlit(".");
    let head = decimal_of(q / scale);
    let tail = padded(q % scale, places);
    assert(r@ == head + "."@ + tail);
    let point = r@.len() - places - 1;
    assert(point == head.len());
    assert(r@.take(point) =~= head);
    assert(r@.skip(point + 1) =~= tail);
    q
}

} // verus!
