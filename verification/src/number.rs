use vstd::prelude::*;
use crate::error::{JsonError, TypeFault};
use crate::text::chars_of;

verus! {

/// A number of one of the supported widths. A number with a fraction or an
/// exponent is carried as its literal text in 32-bit floating form.
#[derive(Debug)]
pub enum Number {
    U8(u8),
    U16(u16),
    U32(u32),
    U64(u64),
    U128(u128),
    I8(i8),
    I16(i16),
    I32(i32),
    I64(i64),
    I128(i128),
    F32(String),
}

pub enum NumberView {
    U8(u8),
    U16(u16),
    U32(u32),
    U64(u64),
    U128(u128),
    I8(i8),
    I16(i16),
    I32(i32),
    I64(i64),
    I128(i128),
    F32(Seq<char>),
}

impl View for Number {
    type V = NumberView;

    open spec fn view(&self) -> NumberView {
        match *self {
            Number::U8(v) => NumberView::U8(v),
            Number::U16(v) => NumberView::U16(v),
            Number::U32(v) => NumberView::U32(v),
            Number::U64(v) => NumberView::U64(v),
            Number::U128(v) => NumberView::U128(v),
            Number::I8(v) => NumberView::I8(v),
            Number::I16(v) => NumberView::I16(v),
            Number::I32(v) => NumberView::I32(v),
            Number::I64(v) => NumberView::I64(v),
            Number::I128(v) => NumberView::I128(v),
            Number::F32(s) => NumberView::F32(s@),
        }
    }
}

pub open spec fn is_digit(c: char) -> bool {
    '0' <= c <= '9'
}

pub open spec fn digit_value(c: char) -> nat {
    if c == '1' {
        1
    } else if c == '2' {
        2
    } else if c == '3' {
        3
    } else if c == '4' {
        4
    } else if c == '5' {
        5
    } else if c == '6' {
        6
    } else if c == '7' {
        7
    } else if c == '8' {
        8
    } else if c == '9' {
        9
    } else {
        0
    }
}

pub open spec fn digit_char(d: nat) -> char {
    if d == 1 {
        '1'
    } else if d == 2 {
        '2'
    } else if d == 3 {
        '3'
    } else if d == 4 {
        '4'
    } else if d == 5 {
        '5'
    } else if d == 6 {
        '6'
    } else if d == 7 {
        '7'
    } else if d == 8 {
        '8'
    } else if d == 9 {
        '9'
    } else {
        '0'
    }
}

pub open spec fn all_digits(s: Seq<char>) -> bool {
    forall|i: int| 0 <= i < s.len() ==> is_digit(#[trigger] s[i])
}

/// The number that a run of decimal digits denotes.
pub open spec fn digits_value(s: Seq<char>) -> nat
    decreases s.len(),
{
    if s.len() == 0 {
        0
    } else {
        digits_value(s.drop_last()) * 10 + digit_value(s.last())
    }
}

/// What an unsigned integer type reads in `s`: an optional `+`, then at
/// least one digit.
pub open spec fn unsigned_value(s: Seq<char>) -> Option<nat> {
    let body = if s.len() > 0 && s[0] == '+' {
        s.skip(1)
    } else {
        s
    };
    if body.len() > 0 && all_digits(body) {
        Some(digits_value(body))
    } else {
        None
    }
}

/// What a signed integer type reads in `s`: an optional `+` or `-`, then at
/// least one digit.
pub open spec fn signed_value(s: Seq<char>) -> Option<int> {
    if s.len() > 0 && s[0] == '-' {
        let body = s.skip(1);
        if body.len() > 0 && all_digits(body) {
            Some(-(digits_value(body) as int))
        } else {
            None
        }
    } else {
        match unsigned_value(s) {
            Some(n) => Some(n as int),
            None => None,
        }
    }
}

/// The length of the run of digits that starts at `i`.
pub open spec fn digit_run(s: Seq<char>, i: int) -> int
    decreases s.len() - i,
{
    if 0 <= i < s.len() && is_digit(s[i]) {
        1 + digit_run(s, i + 1)
    } else {
        0
    }
}

pub open spec fn lower(c: char) -> char {
    if c == 'I' {
        'i'
    } else if c == 'N' {
        'n'
    } else if c == 'F' {
        'f'
    } else if c == 'T' {
        't'
    } else if c == 'Y' {
        'y'
    } else if c == 'A' {
        'a'
    } else if c == 'E' {
        'e'
    } else if c == 'R' {
        'r'
    } else if c == 'U' {
        'u'
    } else if c == 'L' {
        'l'
    } else if c == 'S' {
        's'
    } else {
        c
    }
}

/// Whether `s` is `word`, letter case aside. `word` is in lower case and
/// made of the letters that `lower` knows.
pub open spec fn same_word(s: Seq<char>, word: Seq<char>) -> bool {
    &&& s.len() == word.len()
    &&& forall|i: int| 0 <= i < s.len() ==> lower(#[trigger] s[i]) == word[i]
}

pub open spec fn is_sign(c: char) -> bool {
    c == '+' || c == '-'
}

/// An exponent at `i`: `e` or `E`, an optional sign, and digits up to the
/// end of the text.
pub open spec fn is_exponent(s: Seq<char>, i: int) -> bool {
    &&& 0 <= i < s.len()
    &&& lower(s[i]) == 'e'
    &&& {
        let d = if i + 1 < s.len() && is_sign(s[i + 1]) {
            i + 2
        } else {
            i + 1
        };
        d < s.len() && d + digit_run(s, d) == s.len()
    }
}

/// A decimal number at `i`: digits with an optional point among them, at
/// least one digit in all, then an optional exponent.
pub open spec fn is_decimal(s: Seq<char>, i: int) -> bool {
    let whole = digit_run(s, i);
    let point = i + whole < s.len() && s[i + whole] == '.';
    let fraction = if point {
        digit_run(s, i + whole + 1)
    } else {
        0
    };
    let end = if point {
        i + whole + 1 + fraction
    } else {
        i + whole
    };
    &&& 0 <= i
    &&& whole + fraction >= 1
    &&& end == s.len() || is_exponent(s, end)
}

/// The texts that a floating-point type reads: an optional sign, then
/// `inf`, `infinity` or `nan` in any letter case, or a decimal number.
pub open spec fn is_float_text(s: Seq<char>) -> bool {
    let i: int = if s.len() > 0 && is_sign(s[0]) {
        1
    } else {
        0
    };
    let body = s.skip(i);
    ||| same_word(body, seq!['i', 'n', 'f'])
    ||| same_word(body, seq!['i', 'n', 'f', 'i', 'n', 'i', 't', 'y'])
    ||| same_word(body, seq!['n', 'a', 'n'])
    ||| is_decimal(s, i)
}

/// The number that unquoted text denotes: the first width that reads it,
/// trying the unsigned widths from 8 to 128 bits, then the signed ones,
/// then the floating form.
pub open spec fn number_of_text(s: Seq<char>) -> Option<NumberView> {
    match unsigned_value(s) {
        Some(n) if n <= u128::MAX => Some(
            if n <= u8::MAX {
                NumberView::U8(n as u8)
            } else if n <= u16::MAX {
                NumberView::U16(n as u16)
            } else if n <= u32::MAX {
                NumberView::U32(n as u32)
            } else if n <= u64::MAX {
                NumberView::U64(n as u64)
            } else {
                NumberView::U128(n as u128)
            },
        ),
        _ => match signed_value(s) {
            Some(v) if i128::MIN <= v <= i128::MAX => Some(
                if i8::MIN <= v <= i8::MAX {
                    NumberView::I8(v as i8)
                } else if i16::MIN <= v <= i16::MAX {
                    NumberView::I16(v as i16)
                } else if i32::MIN <= v <= i32::MAX {
                    NumberView::I32(v as i32)
                } else if i64::MIN <= v <= i64::MAX {
                    NumberView::I64(v as i64)
                } else {
                    NumberView::I128(v as i128)
                },
            ),
            _ => if is_float_text(s) {
                Some(NumberView::F32(s))
            } else {
                None
            },
        },
    }
}

/// The decimal digits of `n`, without leading zeros.
pub open spec fn decimal(n: nat) -> Seq<char>
    decreases n,
{
    if n < 10 {
        seq![digit_char(n)]
    } else {
        decimal(n / 10).push(digit_char(n % 10))
    }
}

/// The decimal text of an integer: a `-` before the digits of a negative one.
pub open spec fn int_decimal(v: int) -> Seq<char> {
    if v < 0 {
        seq!['-'] + decimal((-v) as nat)
    } else {
        decimal(v as nat)
    }
}

/// The text that a number is rendered as.
pub open spec fn number_text(n: NumberView) -> Seq<char> {
    match n {
        NumberView::U8(v) => int_decimal(v as int),
        NumberView::U16(v) => int_decimal(v as int),
        NumberView::U32(v) => int_decimal(v as int),
        NumberView::U64(v) => int_decimal(v as int),
        NumberView::U128(v) => int_decimal(v as int),
        NumberView::I8(v) => int_decimal(v as int),
        NumberView::I16(v) => int_decimal(v as int),
        NumberView::I32(v) => int_decimal(v as int),
        NumberView::I64(v) => int_decimal(v as int),
        NumberView::I128(v) => int_decimal(v as int),
        NumberView::F32(s) => s,
    }
}

/// The integer that a number holds; nothing for the floating form.
pub open spec fn number_int(n: NumberView) -> Option<int> {
    match n {
        NumberView::U8(v) => Some(v as int),
        NumberView::U16(v) => Some(v as int),
        NumberView::U32(v) => Some(v as int),
        NumberView::U64(v) => Some(v as int),
        NumberView::U128(v) => Some(v as int),
        NumberView::I8(v) => Some(v as int),
        NumberView::I16(v) => Some(v as int),
        NumberView::I32(v) => Some(v as int),
        NumberView::I64(v) => Some(v as int),
        NumberView::I128(v) => Some(v as int),
        NumberView::F32(_) => None,
    }
}

pub fn is_digit_char(c: char) -> (b: bool)
    ensures
        b == is_digit(c),
{
    '0' <= c && c <= '9'
}

pub fn digit_of(c: char) -> (d: u8)
    ensures
        d == digit_value(c),
        d <= 9,
{
    if c == '1' {
        1
    } else if c == '2' {
        2
    } else if c == '3' {
        3
    } else if c == '4' {
        4
    } else if c == '5' {
        5
    } else if c == '6' {
        6
    } else if c == '7' {
        7
    } else if c == '8' {
        8
    } else if c == '9' {
        9
    } else {
        0
    }
}

pub fn char_of_digit(d: u8) -> (c: char)
    ensures
        c == digit_char(d as nat),
{
    if d == 1 {
        '1'
    } else if d == 2 {
        '2'
    } else if d == 3 {
        '3'
    } else if d == 4 {
        '4'
    } else if d == 5 {
        '5'
    } else if d == 6 {
        '6'
    } else if d == 7 {
        '7'
    } else if d == 8 {
        '8'
    } else if d == 9 {
        '9'
    } else {
        '0'
    }
}

pub fn to_lower(c: char) -> (l: char)
    ensures
        l == lower(c),
{
    if c == 'I' {
        'i'
    } else if c == 'N' {
        'n'
    } else if c == 'F' {
        'f'
    } else if c == 'T' {
        't'
    } else if c == 'Y' {
        'y'
    } else if c == 'A' {
        'a'
    } else if c == 'E' {
        'e'
    } else if c == 'R' {
        'r'
    } else if c == 'U' {
        'u'
    } else if c == 'L' {
        'l'
    } else if c == 'S' {
        's'
    } else {
        c
    }
}


/// The end of the run of digits that starts at `from`.
pub fn scan_digits(chars: &Vec<char>, from: usize) -> (end: usize)
    requires
        from <= chars.len(),
    ensures
        from <= end <= chars.len(),
        end == from + digit_run(chars@, from as int),
{
    let mut end: usize = from;
    while end < chars.len() && is_digit_char(chars[end])
        invariant
            from <= end <= chars.len(),
            digit_run(chars@, from as int) == (end - from) + digit_run(chars@, end as int),
        decreases chars.len() - end,
    {
        end += 1;
    }
    end
}

pub proof fn lemma_digit_run_all_digits(s: Seq<char>, i: int)
    requires
        0 <= i <= s.len(),
    ensures
        0 <= digit_run(s, i) <= s.len() - i,
        all_digits(s.subrange(i, i + digit_run(s, i))),
        i + digit_run(s, i) == s.len() <==> all_digits(s.skip(i)),
    decreases s.len() - i,
{
    if i < s.len() && is_digit(s[i]) {
        lemma_digit_run_all_digits(s, i + 1);
        let r = digit_run(s, i);
        assert forall|k: int| 0 <= k < r implies is_digit(#[trigger] s.subrange(i, i + r)[k]) by {
            if k > 0 {
                assert(s.subrange(i, i + r)[k] == s.subrange(i + 1, i + r)[k - 1]);
            }
        }
        if all_digits(s.skip(i)) {
            assert forall|k: int| 0 <= k < s.skip(i + 1).len() implies is_digit(
                #[trigger] s.skip(i + 1)[k],
            ) by {
                assert(s.skip(i + 1)[k] == s.skip(i)[k + 1]);
            }
        }
        if i + r == s.len() {
            assert forall|k: int| 0 <= k < s.skip(i).len() implies is_digit(
                #[trigger] s.skip(i)[k],
            ) by {
                if k > 0 {
                    assert(s.skip(i)[k] == s.skip(i + 1)[k - 1]);
                }
            }
        }
    } else {
        if i < s.len() {
            assert(s.skip(i)[0] == s[i]);
        }
    }
}

pub proof fn lemma_digits_value_prefix(s: Seq<char>, k: int)
    requires
        0 <= k <= s.len(),
    ensures
        digits_value(s.take(k)) <= digits_value(s),
    decreases s.len() - k,
{
    if k < s.len() {
        lemma_digits_value_prefix(s, k + 1);
        assert(s.take(k + 1).drop_last() == s.take(k));
        assert(digits_value(s.take(k)) * 10 >= digits_value(s.take(k))) by (nonlinear_arith);
    } else {
        assert(s.take(k) == s);
    }
}

/// The value of the digits `chars[from..to]`, if it fits 128 bits.
pub fn read_digits(chars: &Vec<char>, from: usize, to: usize) -> (r: Option<u128>)
    requires
        from <= to <= chars.len(),
        all_digits(chars@.subrange(from as int, to as int)),
    ensures
        match r {
            Some(v) => v == digits_value(chars@.subrange(from as int, to as int)),
            None => digits_value(chars@.subrange(from as int, to as int)) > u128::MAX,
        },
{
    let ghost whole = chars@.subrange(from as int, to as int);
    let mut acc: u128 = 0;
    let mut i: usize = from;
    while i < to
        invariant
            from <= i <= to <= chars.len(),
            whole == chars@.subrange(from as int, to as int),
            acc == digits_value(whole.take(i - from)),
        decreases to - i,
    {
        let d = digit_of(chars[i]) as u128;
        proof {
            assert(whole.take(i + 1 - from).drop_last() == whole.take(i - from));
            assert(whole.take(i + 1 - from).last() == chars@[i as int]);
            lemma_digits_value_prefix(whole, i + 1 - from);
        }
        if acc > (u128::MAX - d) / 10 {
            return None;
        }
        acc = acc * 10 + d;
        i += 1;
    }
    assert(whole.take(to - from) == whole);
    Some(acc)
}

/// Whether `chars[from..]` is `word`, letter case aside.
pub fn matches_word(chars: &Vec<char>, from: usize, word: &Vec<char>) -> (b: bool)
    requires
        from <= chars.len(),
    ensures
        b == same_word(chars@.skip(from as int), word@),
{
    if chars.len() - from != word.len() {
        return false;
    }
    let mut i: usize = 0;
    while i < word.len()
        invariant
            from <= chars.len(),
            chars.len() - from == word.len(),
            i <= word.len(),
            forall|k: int| 0 <= k < i ==> lower(#[trigger] chars@.skip(from as int)[k]) == word@[k],
        decreases word.len() - i,
    {
        if to_lower(chars[from + i]) != word[i] {
            assert(chars@.skip(from as int)[i as int] == chars@[from + i]);
            return false;
        }
        assert(chars@.skip(from as int)[i as int] == chars@[from + i]);
        i += 1;
    }
    true
}

pub fn is_sign_char(c: char) -> (b: bool)
    ensures
        b == is_sign(c),
{
    c == '+' || c == '-'
}

fn exponent_at(chars: &Vec<char>, i: usize) -> (b: bool)
    requires
        i <= chars.len(),
    ensures
        b == is_exponent(chars@, i as int),
{
    if i >= chars.len() || to_lower(chars[i]) != 'e' {
        return false;
    }
    let d = if i + 1 < chars.len() && is_sign_char(chars[i + 1]) {
        i + 2
    } else {
        i + 1
    };
    if d >= chars.len() {
        return false;
    }
    scan_digits(chars, d) == chars.len()
}

fn decimal_at(chars: &Vec<char>, i: usize) -> (b: bool)
    requires
        i <= chars.len(),
    ensures
        b == is_decimal(chars@, i as int),
{
    let whole_end = scan_digits(chars, i);
    let point = whole_end < chars.len() && chars[whole_end] == '.';
    let end = if point {
        scan_digits(chars, whole_end + 1)
    } else {
        whole_end
    };
    let digits = if point {
        (whole_end - i) + (end - (whole_end + 1))
    } else {
        whole_end - i
    };
    if digits < 1 {
        return false;
    }
    end == chars.len() || exponent_at(chars, end)
}

/// Whether the text is one that a floating-point type reads.
pub fn float_text(chars: &Vec<char>) -> (b: bool)
    ensures
        b == is_float_text(chars@),
{
    let i: usize = if chars.len() > 0 && is_sign_char(chars[0]) {
        1
    } else {
        0
    };
    let inf = vec!['i', 'n', 'f'];
    let infinity = vec!['i', 'n', 'f', 'i', 'n', 'i', 't', 'y'];
    let nan = vec!['n', 'a', 'n'];
    assert(inf@ =~= seq!['i', 'n', 'f']);
    assert(infinity@ =~= seq!['i', 'n', 'f', 'i', 'n', 'i', 't', 'y']);
    assert(nan@ =~= seq!['n', 'a', 'n']);
    matches_word(chars, i, &inf) || matches_word(chars, i, &infinity) || matches_word(
        chars,
        i,
        &nan,
    ) || decimal_at(chars, i)
}

/// The value of the digits `chars[from..]`, where they are digits: the
/// outer option tells whether they are, the inner one whether the value
/// fits 128 bits.
fn magnitude(chars: &Vec<char>, from: usize) -> (r: Option<Option<u128>>)
    requires
        from <= chars.len(),
    ensures
        match r {
            None => !(chars@.skip(from as int).len() > 0 && all_digits(chars@.skip(from as int))),
            Some(m) => {
                &&& chars@.skip(from as int).len() > 0
                &&& all_digits(chars@.skip(from as int))
                &&& match m {
                    Some(v) => v == digits_value(chars@.skip(from as int)),
                    None => digits_value(chars@.skip(from as int)) > u128::MAX,
                }
            },
        },
{
    proof {
        lemma_digit_run_all_digits(chars@, from as int);
        assert(chars@.skip(from as int) == chars@.subrange(from as int, chars.len() as int));
    }
    if from >= chars.len() || scan_digits(chars, from) != chars.len() {
        return None;
    }
    Some(read_digits(chars, from, chars.len()))
}

/// Reads unquoted text as a number: the first width that fits, or a type
/// error where the text is no number at all.
pub fn classify(text: &str) -> (r: Result<Number, JsonError>)
    ensures
        match r {
            Ok(n) => number_of_text(text@) == Some(n@),
            Err(e) => number_of_text(text@) is None && e == JsonError::TypeError(
                TypeFault::UnknownNumber,
            ),
        },
{
    let chars = chars_of(text);
    let negative = chars.len() > 0 && chars[0] == '-';
    let from: usize = if chars.len() > 0 && is_sign_char(chars[0]) {
        1
    } else {
        0
    };
    proof {
        assert(chars@.skip(0) == chars@);
    }
    match magnitude(&chars, from) {
        Some(Some(m)) => {
            if !negative {
                if m <= 0xff {
                    return Ok(Number::U8(m as u8));
                } else if m <= 0xffff {
                    return Ok(Number::U16(m as u16));
                } else if m <= 0xffff_ffff {
                    return Ok(Number::U32(m as u32));
                } else if m <= 0xffff_ffff_ffff_ffff {
                    return Ok(Number::U64(m as u64));
                } else {
                    return Ok(Number::U128(m));
                }
            } else if m <= 0x8000_0000_0000_0000_0000_0000_0000_0000 {
                if m <= 0x80 {
                    return Ok(Number::I8((0 - (m as i16)) as i8));
                } else if m <= 0x8000 {
                    return Ok(Number::I16((0 - (m as i32)) as i16));
                } else if m <= 0x8000_0000 {
                    return Ok(Number::I32((0 - (m as i64)) as i32));
                } else if m <= 0x8000_0000_0000_0000 {
                    return Ok(Number::I64((0 - (m as i128)) as i64));
                } else if m == 0x8000_0000_0000_0000_0000_0000_0000_0000 {
                    return Ok(Number::I128(i128::MIN));
                } else {
                    return Ok(Number::I128(0 - (m as i128)));
                }
            }
        },
        _ => {},
    }
    if float_text(&chars) {
        Ok(Number::F32(crate::text::string_of(&chars, 0, chars.len())))
    } else {
        Err(JsonError::TypeError(TypeFault::UnknownNumber))
    }
}

/// Reads text as an unsigned integer type does.
pub fn read_unsigned(text: &str) -> (r: Option<u128>)
    ensures
        r == (match unsigned_value(text@) {
            Some(n) if n <= u128::MAX => Some(n as u128),
            _ => None,
        }),
{
    let chars = chars_of(text);
    let from: usize = if chars.len() > 0 && chars[0] == '+' {
        1
    } else {
        0
    };
    proof {
        assert(chars@.skip(0) == chars@);
    }
    match magnitude(&chars, from) {
        Some(Some(m)) => Some(m),
        _ => None,
    }
}

/// Reads text as a signed integer type does.
pub fn read_signed(text: &str) -> (r: Option<i128>)
    ensures
        r == (match signed_value(text@) {
            Some(v) if i128::MIN <= v <= i128::MAX => Some(v as i128),
            _ => None,
        }),
{
    let chars = chars_of(text);
    let negative = chars.len() > 0 && chars[0] == '-';
    let from: usize = if chars.len() > 0 && is_sign_char(chars[0]) {
        1
    } else {
        0
    };
    proof {
        assert(chars@.skip(0) == chars@);
    }
    match magnitude(&chars, from) {
        Some(Some(m)) => {
            if !negative {
                if m <= 0x7fff_ffff_ffff_ffff_ffff_ffff_ffff_ffff {
                    Some(m as i128)
                } else {
                    None
                }
            } else if m == 0x8000_0000_0000_0000_0000_0000_0000_0000 {
                Some(i128::MIN)
            } else if m < 0x8000_0000_0000_0000_0000_0000_0000_0000 {
                Some(0 - (m as i128))
            } else {
                None
            }
        },
        _ => None,
    }
}

/// Appends the decimal digits of `n` to `s`.
pub fn push_decimal(s: &mut String, n: u128)
    ensures
        final(s)@ == old(s)@ + decimal(n as nat),
    decreases n,
{
    if n >= 10 {
        push_decimal(s, n / 10);
    }
    s.push(char_of_digit((n % 10) as u8));
    proof {
        if n >= 10 {
            assert(old(s)@ + decimal(n as nat) =~= (old(s)@ + decimal((n / 10) as nat)).push(
                digit_char((n % 10) as nat),
            ));
        } else {
            assert(old(s)@ + decimal(n as nat) =~= old(s)@.push(digit_char(n as nat)));
        }
    }
}

/// The decimal text of an unsigned integer.
pub fn render_unsigned(n: u128) -> (s: String)
    ensures
        s@ == int_decimal(n as int),
{
    let mut s = String::new();
    push_decimal(&mut s, n);
    assert(Seq::<char>::empty() + decimal(n as nat) =~= decimal(n as nat));
    s
}

/// The decimal text of a signed integer.
pub fn render_signed(v: i128) -> (s: String)
    ensures
        s@ == int_decimal(v as int),
{
    let mut s = String::new();
    if v < 0 {
        s.push('-');
        let m: u128 = ((-(v + 1)) as u128) + 1;
        push_decimal(&mut s, m);
        assert(s@ =~= seq!['-'] + decimal((-v) as nat));
    } else {
        push_decimal(&mut s, v as u128);
        assert(s@ =~= decimal(v as nat));
    }
    s
}

impl Number {
    /// The integer that the number holds, where it is not negative.
    pub fn as_unsigned(&self) -> (r: Option<u128>)
        ensures
            r == (match number_int(self@) {
                Some(v) if v >= 0 => Some(v as u128),
                _ => None,
            }),
    {
        match self {
            Number::U8(v) => Some(*v as u128),
            Number::U16(v) => Some(*v as u128),
            Number::U32(v) => Some(*v as u128),
            Number::U64(v) => Some(*v as u128),
            Number::U128(v) => Some(*v),
            Number::I8(v) => if *v >= 0 {
                Some(*v as u128)
            } else {
                None
            },
            Number::I16(v) => if *v >= 0 {
                Some(*v as u128)
            } else {
                None
            },
            Number::I32(v) => if *v >= 0 {
                Some(*v as u128)
            } else {
                None
            },
            Number::I64(v) => if *v >= 0 {
                Some(*v as u128)
            } else {
                None
            },
            Number::I128(v) => if *v >= 0 {
                Some(*v as u128)
            } else {
                None
            },
            Number::F32(_) => None,
        }
    }

    /// The integer that the number holds, where it fits 128 bits with a
    /// sign.
    pub fn as_signed(&self) -> (r: Option<i128>)
        ensures
            r == (match number_int(self@) {
                Some(v) if v <= i128::MAX => Some(v as i128),
                _ => None,
            }),
    {
        match self {
            Number::U8(v) => Some(*v as i128),
            Number::U16(v) => Some(*v as i128),
            Number::U32(v) => Some(*v as i128),
            Number::U64(v) => Some(*v as i128),
            Number::U128(v) => if *v <= 0x7fff_ffff_ffff_ffff_ffff_ffff_ffff_ffff {
                Some(*v as i128)
            } else {
                None
            },
            Number::I8(v) => Some(*v as i128),
            Number::I16(v) => Some(*v as i128),
            Number::I32(v) => Some(*v as i128),
            Number::I64(v) => Some(*v as i128),
            Number::I128(v) => Some(*v),
            Number::F32(_) => None,
        }
    }

    /// A copy of the number.
    pub fn copy(&self) -> (r: Number)
        ensures
            r@ == self@,
    {
        match self {
            Number::U8(v) => Number::U8(*v),
            Number::U16(v) => Number::U16(*v),
            Number::U32(v) => Number::U32(*v),
            Number::U64(v) => Number::U64(*v),
            Number::U128(v) => Number::U128(*v),
            Number::I8(v) => Number::I8(*v),
            Number::I16(v) => Number::I16(*v),
            Number::I32(v) => Number::I32(*v),
            Number::I64(v) => Number::I64(*v),
            Number::I128(v) => Number::I128(*v),
            Number::F32(s) => Number::F32(s.clone()),
        }
    }

    /// The text of the number: decimal digits for an integer, the literal
    /// text for the floating form.
    pub fn render(&self) -> (s: String)
        ensures
            s@ == number_text(self@),
    {
        match self {
            Number::U8(v) => render_unsigned(*v as u128),
            Number::U16(v) => render_unsigned(*v as u128),
            Number::U32(v) => render_unsigned(*v as u128),
            Number::U64(v) => render_unsigned(*v as u128),
            Number::U128(v) => render_unsigned(*v),
            Number::I8(v) => render_signed(*v as i128),
            Number::I16(v) => render_signed(*v as i128),
            Number::I32(v) => render_signed(*v as i128),
            Number::I64(v) => render_signed(*v as i128),
            Number::I128(v) => render_signed(*v),
            Number::F32(s) => s.clone(),
        }
    }
}


/// The decimal digits of a number are digits, and denote the number.
pub proof fn lemma_decimal(n: nat)
    ensures
        decimal(n).len() >= 1,
        all_digits(decimal(n)),
        digits_value(decimal(n)) == n,
    decreases n,
{
    if n < 10 {
        assert(decimal(n).drop_last() =~= Seq::<char>::empty());
        assert(digits_value(decimal(n).drop_last()) == 0);
    } else {
        lemma_decimal(n / 10);
        assert(decimal(n).drop_last() =~= decimal(n / 10));
        assert(is_digit(digit_char(n % 10)));
    }
}

/// The decimal text of an integer that fits 128 bits is read as that
/// integer, at the narrowest width that holds it, unsigned if it is not
/// negative; and rendering what was read gives the text again.
pub proof fn lemma_int_decimal_read(v: int)
    requires
        i128::MIN <= v <= u128::MAX,
    ensures
        number_of_text(int_decimal(v)) matches Some(n) && number_int(n) == Some(v) && number_text(
            n,
        ) == int_decimal(v),
        int_decimal(v).len() >= 1,
        forall|i: int|
            0 <= i < int_decimal(v).len() ==> is_digit(#[trigger] int_decimal(v)[i]) || int_decimal(
                v,
            )[i] == '-',
{
    let s = int_decimal(v);
    if v >= 0 {
        lemma_decimal(v as nat);
        assert(is_digit(s[0]));
    } else {
        let m = (-v) as nat;
        lemma_decimal(m);
        assert(s[0] == '-');
        assert(!is_digit(s[0]));
        assert(s.skip(1) =~= decimal(m));
        assert(unsigned_value(s) is None);
        assert(signed_value(s) == Some(v));
        assert forall|i: int| 0 <= i < s.len() implies is_digit(#[trigger] s[i]) || s[i]
            == '-' by {
            if i > 0 {
                assert(s[i] == decimal(m)[i - 1]);
            }
        }
    }
}


/// A character that stands in the text of some number.
pub open spec fn number_char(c: char) -> bool {
    ||| is_digit(c)
    ||| is_sign(c)
    ||| c == '.'
    ||| lower(c) == 'i'
    ||| lower(c) == 'n'
    ||| lower(c) == 'f'
    ||| lower(c) == 't'
    ||| lower(c) == 'y'
    ||| lower(c) == 'a'
    ||| lower(c) == 'e'
}

/// A character that may begin the text of a number.
pub open spec fn number_start(c: char) -> bool {
    is_digit(c) || is_sign(c) || c == '.' || lower(c) == 'i' || lower(c) == 'n'
}

proof fn lemma_word_chars(s: Seq<char>, i: int, word: Seq<char>)
    requires
        0 <= i <= s.len(),
        same_word(s.skip(i), word),
        word == seq!['i', 'n', 'f'] || word == seq!['i', 'n', 'f', 'i', 'n', 'i', 't', 'y'] || word
            == seq!['n', 'a', 'n'],
    ensures
        s.len() == i + word.len(),
        forall|k: int| i <= k < s.len() ==> number_char(#[trigger] s[k]),
        lower(s[i]) == word[0],
{
    let body = s.skip(i);
    assert forall|k: int| i <= k < s.len() implies number_char(#[trigger] s[k]) by {
        assert(body[k - i] == s[k]);
        assert(lower(body[k - i]) == word[k - i]);
    }
    assert(body[0] == s[i]);
}

proof fn lemma_run_chars(s: Seq<char>, i: int)
    requires
        0 <= i <= s.len(),
    ensures
        forall|k: int| i <= k < i + digit_run(s, i) ==> is_digit(#[trigger] s[k]),
        i + digit_run(s, i) <= s.len(),
{
    lemma_digit_run_all_digits(s, i);
    let r = digit_run(s, i);
    assert forall|k: int| i <= k < i + r implies is_digit(#[trigger] s[k]) by {
        assert(s.subrange(i, i + r)[k - i] == s[k]);
    }
}

/// The text of a number in floating form is not empty and holds only
/// characters of numbers; it begins as a number does; and if it begins
/// with the letter `n` it has three characters.
pub proof fn lemma_float_chars(s: Seq<char>)
    requires
        is_float_text(s),
    ensures
        s.len() > 0,
        forall|k: int| 0 <= k < s.len() ==> number_char(#[trigger] s[k]),
        number_start(s[0]),
        lower(s[0]) == 'n' ==> s.len() == 3,
{
    let i: int = if s.len() > 0 && is_sign(s[0]) {
        1
    } else {
        0
    };
    let body = s.skip(i);
    if same_word(body, seq!['i', 'n', 'f']) {
        lemma_word_chars(s, i, seq!['i', 'n', 'f']);
    } else if same_word(body, seq!['i', 'n', 'f', 'i', 'n', 'i', 't', 'y']) {
        lemma_word_chars(s, i, seq!['i', 'n', 'f', 'i', 'n', 'i', 't', 'y']);
    } else if same_word(body, seq!['n', 'a', 'n']) {
        lemma_word_chars(s, i, seq!['n', 'a', 'n']);
    } else {
        let whole = digit_run(s, i);
        lemma_run_chars(s, i);
        let point = i + whole < s.len() && s[i + whole] == '.';
        let fraction = if point {
            digit_run(s, i + whole + 1)
        } else {
            0
        };
        if point {
            lemma_run_chars(s, i + whole + 1);
        }
        let end = if point {
            i + whole + 1 + fraction
        } else {
            i + whole
        };
        if end != s.len() {
            let d = if end + 1 < s.len() && is_sign(s[end + 1]) {
                end + 2
            } else {
                end + 1
            };
            lemma_run_chars(s, d);
        }
        assert forall|k: int| 0 <= k < s.len() implies number_char(#[trigger] s[k]) by {
            if k < i {
            } else if k < i + whole {
            } else if point && k == i + whole {
            } else if k < end {
            } else if k == end {
            } else {
            }
        }
    }
}

/// The text of an integer holds only characters of numbers and begins as
/// a number does, with no letter.
pub proof fn lemma_integer_chars(s: Seq<char>)
    requires
        signed_value(s) is Some,
    ensures
        s.len() > 0,
        forall|k: int| 0 <= k < s.len() ==> number_char(#[trigger] s[k]),
        is_digit(s[0]) || is_sign(s[0]),
{
    let signed = s.len() > 0 && is_sign(s[0]);
    let body = if signed {
        s.skip(1)
    } else {
        s
    };
    assert(body.len() > 0 && all_digits(body));
    assert forall|k: int| 0 <= k < s.len() implies number_char(#[trigger] s[k]) by {
        if signed {
            if k > 0 {
                assert(body[k - 1] == s[k]);
            }
        } else {
            assert(body[k] == s[k]);
        }
    }
    if !signed {
        assert(body[0] == s[0]);
    }
}

/// Whatever reads as a number holds only characters of numbers, begins as
/// a number does, and has three characters if it begins with the letter
/// `n`.
pub proof fn lemma_number_chars(s: Seq<char>)
    requires
        number_of_text(s) is Some,
    ensures
        s.len() > 0,
        forall|k: int| 0 <= k < s.len() ==> number_char(#[trigger] s[k]),
        number_start(s[0]),
        lower(s[0]) == 'n' ==> s.len() == 3,
{
    if signed_value(s) is Some {
        lemma_integer_chars(s);
    } else {
        lemma_float_chars(s);
    }
}

} // verus!
