//! Reading numbers out of plain text: trimming, splitting a line into
//! fields, and decimal numerals. All of it works on bytes.

use vstd::prelude::*;
use vstd::slice::slice_subrange;
use vstd::string::StringExecFns;

verus! {

/// The blank.
pub const BLANK: u8 = 0x20;

/// The horizontal tab, the first of the control characters that count as
/// spaces.
pub const TAB: u8 = 0x09;

/// The line feed, which ends a line.
pub const LINE_FEED: u8 = 0x0a;

/// The carriage return, the last of the control characters that count as
/// spaces.
pub const CARRIAGE_RETURN: u8 = 0x0d;

/// The comma.
pub const COMMA: u8 = 0x2c;

/// The plus sign.
pub const PLUS: u8 = 0x2b;

/// The minus sign.
pub const MINUS: u8 = 0x2d;

/// The digit zero.
pub const DIGIT_ZERO: u8 = 0x30;

/// The digit nine.
pub const DIGIT_NINE: u8 = 0x39;

/// A byte that trimming removes: a blank, or one of the control characters
/// from horizontal tab to carriage return.
pub open spec fn is_space(b: u8) -> bool {
    b == BLANK || (TAB <= b && b <= CARRIAGE_RETURN)
}

/// One of the ten decimal digits.
pub open spec fn is_digit(b: u8) -> bool {
    DIGIT_ZERO <= b && b <= DIGIT_NINE
}

/// The first position at or after `from` that holds no space, or the length
/// of `s` where only spaces follow.
pub open spec fn skip_spaces(s: Seq<u8>, from: int) -> int
    decreases s.len() - from,
{
    if 0 <= from < s.len() && is_space(s[from]) {
        skip_spaces(s, from + 1)
    } else {
        from
    }
}

/// The end of `s` without its trailing spaces, looking no further back
/// than `from`.
pub open spec fn drop_spaces(s: Seq<u8>, from: int, to: int) -> int
    decreases to - from,
{
    if 0 <= from < to <= s.len() && is_space(s[to - 1]) {
        drop_spaces(s, from, to - 1)
    } else {
        to
    }
}

/// `s` without the spaces at its start and at its end.
pub open spec fn trimmed(s: Seq<u8>) -> Seq<u8> {
    let start = skip_spaces(s, 0);
    s.subrange(start, drop_spaces(s, start, s.len() as int))
}

/// The fields of `s` from position `pos` on, where the field being read
/// began at `start`.
pub open spec fn fields_from(s: Seq<u8>, start: int, pos: int, sep: u8) -> Seq<Seq<u8>>
    decreases s.len() - pos,
{
    if pos < 0 || pos >= s.len() {
        seq![s.subrange(start, s.len() as int)]
    } else if s[pos] == sep {
        seq![s.subrange(start, pos)] + fields_from(s, pos + 1, pos + 1, sep)
    } else {
        fields_from(s, start, pos + 1, sep)
    }
}

/// The fields that the separator `sep` divides `s` into. There is always
/// at least one; text without a separator, empty text too, is one field.
pub open spec fn split_on(s: Seq<u8>, sep: u8) -> Seq<Seq<u8>> {
    fields_from(s, 0, 0, sep)
}

/// The contents of each slice of `fields`.
pub open spec fn contents(fields: Seq<&[u8]>) -> Seq<Seq<u8>> {
    Seq::new(fields.len(), |i: int| fields[i]@)
}

/// The number that the digits of `s` spell, most significant first.
pub open spec fn decimal(s: Seq<u8>) -> nat
    decreases s.len(),
{
    if s.len() == 0 {
        0
    } else {
        10 * decimal(s.drop_last()) + (s.last() - DIGIT_ZERO) as nat
    }
}

/// `s` is a numeral: one digit or more, and nothing else.
pub open spec fn is_numeral(s: Seq<u8>) -> bool {
    s.len() > 0 && forall|i: int| 0 <= i < s.len() ==> is_digit(#[trigger] s[i])
}

/// What `s` means as an unsigned number no greater than `limit`: a
/// numeral, which a plus sign may precede.
pub open spec fn unsigned_value(s: Seq<u8>, limit: u64) -> Option<u64> {
    let digits = if s.len() > 0 && s[0] == PLUS {
        s.skip(1)
    } else {
        s
    };
    if is_numeral(digits) && decimal(digits) <= limit {
        Some(decimal(digits) as u64)
    } else {
        None
    }
}

/// What `s` means as a signed 32-bit number: a numeral, which a plus or a
/// minus sign may precede.
pub open spec fn signed_value(s: Seq<u8>) -> Option<i32> {
    if s.len() > 0 && s[0] == MINUS {
        if is_numeral(s.skip(1)) && decimal(s.skip(1)) <= 0x8000_0000 {
            Some((-decimal(s.skip(1))) as i32)
        } else {
            None
        }
    } else {
        match unsigned_value(s, 0x7fff_ffff) {
            Some(value) => Some(value as i32),
            None => None,
        }
    }
}

/// The decimal digits of `n`, most significant first.
pub open spec fn digits_of(n: nat) -> Seq<u32>
    decreases n,
{
    if n < 10 {
        seq![n as u32]
    } else {
        digits_of(n / 10).push((n % 10) as u32)
    }
}

/// The character that shows the digit `d`.
pub open spec fn digit_char(d: u32) -> char {
    if d == 0 {
        '0'
    } else if d == 1 {
        '1'
    } else if d == 2 {
        '2'
    } else if d == 3 {
        '3'
    } else if d == 4 {
        '4'
    } else if d == 5 {
        '5'
    } else if d == 6 {
        '6'
    } else if d == 7 {
        '7'
    } else if d == 8 {
        '8'
    } else {
        '9'
    }
}

/// `n` written in decimal, with a minus sign where it is negative.
pub open spec fn numeral_of(n: int) -> Seq<char> {
    if n < 0 {
        seq!['-'] + digits_of((-n) as nat).map_values(|d: u32| digit_char(d))
    } else {
        digits_of(n as nat).map_values(|d: u32| digit_char(d))
    }
}

/// The fields `fields` put together again, with `sep` between each two.
pub open spec fn joined(fields: Seq<Seq<u8>>, sep: u8) -> Seq<u8>
    decreases fields.len(),
{
    if fields.len() == 0 {
        Seq::empty()
    } else if fields.len() == 1 {
        fields[0]
    } else {
        fields[0] + seq![sep] + joined(fields.skip(1), sep)
    }
}

/// Where skipping spaces stops: everything passed over is a space, and
/// what it stops at is none.
proof fn lemma_skip_spaces(s: Seq<u8>, from: int)
    requires
        0 <= from <= s.len(),
    ensures
        from <= skip_spaces(s, from) <= s.len(),
        forall|i: int| from <= i < skip_spaces(s, from) ==> is_space(#[trigger] s[i]),
        skip_spaces(s, from) < s.len() ==> !is_space(s[skip_spaces(s, from)]),
    decreases s.len() - from,
{
    if from < s.len() && is_space(s[from]) {
        lemma_skip_spaces(s, from + 1);
    }
}

/// Where dropping spaces stops: everything dropped is a space, and what
/// remains does not end in one.
proof fn lemma_drop_spaces(s: Seq<u8>, from: int, to: int)
    requires
        0 <= from <= to <= s.len(),
    ensures
        from <= drop_spaces(s, from, to) <= to,
        forall|i: int| drop_spaces(s, from, to) <= i < to ==> is_space(#[trigger] s[i]),
        from < drop_spaces(s, from, to) ==> !is_space(s[drop_spaces(s, from, to) - 1]),
    decreases to - from,
{
    if from < to && is_space(s[to - 1]) {
        lemma_drop_spaces(s, from, to - 1);
    }
}

/// Trimming takes a piece out of the text and leaves only spaces on both
/// sides of it; the piece itself neither begins nor ends with a space.
pub proof fn lemma_trimmed_is_the_core(s: Seq<u8>) -> (ends: (int, int))
    ensures
        0 <= ends.0 <= ends.1 <= s.len(),
        trimmed(s) == s.subrange(ends.0, ends.1),
        forall|i: int| 0 <= i < ends.0 ==> is_space(#[trigger] s[i]),
        forall|i: int| ends.1 <= i < s.len() ==> is_space(#[trigger] s[i]),
        trimmed(s).len() > 0 ==> !is_space(trimmed(s).first()) && !is_space(trimmed(s).last()),
{
    let start = skip_spaces(s, 0);
    lemma_skip_spaces(s, 0);
    let end = drop_spaces(s, start, s.len() as int);
    lemma_drop_spaces(s, start, s.len() as int);
    (start, end)
}

/// The fields from a position on hold no separator and, joined, give the
/// text back from where the field being read began.
proof fn lemma_fields_from(s: Seq<u8>, start: int, pos: int, sep: u8)
    requires
        0 <= start <= pos <= s.len(),
        forall|i: int| start <= i < pos ==> #[trigger] s[i] != sep,
    ensures
        fields_from(s, start, pos, sep).len() >= 1,
        joined(fields_from(s, start, pos, sep), sep) == s.subrange(start, s.len() as int),
        forall|k: int, j: int|
            0 <= k < fields_from(s, start, pos, sep).len() && 0 <= j < fields_from(
                s,
                start,
                pos,
                sep,
            )[k].len() ==> (#[trigger] fields_from(s, start, pos, sep)[k][j]) != sep,
    decreases s.len() - pos,
{
    let fields = fields_from(s, start, pos, sep);
    if pos >= s.len() {
        assert(joined(fields, sep) == s.subrange(start, s.len() as int));
    } else if s[pos] == sep {
        let rest = fields_from(s, pos + 1, pos + 1, sep);
        lemma_fields_from(s, pos + 1, pos + 1, sep);
        assert(fields.skip(1) =~= rest);
        assert(fields[0] == s.subrange(start, pos));
        assert(s.subrange(start, pos) + seq![sep] + s.subrange(pos + 1, s.len() as int)
            =~= s.subrange(start, s.len() as int));
        assert forall|k: int, j: int|
            0 <= k < fields.len() && 0 <= j < fields[k].len() implies (#[trigger] fields[k][j])
            != sep by {
            if k > 0 {
                assert(fields[k] == rest[k - 1]);
            }
        }
    } else {
        lemma_fields_from(s, start, pos + 1, sep);
    }
}

/// Splitting gives at least one field, no field holds the separator, and
/// the fields joined by the separator are the text that was split.
pub proof fn lemma_split_then_join(s: Seq<u8>, sep: u8)
    ensures
        split_on(s, sep).len() >= 1,
        joined(split_on(s, sep), sep) == s,
        forall|k: int, j: int|
            0 <= k < split_on(s, sep).len() && 0 <= j < split_on(s, sep)[k].len() ==> (
            #[trigger] split_on(s, sep)[k][j]) != sep,
{
    lemma_fields_from(s, 0, 0, sep);
    assert(s.subrange(0, s.len() as int) =~= s);
}

/// A longer run of digits spells no smaller a number.
proof fn lemma_decimal_grows(s: Seq<u8>, n: int)
    requires
        0 <= n <= s.len(),
        forall|i: int| 0 <= i < s.len() ==> is_digit(#[trigger] s[i]),
    ensures
        decimal(s.take(n)) <= decimal(s),
    decreases s.len() - n,
{
    if n < s.len() {
        assert(s.take(n + 1).drop_last() =~= s.take(n));
        lemma_decimal_grows(s, n + 1);
    } else {
        assert(s.take(n) =~= s);
    }
}

/// Tells whether `b` is a space.
pub fn is_space_byte(b: u8) -> (yes: bool)
    ensures
        yes == is_space(b),
{
    b == BLANK || (TAB <= b && b <= CARRIAGE_RETURN)
}

/// The part of `bytes` between its leading and its trailing spaces.
pub fn trim(bytes: &[u8]) -> (out: &[u8])
    ensures
        out@ == trimmed(bytes@),
{
    let mut start: usize = 0;
    while start < bytes.len() && is_space_byte(bytes[start])
        invariant
            start <= bytes.len(),
            skip_spaces(bytes@, start as int) == skip_spaces(bytes@, 0),
        decreases bytes.len() - start,
    {
        start = start + 1;
    }
    let mut end: usize = bytes.len();
    while end > start && is_space_byte(bytes[end - 1])
        invariant
            start <= end <= bytes.len(),
            drop_spaces(bytes@, start as int, end as int) == drop_spaces(
                bytes@,
                start as int,
                bytes@.len() as int,
            ),
        decreases end - start,
    {
        end = end - 1;
    }
    slice_subrange(bytes, start, end)
}

/// The fields that `sep` divides `bytes` into, in order.
pub fn split<'a>(bytes: &'a [u8], sep: u8) -> (fields: Vec<&'a [u8]>)
    ensures
        contents(fields@) == split_on(bytes@, sep),
{
    let mut fields: Vec<&'a [u8]> = Vec::new();
    let mut start: usize = 0;
    let mut pos: usize = 0;
    while pos < bytes.len()
        invariant
            start <= pos <= bytes.len(),
            split_on(bytes@, sep) == contents(fields@) + fields_from(
                bytes@,
                start as int,
                pos as int,
                sep,
            ),
        decreases bytes.len() - pos,
    {
        if bytes[pos] == sep {
            let ghost before = contents(fields@);
            fields.push(slice_subrange(bytes, start, pos));
            assert(contents(fields@) =~= before + seq![bytes@.subrange(start as int, pos as int)]);
            start = pos + 1;
        }
        pos = pos + 1;
    }
    let ghost before = contents(fields@);
    fields.push(slice_subrange(bytes, start, bytes.len()));
    assert(contents(fields@) =~= before + seq![
        bytes@.subrange(start as int, bytes@.len() as int),
    ]);
    fields
}

/// Reads `bytes` as a numeral no greater than `limit`.
pub fn parse_numeral(bytes: &[u8], limit: u64) -> (value: Option<u64>)
    ensures
        value == if is_numeral(bytes@) && decimal(bytes@) <= limit {
            Some(decimal(bytes@) as u64)
        } else {
            None
        },
{
    if bytes.len() == 0 {
        return None;
    }
    let mut total: u64 = 0;
    let mut pos: usize = 0;
    while pos < bytes.len()
        invariant
            pos <= bytes.len(),
            forall|i: int| 0 <= i < pos ==> is_digit(#[trigger] bytes@[i]),
            total == decimal(bytes@.take(pos as int)),
            total <= limit,
        decreases bytes.len() - pos,
    {
        let b = bytes[pos];
        if b < DIGIT_ZERO || b > DIGIT_NINE {
            return None;
        }
        let digit: u64 = (b - DIGIT_ZERO) as u64;
        assert(bytes@.take(pos + 1).drop_last() =~= bytes@.take(pos as int));
        if digit > limit || total > (limit - digit) / 10 {
            proof {
                if is_numeral(bytes@) {
                    lemma_decimal_grows(bytes@, pos + 1);
                }
            }
            return None;
        }
        total = 10 * total + digit;
        pos = pos + 1;
    }
    assert(bytes@.take(pos as int) =~= bytes@);
    Some(total)
}

/// Reads `bytes` as an unsigned number no greater than `limit`.
pub fn parse_unsigned(bytes: &[u8], limit: u64) -> (value: Option<u64>)
    ensures
        value == unsigned_value(bytes@, limit),
{
    if bytes.len() > 0 && bytes[0] == PLUS {
        let digits = slice_subrange(bytes, 1, bytes.len());
        assert(digits@ =~= bytes@.skip(1));
        parse_numeral(digits, limit)
    } else {
        parse_numeral(bytes, limit)
    }
}

/// Reads `bytes` as a signed 32-bit number.
pub fn parse_signed(bytes: &[u8]) -> (value: Option<i32>)
    ensures
        value == signed_value(bytes@),
{
    if bytes.len() > 0 && bytes[0] == MINUS {
        let digits = slice_subrange(bytes, 1, bytes.len());
        assert(digits@ =~= bytes@.skip(1));
        match parse_numeral(digits, 0x8000_0000) {
            Some(size) => {
                let wide: i64 = -(size as i64);
                Some(wide as i32)
            },
            None => None,
        }
    } else {
        match parse_unsigned(bytes, 0x7fff_ffff) {
            Some(value) => Some(value as i32),
            None => None,
        }
    }
}

/// The decimal digits of `n`, most significant first.
pub fn digits(n: u32) -> (out: Vec<u32>)
    ensures
        out@ == digits_of(n as nat),
{
    let mut low: Vec<u32> = Vec::new();
    low.push(n % 10);
    let mut rest: u32 = n / 10;
    assert(low@ =~= seq![(n % 10) as u32]);
    while rest > 0
        invariant
            low.len() > 0,
            digits_of(n as nat) == (if rest > 0 {
                digits_of(rest as nat)
            } else {
                Seq::<u32>::empty()
            }) + Seq::new(low@.len(), |i: int| low@[low@.len() - 1 - i]),
        decreases rest,
    {
        let ghost before = low@;
        low.push(rest % 10);
        let ghost head = if rest / 10 > 0 {
            digits_of((rest / 10) as nat)
        } else {
            Seq::<u32>::empty()
        };
        assert(digits_of(rest as nat) + Seq::new(
            before.len(),
            |i: int| before[before.len() - 1 - i],
        ) =~= head + Seq::new(low@.len(), |i: int| low@[low@.len() - 1 - i]));
        rest = rest / 10;
    }
    let mut out: Vec<u32> = Vec::new();
    let mut left: usize = low.len();
    while left > 0
        invariant
            left <= low.len(),
            out@.len() == low.len() - left,
            forall|i: int| 0 <= i < out@.len() ==> out@[i] == low@[low@.len() - 1 - i],
        decreases left,
    {
        left = left - 1;
        out.push(low[left]);
    }
    assert(out@ =~= Seq::new(low@.len(), |i: int| low@[low@.len() - 1 - i]));
    out
}

/// The text that shows the digit `d`.
fn digit_text(d: u32) -> (text: &'static str)
    ensures
        text@ == seq![digit_char(d)],
{
    proof {
        reveal_strlit("0");
        reveal_strlit("1");
        reveal_strlit("2");
        reveal_strlit("3");
        reveal_strlit("4");
        reveal_strlit("5");
        reveal_strlit("6");
        reveal_strlit("7");
        reveal_strlit("8");
        reveal_strlit("9");
    }
    let text = if d == 0 {
        "0"
    } else if d == 1 {
        "1"
    } else if d == 2 {
        "2"
    } else if d == 3 {
        "3"
    } else if d == 4 {
        "4"
    } else if d == 5 {
        "5"
    } else if d == 6 {
        "6"
    } else if d == 7 {
        "7"
    } else if d == 8 {
        "8"
    } else {
        "9"
    };
    assert(text@ =~= seq![digit_char(d)]);
    text
}

/// Appends `n`, written in decimal, to `text`.
pub fn write_number(text: &mut String, n: i32)
    ensures
        final(text)@ == old(text)@ + numeral_of(n as int),
{
    let size: u32 = if n < 0 {
        proof {
            reveal_strlit("-");
        }
        text.append("-");
        (-(n as i64)) as u32
    } else {
        n as u32
    };
    let ghost sign = text@;
    assert(sign =~= old(text)@ + if n < 0 {
        seq!['-']
    } else {
        Seq::<char>::empty()
    });
    let figures = digits(size);
    let mut index: usize = 0;
    while index < figures.len()
        invariant
            index <= figures.len(),
            text@ == sign + figures@.take(index as int).map_values(|d: u32| digit_char(d)),
        decreases figures.len() - index,
    {
        let ghost before = text@;
        text.append(digit_text(figures[index]));
        assert(figures@.take(index + 1).map_values(|d: u32| digit_char(d)) =~= figures@.take(
            index as int,
        ).map_values(|d: u32| digit_char(d)) + seq![digit_char(figures@[index as int])]);
        assert(text@ =~= sign + figures@.take(index + 1).map_values(|d: u32| digit_char(d)));
        index = index + 1;
    }
    assert(figures@.take(index as int) =~= figures@);
    assert(text@ =~= old(text)@ + numeral_of(n as int));
}

} // verus!
