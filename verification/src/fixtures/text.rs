//! The line-oriented text an annotation is written in: lines, the fields a line
//! splits into, and the numbers a field spells.
//!
//! Everything works on the UTF-8 bytes of the text. Fields are separated by
//! white space as Unicode counts it, whatever its width in bytes; the numbers
//! are ASCII digits.

use vstd::prelude::*;

verus! {

/// The line feed that ends a line.
pub const NEWLINE: u8 = 10;
/// The byte that starts a comment.
pub const HASH: u8 = 35;
/// The byte that separates whole seconds from their fraction.
pub const DOT: u8 = 46;
/// The sign a MIDI note number or a timestamp may carry.
pub const PLUS: u8 = 43;
/// The sign of a negative exponent.
pub const MINUS: u8 = 45;
/// The byte `e`, which opens an exponent.
pub const LOWER_E: u8 = 101;
/// The byte `E`, which opens an exponent too.
pub const UPPER_E: u8 = 69;
/// The byte `0`.
pub const ZERO_DIGIT: u8 = 48;
/// The byte `9`.
pub const NINE_DIGIT: u8 = 57;
/// The byte `5`, the digit a tie is rounded at.
pub const FIVE_DIGIT: u8 = 53;
/// Fraction digits a timestamp resolves, down to the nanosecond.
pub const FRACTION_DIGITS: usize = 9;

/// Whether `byte` is white space by itself: a space, a tab, or one of the
/// line and page breaks.
pub open spec fn is_space(byte: u8) -> bool {
    byte == 32 || (9 <= byte && byte <= 13)
}

/// How many bytes the white space character starting at `at` of `line` takes,
/// or 0 where none starts there. Beyond ASCII, Unicode counts the next line
/// and no-break spaces (two bytes each), and the Ogham space mark, the spaces
/// of the general punctuation block, the line and paragraph separators and the
/// ideographic space (three bytes each).
pub open spec fn space_width(line: Seq<u8>, at: int) -> int {
    if !(0 <= at < line.len()) {
        0
    } else if is_space(line[at]) {
        1
    } else if line[at] == 0xC2 && at + 1 < line.len() && (line[at + 1] == 0x85 || line[at + 1]
        == 0xA0) {
        2
    } else if at + 2 < line.len() && (
    (line[at] == 0xE1 && line[at + 1] == 0x9A && line[at + 2] == 0x80) || (line[at] == 0xE2
        && line[at + 1] == 0x80 && ((0x80 <= line[at + 2] && line[at + 2] <= 0x8A) || line[at
        + 2] == 0xA8 || line[at + 2] == 0xA9 || line[at + 2] == 0xAF)) || (line[at] == 0xE2
        && line[at + 1] == 0x81 && line[at + 2] == 0x9F) || (line[at] == 0xE3 && line[at + 1]
        == 0x80 && line[at + 2] == 0x80)) {
        3
    } else {
        0
    }
}

/// Whether `byte` is an ASCII digit.
pub open spec fn is_digit(byte: u8) -> bool {
    ZERO_DIGIT <= byte && byte <= NINE_DIGIT
}

/// Whether every byte of `field` is a digit.
pub open spec fn all_digits(field: Seq<u8>) -> bool {
    forall|index: int| 0 <= index < field.len() ==> is_digit(#[trigger] field[index])
}

/// The number a run of digits spells, most significant first.
pub open spec fn digits_value(digits: Seq<u8>) -> int
    decreases digits.len(),
{
    if digits.len() == 0 {
        0
    } else {
        digits_value(digits.drop_last()) * 10 + (digits.last() - ZERO_DIGIT)
    }
}

/// Ten to the power `exponent`.
pub open spec fn pow10(exponent: nat) -> int
    decreases exponent,
{
    if exponent == 0 {
        1
    } else {
        10 * pow10((exponent - 1) as nat)
    }
}

/// Where the line starting at `at` ends: the first line feed from there, or
/// the end of the text.
pub open spec fn line_end(text: Seq<u8>, at: int) -> int
    decreases text.len() - at,
{
    if 0 <= at < text.len() && text[at] != NEWLINE {
        line_end(text, at + 1)
    } else {
        at
    }
}

/// A white space character ends within the line.
pub proof fn lemma_space_width(line: Seq<u8>, at: int)
    ensures
        0 <= space_width(line, at) <= 3,
        space_width(line, at) > 0 ==> 0 <= at && at + space_width(line, at) <= line.len(),
{
}

/// Where the white space from `at` ends: the first character that is not
/// white space, or the end of the line.
pub open spec fn skip_spaces(line: Seq<u8>, at: int) -> int
    decreases line.len() - at,
{
    if 0 <= at < line.len() && space_width(line, at) > 0 {
        skip_spaces(line, at + space_width(line, at))
    } else {
        at
    }
}

/// Where the field from `at` ends: the first white space character, or the
/// end of the line.
pub open spec fn field_end(line: Seq<u8>, at: int) -> int
    decreases line.len() - at,
{
    if 0 <= at < line.len() && space_width(line, at) == 0 {
        field_end(line, at + 1)
    } else {
        at
    }
}

/// Scanning forward never goes back.
pub proof fn lemma_scans_forward(line: Seq<u8>, at: int)
    ensures
        skip_spaces(line, at) >= at,
        field_end(line, at) >= at,
        0 <= at <= line.len() ==> skip_spaces(line, at) <= line.len() && field_end(line, at)
            <= line.len(),
        0 <= at < line.len() && space_width(line, at) == 0 ==> field_end(line, at) > at,
        0 <= at && skip_spaces(line, at) < line.len() ==> space_width(line, skip_spaces(line, at))
            == 0,
    decreases line.len() - at,
{
    lemma_space_width(line, at);
    if 0 <= at < line.len() {
        lemma_scans_forward(line, at + 1);
        if space_width(line, at) > 0 {
            lemma_scans_forward(line, at + space_width(line, at));
        }
    }
}

/// The line ending at or after `at` is found at or after it.
pub proof fn lemma_line_end(text: Seq<u8>, at: int)
    requires
        0 <= at <= text.len(),
    ensures
        at <= line_end(text, at) <= text.len(),
        line_end(text, at) < text.len() ==> text[line_end(text, at)] == NEWLINE,
    decreases text.len() - at,
{
    if at < text.len() && text[at] != NEWLINE {
        lemma_line_end(text, at + 1);
    }
}

/// The fields of `line` from `at` on: the runs of bytes between spaces.
pub open spec fn fields_from(line: Seq<u8>, at: int) -> Seq<Seq<u8>>
    decreases line.len() - at,
{
    let start = skip_spaces(line, at);
    if 0 <= at && start < line.len() {
        let end = field_end(line, start);
        proof {
            lemma_scans_forward(line, at);
            lemma_scans_forward(line, start);
        }
        seq![line.subrange(start, end)] + fields_from(line, end)
    } else {
        Seq::empty()
    }
}

/// The fields of a whole line.
pub open spec fn fields(line: Seq<u8>) -> Seq<Seq<u8>> {
    fields_from(line, 0)
}

/// Where the first `.` of `field` from `at` is, or its end.
pub open spec fn dot_at(field: Seq<u8>, at: int) -> int
    decreases field.len() - at,
{
    if 0 <= at < field.len() && field[at] != DOT {
        dot_at(field, at + 1)
    } else {
        at
    }
}

/// The whole seconds a timestamp spells, before any `.`.
pub open spec fn whole_part(field: Seq<u8>) -> Seq<u8> {
    field.subrange(0, dot_at(field, 0))
}

/// The fraction a timestamp spells, after its first `.`.
pub open spec fn fraction_part(field: Seq<u8>) -> Seq<u8> {
    let dot = dot_at(field, 0);
    if dot < field.len() {
        field.subrange(dot + 1, field.len() as int)
    } else {
        Seq::empty()
    }
}

/// How many whole nanoseconds the leading digits of `fraction` are worth,
/// read as the digits after a decimal point: the first nine count, and any
/// after that are below a nanosecond and only round.
pub open spec fn fraction_nanos(fraction: Seq<u8>) -> int {
    let kept = if fraction.len() <= FRACTION_DIGITS { fraction } else { fraction.take(
        FRACTION_DIGITS as int,
    ) };
    digits_value(kept) * pow10((FRACTION_DIGITS - kept.len()) as nat)
}

/// The nanoseconds a timestamp field spells, after a `+` if it likes.
pub open spec fn seconds_nanos(field: Seq<u8>) -> Option<int> {
    unsigned_nanos(if field.len() > 0 && field[0] == PLUS { field.drop_first() } else { field })
}

/// The nanoseconds an unsigned timestamp spells: decimal seconds, scaled by
/// a power of ten where an `e` or `E` follows them.
pub open spec fn unsigned_nanos(field: Seq<u8>) -> Option<int> {
    let mark = exponent_at(field, 0);
    if mark < field.len() {
        match power_of(field.subrange(mark + 1, field.len() as int)) {
            Some(power) => scaled_nanos(field.subrange(0, mark), power),
            None => None,
        }
    } else {
        decimal_nanos(field)
    }
}

/// Whether `byte` opens an exponent.
pub open spec fn is_exponent_mark(byte: u8) -> bool {
    byte == LOWER_E || byte == UPPER_E
}

/// Where the first `e` or `E` of `field` from `at` is, or its end.
pub open spec fn exponent_at(field: Seq<u8>, at: int) -> int
    decreases field.len() - at,
{
    if 0 <= at < field.len() && !is_exponent_mark(field[at]) {
        exponent_at(field, at + 1)
    } else {
        at
    }
}

/// The power of ten an exponent spells: digits, after a `+` or a `-` if it
/// likes.
pub open spec fn power_of(part: Seq<u8>) -> Option<int> {
    let signed = part.len() > 0 && (part[0] == PLUS || part[0] == MINUS);
    let digits = if signed { part.drop_first() } else { part };
    if digits.len() > 0 && all_digits(digits) {
        Some(if signed && part[0] == MINUS { -digits_value(digits) } else { digits_value(digits) })
    } else {
        None
    }
}

/// The digits of a mantissa, whole part then fraction, without the `.`.
pub open spec fn mantissa_digits(mantissa: Seq<u8>) -> Seq<u8> {
    whole_part(mantissa) + fraction_part(mantissa)
}

/// Whether a mantissa is decimal seconds: digits with at most one `.` among
/// them and at least one digit.
pub open spec fn decimal_form(mantissa: Seq<u8>) -> bool {
    &&& all_digits(whole_part(mantissa))
    &&& all_digits(fraction_part(mantissa))
    &&& whole_part(mantissa).len() + fraction_part(mantissa).len() > 0
}

/// Whether every byte of `digits` is the digit zero.
pub open spec fn all_zero(digits: Seq<u8>) -> bool {
    forall|index: int| 0 <= index < digits.len() ==> #[trigger] digits[index] == ZERO_DIGIT
}

/// Whether dropping the digits `tail` rounds what is kept up by one: they are
/// worth more than half a unit of the last digit kept, or exactly half and
/// the kept count is odd, so that a tie goes to the even neighbour.
pub open spec fn rounds_up(tail: Seq<u8>, kept_odd: bool) -> bool {
    &&& tail.len() > 0
    &&& tail[0] >= FIVE_DIGIT
    &&& (tail[0] > FIVE_DIGIT || !all_zero(tail.drop_first()) || kept_odd)
}

/// What a run of digits is worth with its last `dropped` digits dropped,
/// rounded to the nearest whole, a tie to the even neighbour.
pub open spec fn rounded_value(digits: Seq<u8>, dropped: nat) -> int {
    if dropped <= digits.len() {
        let kept = digits_value(digits.take(digits.len() - dropped));
        kept + if rounds_up(digits.skip(digits.len() - dropped), kept % 2 == 1) {
            1int
        } else {
            0int
        }
    } else {
        0
    }
}

/// What a run of digits is worth shifted `shift` places: multiplied by ten
/// that many times, or with that many of its last digits dropped and the rest
/// rounded to the nearest whole.
pub open spec fn shifted_value(digits: Seq<u8>, shift: int) -> int {
    if shift >= 0 {
        digits_value(digits) * pow10(shift as nat)
    } else {
        rounded_value(digits, (-shift) as nat)
    }
}

/// The nanoseconds a mantissa is worth in seconds times ten to `power`,
/// rounded to the nearest nanosecond, where it is decimal seconds and the
/// count is no more than a `Duration` holds.
pub open spec fn scaled_nanos(mantissa: Seq<u8>, power: int) -> Option<int> {
    let shift = power + FRACTION_DIGITS - fraction_part(mantissa).len();
    let nanos = shifted_value(mantissa_digits(mantissa), shift);
    if decimal_form(mantissa) && nanos <= crate::time::max_nanos() {
        Some(nanos)
    } else {
        None
    }
}

/// The nanoseconds decimal seconds spell, rounded to the nearest nanosecond
/// with a tie going to the even one: digits with at most one `.` among them
/// and at least one digit, no more than a `Duration` holds.
pub open spec fn decimal_nanos(field: Seq<u8>) -> Option<int> {
    let whole = whole_part(field);
    let fraction = fraction_part(field);
    let truncated = digits_value(whole) * 1_000_000_000 + fraction_nanos(fraction);
    let nanos = truncated + if fraction.len() > FRACTION_DIGITS && rounds_up(
        fraction.skip(FRACTION_DIGITS as int),
        truncated % 2 == 1,
    ) {
        1int
    } else {
        0int
    };
    if all_digits(whole) && all_digits(fraction) && whole.len() + fraction.len() > 0 && nanos
        <= crate::time::max_nanos() {
        Some(nanos)
    } else {
        None
    }
}

/// The highest MIDI note number.
pub const HIGHEST_PITCH: u8 = 127;

/// The MIDI note number a field spells: digits, after a `+` if it likes, up to
/// the highest note.
pub open spec fn pitch_of(field: Seq<u8>) -> Option<u8> {
    let digits = if field.len() > 0 && field[0] == PLUS { field.drop_first() } else { field };
    if digits.len() > 0 && all_digits(digits) && digits_value(digits) <= HIGHEST_PITCH {
        Some(digits_value(digits) as u8)
    } else {
        None
    }
}

/// A run of digits is worth at least nothing, and at least any run it begins
/// with.
pub proof fn lemma_digits_grow(digits: Seq<u8>, count: int)
    requires
        all_digits(digits),
        0 <= count <= digits.len(),
    ensures
        0 <= digits_value(digits.take(count)) <= digits_value(digits),
    decreases digits.len(),
{
    if count < digits.len() {
        assert(digits.drop_last().take(count) =~= digits.take(count));
        lemma_digits_grow(digits.drop_last(), count);
    } else {
        assert(digits.take(count) =~= digits);
        if digits.len() > 0 {
            assert(digits.drop_last().take(digits.len() - 1) =~= digits.drop_last());
            lemma_digits_grow(digits.drop_last(), digits.len() - 1);
        }
    }
}

/// Reading one more digit multiplies what was read by ten and adds it.
pub proof fn lemma_digit_step(digits: Seq<u8>, count: int)
    requires
        0 <= count < digits.len(),
    ensures
        digits_value(digits.take(count + 1)) == digits_value(digits.take(count)) * 10 + (
        digits[count] - ZERO_DIGIT),
{
    assert(digits.take(count + 1).drop_last() =~= digits.take(count));
}

/// Where the line starting at `at` ends.
pub fn find_line_end(text: &[u8], at: usize) -> (end: usize)
    requires
        at <= text@.len(),
    ensures
        end == line_end(text@, at as int),
        at <= end <= text@.len(),
{
    let mut end = at;
    while end < text.len() && text[end] != NEWLINE
        invariant
            at <= end <= text@.len(),
            line_end(text@, at as int) == line_end(text@, end as int),
        decreases text@.len() - end,
    {
        end = end + 1;
    }
    end
}

/// How many bytes the white space character at `at` of `line` takes, or 0.
pub fn space_width_at(line: &[u8], at: usize) -> (width: usize)
    requires
        at < line@.len(),
    ensures
        width == space_width(line@, at as int),
        width <= 3,
        at + width <= line@.len(),
{
    let byte = line[at];
    if byte == 32 || (9 <= byte && byte <= 13) {
        1
    } else if byte == 0xC2 && at + 1 < line.len() && (line[at + 1] == 0x85 || line[at + 1]
        == 0xA0) {
        2
    } else if line.len() - at > 2 {
        let second = line[at + 1];
        let third = line[at + 2];
        if (byte == 0xE1 && second == 0x9A && third == 0x80) || (byte == 0xE2 && second == 0x80
            && ((0x80 <= third && third <= 0x8A) || third == 0xA8 || third == 0xA9 || third
            == 0xAF)) || (byte == 0xE2 && second == 0x81 && third == 0x9F) || (byte == 0xE3
            && second == 0x80 && third == 0x80) {
            3
        } else {
            0
        }
    } else {
        0
    }
}

/// The fields of `line`, as the positions each starts and ends at.
pub fn split_fields(line: &[u8]) -> (found: Vec<(usize, usize)>)
    ensures
        found@.len() == fields(line@).len(),
        forall|index: int|
            #![trigger found@[index]]
            0 <= index < found@.len() ==> {
                &&& found@[index].0 <= found@[index].1 <= line@.len()
                &&& line@.subrange(found@[index].0 as int, found@[index].1 as int) == fields(
                    line@,
                )[index]
            },
{
    let mut found: Vec<(usize, usize)> = Vec::new();
    let mut at: usize = 0;
    loop
        invariant
            at <= line@.len(),
            fields(line@) =~= found@.map_values(
                |span: (usize, usize)| line@.subrange(span.0 as int, span.1 as int),
            ) + fields_from(line@, at as int),
            forall|index: int|
                #![trigger found@[index]]
                0 <= index < found@.len() ==> found@[index].0 <= found@[index].1 && found@[index].1
                    <= line@.len(),
        decreases line@.len() - at,
    {
        let mut start = at;
        while start < line.len() && space_width_at(line, start) > 0
            invariant
                at <= start <= line@.len(),
                skip_spaces(line@, at as int) == skip_spaces(line@, start as int),
            decreases line@.len() - start,
        {
            start = start + space_width_at(line, start);
        }
        if start >= line.len() {
            assert(fields_from(line@, at as int) =~= Seq::<Seq<u8>>::empty());
            assert(found@.map_values(
                |span: (usize, usize)| line@.subrange(span.0 as int, span.1 as int),
            ) + Seq::<Seq<u8>>::empty() =~= found@.map_values(
                |span: (usize, usize)| line@.subrange(span.0 as int, span.1 as int),
            ));
            return found;
        }
        let mut end = start;
        while end < line.len() && space_width_at(line, end) == 0
            invariant
                start <= end <= line@.len(),
                field_end(line@, start as int) == field_end(line@, end as int),
            decreases line@.len() - end,
        {
            end = end + 1;
        }
        proof {
            lemma_scans_forward(line@, start as int);
        }
        let ghost before = found@;
        found.push((start, end));
        assert(found@[found@.len() - 1] == (start, end));
        assert(found@.map_values(
            |span: (usize, usize)| line@.subrange(span.0 as int, span.1 as int),
        ) =~= before.map_values(
            |span: (usize, usize)| line@.subrange(span.0 as int, span.1 as int),
        ) + seq![line@.subrange(start as int, end as int)]);
        at = end;
    }
}

/// The nanoseconds the bytes `from..to` of `line` spell as a timestamp.
pub fn parse_seconds(line: &[u8], from: usize, to: usize) -> (nanos: Option<u128>)
    requires
        from <= to <= line@.len(),
    ensures
        match nanos {
            Some(n) => seconds_nanos(line@.subrange(from as int, to as int)) == Some(n as int),
            None => seconds_nanos(line@.subrange(from as int, to as int)) is None,
        },
{
    if from < to && line[from] == PLUS {
        assert(line@.subrange(from + 1, to as int) =~= line@.subrange(
            from as int,
            to as int,
        ).drop_first());
        parse_unsigned_seconds(line, from + 1, to)
    } else {
        parse_unsigned_seconds(line, from, to)
    }
}

/// The nanoseconds the bytes `from..to` of `line` spell as an unsigned
/// timestamp.
fn parse_unsigned_seconds(line: &[u8], from: usize, to: usize) -> (nanos: Option<u128>)
    requires
        from <= to <= line@.len(),
    ensures
        match nanos {
            Some(n) => unsigned_nanos(line@.subrange(from as int, to as int)) == Some(n as int),
            None => unsigned_nanos(line@.subrange(from as int, to as int)) is None,
        },
{
    let ghost field = line@.subrange(from as int, to as int);
    let mut mark = from;
    while mark < to && line[mark] != LOWER_E && line[mark] != UPPER_E
        invariant
            from <= mark <= to <= line@.len(),
            field == line@.subrange(from as int, to as int),
            exponent_at(field, 0) == exponent_at(field, mark - from),
        decreases to - mark,
    {
        assert(field[mark - from] == line@[mark as int]);
        mark = mark + 1;
    }
    if mark == to {
        return parse_decimal_seconds(line, from, to);
    }
    assert(field.subrange(0, mark - from) =~= line@.subrange(from as int, mark as int));
    assert(field.subrange(mark - from + 1, field.len() as int) =~= line@.subrange(
        mark + 1,
        to as int,
    ));
    match parse_power(line, mark + 1, to) {
        None => None,
        Some((negative, magnitude)) => parse_scaled_seconds(
            line,
            from,
            mark,
            negative,
            magnitude,
            Ghost(power_of(field.subrange(mark - from + 1, field.len() as int)).unwrap()),
        ),
    }
}

/// The nanoseconds the bytes `from..to` of `line` spell as decimal seconds.
fn parse_decimal_seconds(line: &[u8], from: usize, to: usize) -> (nanos: Option<u128>)
    requires
        from <= to <= line@.len(),
    ensures
        match nanos {
            Some(n) => decimal_nanos(line@.subrange(from as int, to as int)) == Some(n as int),
            None => decimal_nanos(line@.subrange(from as int, to as int)) is None,
        },
{
    let ghost field = line@.subrange(from as int, to as int);
    let mut dot = from;
    while dot < to && line[dot] != DOT
        invariant
            from <= dot <= to <= line@.len(),
            field == line@.subrange(from as int, to as int),
            dot_at(field, 0) == dot_at(field, dot - from),
        decreases to - dot,
    {
        assert(field[dot - from] == line@[dot as int]);
        dot = dot + 1;
    }
    let ghost whole = whole_part(field);
    let ghost fraction = fraction_part(field);
    assert(whole =~= line@.subrange(from as int, dot as int));
    let start = if dot < to { dot + 1 } else { to };
    assert(fraction =~= line@.subrange(start as int, to as int));
    let mut seconds: u128 = 0;
    let mut at = from;
    while at < dot
        invariant
            from <= at <= dot <= to <= line@.len(),
            field == line@.subrange(from as int, to as int),
            whole == whole_part(field),
            fraction == fraction_part(field),
            whole == line@.subrange(from as int, dot as int),
            all_digits(whole.take(at - from)),
            seconds == digits_value(whole.take(at - from)),
            seconds <= u64::MAX,
        decreases dot - at,
    {
        let byte = line[at];
        assert(whole[at - from] == byte);
        if byte < ZERO_DIGIT || byte > NINE_DIGIT {
            assert(!is_digit(whole[at - from]));
            assert(!all_digits(whole));
            return None;
        }
        proof {
            lemma_digit_step(whole, at - from);
        }
        seconds = seconds * 10 + (byte - ZERO_DIGIT) as u128;
        assert(whole.take(at - from + 1) =~= whole.take(at - from).push(byte));
        at = at + 1;
        if seconds > u64::MAX as u128 {
            proof {
                if all_digits(whole) && all_digits(fraction) {
                    lemma_digits_grow(whole, at - from);
                    lemma_fraction_nanos_nonnegative(fraction);
                    assert(digits_value(whole) * 1_000_000_000 > crate::time::max_nanos())
                        by (nonlinear_arith)
                        requires
                            digits_value(whole) >= u64::MAX + 1,
                    ;
                }
            }
            return None;
        }
    }
    assert(whole.take(dot - from) =~= whole);
    let mut kept: u128 = 0;
    let mut counted: usize = 0;
    let mut at = start;
    while at < to
        invariant
            start <= at <= to <= line@.len(),
            field == line@.subrange(from as int, to as int),
            whole == whole_part(field),
            fraction == fraction_part(field),
            fraction == line@.subrange(start as int, to as int),
            counted == if at - start <= FRACTION_DIGITS { at - start } else { FRACTION_DIGITS as int },
            all_digits(fraction.take(at - start)),
            kept == digits_value(fraction.take(counted as int)),
            0 <= kept < pow10(counted as nat),
        decreases to - at,
    {
        let byte = line[at];
        assert(fraction[at - start] == byte);
        if byte < ZERO_DIGIT || byte > NINE_DIGIT {
            assert(!is_digit(fraction[at - start]));
            assert(!all_digits(fraction));
            return None;
        }
        if counted < FRACTION_DIGITS {
            proof {
                lemma_digit_step(fraction, counted as int);
                lemma_pow10_bound(counted as nat);
            }
            assert(kept * 10 + (byte - ZERO_DIGIT) < pow10((counted + 1) as nat)) by (nonlinear_arith)
                requires
                    kept < pow10(counted as nat),
                    byte - ZERO_DIGIT < 10,
                    byte >= ZERO_DIGIT,
                    pow10((counted + 1) as nat) == 10 * pow10(counted as nat),
            ;
            kept = kept * 10 + (byte - ZERO_DIGIT) as u128;
            counted = counted + 1;
        }
        assert(fraction.take(at - start + 1) =~= fraction.take(at - start).push(byte));
        at = at + 1;
    }
    assert(fraction.take(to - start) =~= fraction);
    let ghost kept_digits = if fraction.len() <= FRACTION_DIGITS { fraction } else { fraction.take(
        FRACTION_DIGITS as int,
    ) };
    assert(kept_digits =~= fraction.take(counted as int));
    let mut scale: u128 = 1;
    let mut power: usize = counted;
    while power < FRACTION_DIGITS
        invariant
            counted <= power <= FRACTION_DIGITS,
            scale == pow10((power - counted) as nat),
            scale <= 1_000_000_000,
        decreases FRACTION_DIGITS - power,
    {
        proof {
            lemma_pow10_bound((power - counted + 1) as nat);
        }
        scale = scale * 10;
        power = power + 1;
    }
    if dot == from && start == to {
        return None;
    }
    assert(whole.len() + fraction.len() > 0);
    proof {
        lemma_pow10_bound(counted as nat);
        lemma_pow10_positive((FRACTION_DIGITS - counted) as nat);
    }
    assert(kept * scale <= 1_000_000_000) by (nonlinear_arith)
        requires
            kept < pow10(counted as nat),
            scale == pow10((FRACTION_DIGITS - counted) as nat),
            pow10(counted as nat) * pow10((FRACTION_DIGITS - counted) as nat) == 1_000_000_000,
            kept >= 0,
            scale >= 1,
    ;
    let truncated = seconds * 1_000_000_000 + kept * scale;
    assert(line@.subrange(start + FRACTION_DIGITS, to as int) == fraction.skip(
        FRACTION_DIGITS as int,
    ) || fraction.len() <= FRACTION_DIGITS);
    let up = to - start > FRACTION_DIGITS && joined_rounds_up(
        line,
        start + FRACTION_DIGITS,
        to,
        to,
        to,
        0,
        truncated % 2 == 1,
    );
    proof {
        if fraction.len() > FRACTION_DIGITS {
            assert(joined(line@, start + FRACTION_DIGITS, to as int, to as int, to as int).skip(0)
                =~= fraction.skip(FRACTION_DIGITS as int));
        }
    }
    let nanos = if up { truncated + 1 } else { truncated };
    if nanos > MOST_NANOS {
        return None;
    }
    Some(nanos)
}

/// What the digits of a fraction are worth is never negative.
proof fn lemma_fraction_nanos_nonnegative(fraction: Seq<u8>)
    requires
        all_digits(fraction),
    ensures
        fraction_nanos(fraction) >= 0,
{
    let kept = if fraction.len() <= FRACTION_DIGITS { fraction } else { fraction.take(
        FRACTION_DIGITS as int,
    ) };
    assert(all_digits(kept));
    lemma_digits_grow(kept, 0);
    lemma_pow10_positive((FRACTION_DIGITS - kept.len()) as nat);
    assert(digits_value(kept) * pow10((FRACTION_DIGITS - kept.len()) as nat) >= 0)
        by (nonlinear_arith)
        requires
            digits_value(kept) >= 0,
            pow10((FRACTION_DIGITS - kept.len()) as nat) >= 1,
    ;
}

/// Powers of ten up to the ninth fit a nanosecond count.
proof fn lemma_pow10_bound(exponent: nat)
    requires
        exponent <= 9,
    ensures
        1 <= pow10(exponent),
        pow10(exponent) * pow10((9 - exponent) as nat) == 1_000_000_000,
        pow10(exponent) <= 1_000_000_000,
{
    reveal_with_fuel(pow10, 10);
    lemma_pow10_split(exponent, (9 - exponent) as nat);
    lemma_pow10_positive((9 - exponent) as nat);
    assert(pow10(exponent) <= 1_000_000_000) by (nonlinear_arith)
        requires
            pow10(exponent) * pow10((9 - exponent) as nat) == 1_000_000_000,
            pow10((9 - exponent) as nat) >= 1,
            pow10(exponent) >= 0,
    ;
    lemma_pow10_positive(exponent);
}

/// Every power of ten is at least one.
proof fn lemma_pow10_positive(exponent: nat)
    ensures
        pow10(exponent) >= 1,
    decreases exponent,
{
    if exponent > 0 {
        lemma_pow10_positive((exponent - 1) as nat);
    }
}

/// Ten to a sum of powers is the product of the two.
proof fn lemma_pow10_split(one: nat, other: nat)
    ensures
        pow10(one) * pow10(other) == pow10(one + other),
    decreases one,
{
    if one > 0 {
        lemma_pow10_split((one - 1) as nat, other);
        assert(pow10(one) * pow10(other) == 10 * (pow10((one - 1) as nat) * pow10(other)))
            by (nonlinear_arith)
            requires
                pow10(one) == 10 * pow10((one - 1) as nat),
        ;
    }
}

/// The MIDI note number the bytes `from..to` of `line` spell.
pub fn parse_pitch(line: &[u8], from: usize, to: usize) -> (pitch: Option<u8>)
    requires
        from <= to <= line@.len(),
    ensures
        pitch == pitch_of(line@.subrange(from as int, to as int)),
{
    let ghost field = line@.subrange(from as int, to as int);
    let start = if from < to && line[from] == PLUS { from + 1 } else { from };
    let ghost digits = if field.len() > 0 && field[0] == PLUS { field.drop_first() } else { field };
    assert(digits =~= line@.subrange(start as int, to as int));
    if start == to {
        return None;
    }
    let mut value: u32 = 0;
    let mut at = start;
    while at < to
        invariant
            start <= at <= to <= line@.len(),
            field == line@.subrange(from as int, to as int),
            digits == (if field.len() > 0 && field[0] == PLUS { field.drop_first() } else { field }),
            digits == line@.subrange(start as int, to as int),
            all_digits(digits.take(at - start)),
            value == digits_value(digits.take(at - start)),
            value <= HIGHEST_PITCH,
        decreases to - at,
    {
        let byte = line[at];
        assert(digits[at - start] == byte);
        if byte < ZERO_DIGIT || byte > NINE_DIGIT {
            assert(!is_digit(digits[at - start]));
            return None;
        }
        proof {
            lemma_digit_step(digits, at - start);
        }
        value = value * 10 + (byte - ZERO_DIGIT) as u32;
        assert(digits.take(at - start + 1) =~= digits.take(at - start).push(byte));
        at = at + 1;
        if value > HIGHEST_PITCH as u32 {
            proof {
                if all_digits(digits) {
                    lemma_digits_grow(digits, at - start);
                }
            }
            return None;
        }
    }
    assert(digits.take(to - start) =~= digits);
    Some(value as u8)
}


/// Exponents of a greater magnitude than this are read as one past it: from
/// there on, any mantissa either overflows or falls below a nanosecond.
pub const POWER_CAP: u128 = 1_000_000_000_000_000_000_000_000;

/// The most nanoseconds a `Duration` holds.
pub const MOST_NANOS: u128 = 18_446_744_073_709_551_615_999_999_999;

/// The digits of a mantissa in `line`: its whole part from `from` up to `dot`,
/// then its fraction from `start` up to `mark`.
pub open spec fn joined(line: Seq<u8>, from: int, dot: int, start: int, mark: int) -> Seq<u8> {
    line.subrange(from, dot) + line.subrange(start, mark)
}

/// Ten to any power is at least one, and grows with the power.
proof fn lemma_pow10_grows(low: nat, high: nat)
    requires
        low <= high,
    ensures
        1 <= pow10(low) <= pow10(high),
    decreases high,
{
    lemma_pow10_positive(low);
    if low < high {
        lemma_pow10_grows(low, (high - 1) as nat);
    }
}

/// Ten to the 29th is past what a `Duration` holds, and so is any higher
/// power.
proof fn lemma_pow10_past_duration(exponent: nat)
    requires
        exponent >= 29,
    ensures
        pow10(exponent) > crate::time::max_nanos(),
{
    lemma_pow10_bound(9);
    assert(pow10(0) == 1);
    assert(pow10(9) == 1_000_000_000);
    assert(pow10(10) == 10_000_000_000);
    lemma_pow10_split(10, 10);
    assert(pow10(20) == 100_000_000_000_000_000_000) by (nonlinear_arith)
        requires
            pow10(10) == 10_000_000_000,
            pow10(10) * pow10(10) == pow10(20),
    ;
    lemma_pow10_split(20, 9);
    assert(pow10(29) == 100_000_000_000_000_000_000_000_000_000) by (nonlinear_arith)
        requires
            pow10(20) == 100_000_000_000_000_000_000,
            pow10(9) == 1_000_000_000,
            pow10(20) * pow10(9) == pow10(29),
    ;
    lemma_pow10_grows(29, exponent);
}

/// A positive count shifted up `shift` places stays past what a `Duration`
/// holds where it was already, or where the shift is long enough.
proof fn lemma_shift_overflows(value: int, shift: nat)
    requires
        value >= 1,
        value > crate::time::max_nanos() || shift >= 29,
    ensures
        value * pow10(shift) > crate::time::max_nanos(),
{
    lemma_pow10_positive(shift);
    if shift >= 29 {
        lemma_pow10_past_duration(shift);
    }
    assert(value * pow10(shift) >= value && value * pow10(shift) >= pow10(shift)) by (nonlinear_arith)
        requires
            value >= 1,
            pow10(shift) >= 1,
    ;
}

/// Whether the bytes `from..to` of `line` are all digits.
fn digits_only(line: &[u8], from: usize, to: usize) -> (digits: bool)
    requires
        from <= to <= line@.len(),
    ensures
        digits == all_digits(line@.subrange(from as int, to as int)),
{
    let ghost run = line@.subrange(from as int, to as int);
    let mut at = from;
    while at < to
        invariant
            from <= at <= to <= line@.len(),
            run == line@.subrange(from as int, to as int),
            forall|index: int| 0 <= index < at - from ==> is_digit(#[trigger] run[index]),
        decreases to - at,
    {
        assert(run[at - from] == line@[at as int]);
        if line[at] < ZERO_DIGIT || line[at] > NINE_DIGIT {
            assert(!is_digit(run[at - from]));
            return false;
        }
        at = at + 1;
    }
    true
}

/// What the first `count` digits of a mantissa in `line` are worth, or `None`
/// where that is past what a `Duration` holds.
fn prefix_value(line: &[u8], from: usize, dot: usize, start: usize, mark: usize, count: usize) -> (value: Option<u128>)
    requires
        from <= dot <= start <= mark <= line@.len(),
        all_digits(joined(line@, from as int, dot as int, start as int, mark as int)),
        count <= joined(line@, from as int, dot as int, start as int, mark as int).len(),
    ensures
        match value {
            Some(v) => v == digits_value(
                joined(line@, from as int, dot as int, start as int, mark as int).take(count as int),
            ) && v <= crate::time::max_nanos(),
            None => digits_value(
                joined(line@, from as int, dot as int, start as int, mark as int).take(count as int),
            ) > crate::time::max_nanos(),
        },
{
    let ghost digits = joined(line@, from as int, dot as int, start as int, mark as int);
    let whole = dot - from;
    let mut value: u128 = 0;
    let mut at: usize = 0;
    assert(digits.take(0) =~= Seq::<u8>::empty());
    while at < count
        invariant
            from <= dot <= start <= mark <= line@.len(),
            whole == dot - from,
            digits == joined(line@, from as int, dot as int, start as int, mark as int),
            all_digits(digits),
            at <= count <= digits.len(),
            value == digits_value(digits.take(at as int)),
            value <= crate::time::max_nanos(),
        decreases count - at,
    {
        let byte = if at < whole { line[from + at] } else { line[start + (at - whole)] };
        assert(digits[at as int] == byte);
        assert(is_digit(digits[at as int]));
        proof {
            lemma_digit_step(digits, at as int);
        }
        let next = value * 10 + (byte - ZERO_DIGIT) as u128;
        at = at + 1;
        if next > MOST_NANOS {
            proof {
                assert(digits.take(count as int).take(at as int) =~= digits.take(at as int));
                lemma_digits_grow(digits.take(count as int), at as int);
            }
            return None;
        }
        value = next;
    }
    Some(value)
}

/// Whether dropping the digits of a mantissa in `line` from the `skip`th on
/// rounds what is kept up, `kept_odd` saying whether what is kept is odd.
fn joined_rounds_up(
    line: &[u8],
    from: usize,
    dot: usize,
    start: usize,
    mark: usize,
    skip: usize,
    kept_odd: bool,
) -> (up: bool)
    requires
        from <= dot <= start <= mark <= line@.len(),
        skip <= joined(line@, from as int, dot as int, start as int, mark as int).len(),
    ensures
        up == rounds_up(
            joined(line@, from as int, dot as int, start as int, mark as int).skip(skip as int),
            kept_odd,
        ),
{
    let ghost digits = joined(line@, from as int, dot as int, start as int, mark as int);
    let ghost tail = digits.skip(skip as int);
    let whole = dot - from;
    let count = whole + (mark - start);
    if skip >= count {
        return false;
    }
    let first = if skip < whole { line[from + skip] } else { line[start + (skip - whole)] };
    assert(digits[skip as int] == first);
    assert(tail[0] == first);
    if first < FIVE_DIGIT {
        return false;
    }
    if first > FIVE_DIGIT {
        return true;
    }
    let mut at = skip + 1;
    while at < count
        invariant
            from <= dot <= start <= mark <= line@.len(),
            whole == dot - from,
            count == whole + (mark - start),
            digits == joined(line@, from as int, dot as int, start as int, mark as int),
            tail == digits.skip(skip as int),
            tail.len() > 0,
            tail[0] == FIVE_DIGIT,
            skip < at <= count,
            forall|index: int| skip < index < at ==> #[trigger] digits[index] == ZERO_DIGIT,
        decreases count - at,
    {
        let byte = if at < whole { line[from + at] } else { line[start + (at - whole)] };
        assert(digits[at as int] == byte);
        if byte != ZERO_DIGIT {
            assert(tail.drop_first()[at - skip - 1] == byte);
            return true;
        }
        at = at + 1;
    }
    assert forall|index: int| 0 <= index < tail.drop_first().len() implies #[trigger] tail.drop_first()[index]
        == ZERO_DIGIT by {
        assert(tail.drop_first()[index] == digits[skip + 1 + index]);
    }
    kept_odd
}

/// The exponent the bytes `from..to` of `line` spell, as whether it is
/// negative and its magnitude, a magnitude past [`POWER_CAP`] read as one past
/// it.
fn parse_power(line: &[u8], from: usize, to: usize) -> (power: Option<(bool, u128)>)
    requires
        from <= to <= line@.len(),
    ensures
        match power {
            None => power_of(line@.subrange(from as int, to as int)) is None,
            Some((negative, magnitude)) => {
                let read = power_of(line@.subrange(from as int, to as int));
                &&& read is Some
                &&& magnitude <= POWER_CAP + 1
                &&& magnitude <= POWER_CAP ==> read == Some(
                    if negative { -(magnitude as int) } else { magnitude as int },
                )
                &&& magnitude > POWER_CAP ==> if negative {
                    read.unwrap() < -(POWER_CAP as int)
                } else {
                    read.unwrap() > POWER_CAP as int
                }
            },
        },
{
    let ghost part = line@.subrange(from as int, to as int);
    let signed = from < to && (line[from] == PLUS || line[from] == MINUS);
    let negative = signed && line[from] == MINUS;
    let start = if signed { from + 1 } else { from };
    let ghost digits = if signed { part.drop_first() } else { part };
    assert(from < to ==> part[0] == line@[from as int]);
    assert(signed == (part.len() > 0 && (part[0] == PLUS || part[0] == MINUS)));
    assert(digits =~= line@.subrange(start as int, to as int));
    if start == to {
        return None;
    }
    let mut magnitude: u128 = 0;
    let mut at = start;
    assert(digits.take(0) =~= Seq::<u8>::empty());
    while at < to
        invariant
            start <= at <= to <= line@.len(),
            digits == line@.subrange(start as int, to as int),
            part == line@.subrange(from as int, to as int),
            digits == if signed { part.drop_first() } else { part },
            signed == (part.len() > 0 && (part[0] == PLUS || part[0] == MINUS)),
            negative == (signed && part[0] == MINUS),
            digits.len() > 0,
            all_digits(digits.take(at - start)),
            digits_value(digits.take(at - start)) >= 0,
            magnitude <= POWER_CAP + 1,
            magnitude <= POWER_CAP ==> magnitude == digits_value(digits.take(at - start)),
            magnitude > POWER_CAP ==> digits_value(digits.take(at - start)) > POWER_CAP,
        decreases to - at,
    {
        let byte = line[at];
        assert(digits[at - start] == byte);
        if byte < ZERO_DIGIT || byte > NINE_DIGIT {
            assert(!is_digit(digits[at - start]));
            return None;
        }
        proof {
            lemma_digit_step(digits, at - start);
        }
        if magnitude <= POWER_CAP {
            let next = magnitude * 10 + (byte - ZERO_DIGIT) as u128;
            magnitude = if next > POWER_CAP { POWER_CAP + 1 } else { next };
        }
        assert(digits.take(at - start + 1) =~= digits.take(at - start).push(byte));
        at = at + 1;
    }
    assert(digits.take(to - start) =~= digits);
    Some((negative, magnitude))
}

/// The nanoseconds the mantissa `from..mark` of `line` is worth scaled by ten
/// to `power`, which the sign and capped magnitude read from its exponent
/// stand for.
fn parse_scaled_seconds(
    line: &[u8],
    from: usize,
    mark: usize,
    negative: bool,
    magnitude: u128,
    Ghost(power): Ghost<int>,
) -> (nanos: Option<u128>)
    requires
        from <= mark <= line@.len(),
        magnitude <= POWER_CAP + 1,
        magnitude <= POWER_CAP ==> power == if negative { -(magnitude as int) } else { magnitude as int },
        magnitude > POWER_CAP ==> if negative { power < -(POWER_CAP as int) } else { power > POWER_CAP as int },
    ensures
        match nanos {
            Some(n) => scaled_nanos(line@.subrange(from as int, mark as int), power) == Some(n as int),
            None => scaled_nanos(line@.subrange(from as int, mark as int), power) is None,
        },
{
    let ghost mantissa = line@.subrange(from as int, mark as int);
    let mut dot = from;
    while dot < mark && line[dot] != DOT
        invariant
            from <= dot <= mark <= line@.len(),
            mantissa == line@.subrange(from as int, mark as int),
            dot_at(mantissa, 0) == dot_at(mantissa, dot - from),
        decreases mark - dot,
    {
        assert(mantissa[dot - from] == line@[dot as int]);
        dot = dot + 1;
    }
    let ghost whole = whole_part(mantissa);
    let ghost fraction = fraction_part(mantissa);
    assert(whole =~= line@.subrange(from as int, dot as int));
    let start = if dot < mark { dot + 1 } else { mark };
    assert(fraction =~= line@.subrange(start as int, mark as int));
    let ghost digits = mantissa_digits(mantissa);
    assert(digits =~= joined(line@, from as int, dot as int, start as int, mark as int));
    if !digits_only(line, from, dot) || !digits_only(line, start, mark) {
        return None;
    }
    if dot == from && start == mark {
        return None;
    }
    assert(decimal_form(mantissa));
    assert forall|index: int| 0 <= index < digits.len() implies is_digit(#[trigger] digits[index]) by {
        if index < whole.len() {
            assert(digits[index] == whole[index]);
        } else {
            assert(digits[index] == fraction[index - whole.len()]);
        }
    }
    let count = (dot - from) + (mark - start);
    let fraction_len = mark - start;
    let ghost shift = power + FRACTION_DIGITS - fraction.len();
    assert(digits.len() == count);
    if magnitude > POWER_CAP {
        if negative {
            assert(count <= usize::MAX);
            assert(shift < 9 - (POWER_CAP as int));
            assert(digits.len() + shift <= 0);
            assert(shifted_value(digits, shift) == 0);
            return Some(0);
        }
        return match prefix_value(line, from, dot, start, mark, count) {
            None => {
                assert(digits.take(count as int) =~= digits);
                proof {
                    lemma_shift_overflows(digits_value(digits), shift as nat);
                }
                None
            },
            Some(value) => {
                assert(digits.take(count as int) =~= digits);
                if value == 0 {
                    assert(digits_value(digits) * pow10(shift as nat) == 0) by (nonlinear_arith)
                        requires
                            digits_value(digits) == 0,
                    ;
                    assert(shifted_value(digits, shift) == 0);
                    Some(0)
                } else {
                    proof {
                        lemma_shift_overflows(digits_value(digits), shift as nat);
                    }
                    None
                }
            },
        };
    }
    let signed_power: i128 = if negative { -(magnitude as i128) } else { magnitude as i128 };
    let exact_shift: i128 = signed_power + 9 - fraction_len as i128;
    assert(exact_shift == shift);
    if exact_shift >= 0 {
        let goal = exact_shift as u128;
        match prefix_value(line, from, dot, start, mark, count) {
            None => {
                assert(digits.take(count as int) =~= digits);
                proof {
                    lemma_digits_grow(digits, 0);
                    lemma_shift_overflows(digits_value(digits), shift as nat);
                }
                None
            },
            Some(value) => {
                assert(digits.take(count as int) =~= digits);
                if value == 0 {
                    assert(digits_value(digits) * pow10(shift as nat) == 0) by (nonlinear_arith)
                        requires
                            digits_value(digits) == 0,
                    ;
                    assert(shifted_value(digits, shift) == 0);
                    return Some(0);
                }
                let mut scaled: u128 = value;
                let mut done: u128 = 0;
                while done < goal
                    invariant
                        mantissa == line@.subrange(from as int, mark as int),
                        digits == mantissa_digits(mantissa),
                        shift == power + FRACTION_DIGITS - fraction_part(mantissa).len(),
                        decimal_form(mantissa),
                        value == digits_value(digits),
                        value >= 1,
                        done <= goal,
                        goal == shift,
                        scaled == value * pow10(done as nat),
                        scaled <= crate::time::max_nanos(),
                    decreases goal - done,
                {
                    let next = scaled * 10;
                    done = done + 1;
                    assert(next == value * pow10(done as nat)) by (nonlinear_arith)
                        requires
                            scaled == value * pow10((done - 1) as nat),
                            pow10(done as nat) == 10 * pow10((done - 1) as nat),
                            next == scaled * 10,
                    ;
                    if next > MOST_NANOS {
                        proof {
                            lemma_pow10_grows(done as nat, goal as nat);
                            assert(value * pow10(goal as nat) >= value * pow10(done as nat)) by (nonlinear_arith)
                                requires
                                    value >= 1,
                                    pow10(goal as nat) >= pow10(done as nat),
                            ;
                        }
                        assert(shifted_value(digits, shift) > crate::time::max_nanos());
                        return None;
                    }
                    scaled = next;
                }
                Some(scaled)
            },
        }
    } else {
        let keep: i128 = count as i128 + exact_shift;
        if keep < 0 {
            return Some(0);
        }
        let keep = keep as usize;
        match prefix_value(line, from, dot, start, mark, keep) {
            None => None,
            Some(value) => {
                let up = joined_rounds_up(line, from, dot, start, mark, keep, value % 2 == 1);
                let rounded = if up { value + 1 } else { value };
                if rounded > MOST_NANOS {
                    None
                } else {
                    Some(rounded)
                }
            },
        }
    }
}


/// Digits written after others are worth the first run shifted past them,
/// plus what they are worth themselves.
proof fn lemma_digits_concat(first: Seq<u8>, second: Seq<u8>)
    ensures
        digits_value(first + second) == digits_value(first) * pow10(second.len()) + digits_value(
            second,
        ),
    decreases second.len(),
{
    if second.len() == 0 {
        assert(first + second =~= first);
    } else {
        let shorter = second.drop_last();
        assert((first + second).drop_last() =~= first + shorter);
        lemma_digits_concat(first, shorter);
        assert(digits_value(first + second) == digits_value(first + shorter) * 10 + (second.last()
            - ZERO_DIGIT));
        assert(digits_value(first) * pow10(second.len()) == 10 * (digits_value(first) * pow10(
            shorter.len(),
        ))) by (nonlinear_arith)
            requires
                pow10(second.len()) == 10 * pow10(shorter.len()),
        ;
    }
}

/// A timestamp scaled by ten to the zeroth reads as the same decimal seconds
/// written without an exponent.
pub proof fn lemma_unscaled(field: Seq<u8>)
    ensures
        scaled_nanos(field, 0) == decimal_nanos(field),
{
    let whole = whole_part(field);
    let fraction = fraction_part(field);
    let digits = whole + fraction;
    if fraction.len() <= FRACTION_DIGITS {
        lemma_digits_concat(whole, fraction);
        lemma_pow10_split(fraction.len(), (FRACTION_DIGITS - fraction.len()) as nat);
        lemma_pow10_bound(fraction.len());
        assert(digits_value(digits) * pow10((FRACTION_DIGITS - fraction.len()) as nat)
            == digits_value(whole) * 1_000_000_000 + digits_value(fraction) * pow10(
            (FRACTION_DIGITS - fraction.len()) as nat,
        )) by (nonlinear_arith)
            requires
                digits_value(digits) == digits_value(whole) * pow10(fraction.len())
                    + digits_value(fraction),
                pow10(fraction.len()) * pow10((FRACTION_DIGITS - fraction.len()) as nat)
                    == 1_000_000_000,
        ;
    } else {
        let kept = fraction.take(FRACTION_DIGITS as int);
        let dropped = (fraction.len() - FRACTION_DIGITS) as nat;
        assert(digits.take(digits.len() - dropped) =~= whole + kept);
        assert(digits.skip(digits.len() - dropped) =~= fraction.skip(FRACTION_DIGITS as int));
        lemma_digits_concat(whole, kept);
        lemma_pow10_bound(9);
        assert(pow10(0) == 1);
        assert(fraction_nanos(fraction) == digits_value(kept));
        assert(digits_value(digits.take(digits.len() - dropped)) == digits_value(whole)
            * 1_000_000_000 + fraction_nanos(fraction));
    }
}

} // verus!
