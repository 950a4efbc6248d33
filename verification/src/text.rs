//! Text: numbers in it, and taking it apart.

use vstd::prelude::*;

verus! {

/// `String::push`: the character comes last.
#[verifier::external_body]
pub(crate) fn push_char(text: &mut String, c: char)
    ensures
        final(text)@ == old(text)@.push(c),
{
    text.push(c)
}

/// The characters of `text`.
pub fn to_chars(text: &str) -> (chars: Vec<char>)
    ensures
        chars@ == text@,
{
    let mut chars: Vec<char> = Vec::new();
    for c in it: text.chars()
        invariant
            it.seq() == text@,
            chars@ == text@.take(it.index() as int),
    {
        chars.push(c);
        assert(chars@ =~= text@.take(it.index() + 1));
    }
    assert(text@.take(text@.len() as int) =~= text@);
    chars
}

/// The text made of `chars`.
pub fn from_chars(chars: &[char]) -> (text: String)
    ensures
        text@ == chars@,
{
    let mut text = String::new();
    let mut i: usize = 0;
    while i < chars.len()
        invariant
            i <= chars@.len(),
            text@ == chars@.take(i as int),
        decreases chars@.len() - i,
    {
        push_char(&mut text, chars[i]);
        i = i + 1;
        assert(text@ =~= chars@.take(i as int));
    }
    assert(chars@.take(i as int) =~= chars@);
    text
}

/// The digit for `value`, which is below 16.
pub open spec fn digit(value: nat) -> char {
    if value < 10 {
        (value + 48) as char
    } else {
        (value + 87) as char
    }
}

/// A number in decimal, without leading zeros.
pub open spec fn decimal(value: nat) -> Seq<char>
    decreases value,
{
    if value < 10 {
        seq![digit(value)]
    } else {
        decimal(value / 10).push(digit(value % 10))
    }
}

/// A byte as two hexadecimal digits.
pub open spec fn hex(byte: u8) -> Seq<char> {
    seq![digit(byte as nat / 16), digit(byte as nat % 16)]
}

fn digit_char(value: u8) -> (c: char)
    requires
        value < 16,
    ensures
        c == digit(value as nat),
{
    if value < 10 {
        (value + 48) as char
    } else {
        (value + 87) as char
    }
}

/// Write a number in decimal.
pub fn to_decimal(value: u64) -> (text: String)
    ensures
        text@ == decimal(value as nat),
    decreases value,
{
    if value < 10 {
        let mut text = String::new();
        push_char(&mut text, digit_char(value as u8));
        assert(text@ =~= decimal(value as nat));
        text
    } else {
        let mut text = to_decimal(value / 10);
        push_char(&mut text, digit_char((value % 10) as u8));
        text
    }
}

/// Write a byte as two hexadecimal digits.
pub fn to_hex(byte: u8) -> (text: String)
    ensures
        text@ == hex(byte),
{
    let mut text = String::new();
    push_char(&mut text, digit_char(byte / 16));
    push_char(&mut text, digit_char(byte % 16));
    assert(text@ =~= hex(byte));
    text
}

/// Join two texts.
pub fn join(a: &str, b: &str) -> (text: String)
    ensures
        text@ == a@ + b@,
{
    let mut text = a.to_owned();
    text.append(b);
    text
}

pub open spec fn is_digit(c: char) -> bool {
    '0' <= c <= '9'
}

/// The number that decimal digits spell.
pub open spec fn digits_value(digits: Seq<char>) -> nat
    decreases digits.len(),
{
    if digits.len() == 0 {
        0
    } else {
        10 * digits_value(digits.drop_last()) + (digits.last() as nat - 48) as nat
    }
}

/// The digits of a number after its sign, which can be a plus.
pub open spec fn after_plus(text: Seq<char>) -> Seq<char> {
    if text.len() > 0 && text[0] == '+' {
        text.skip(1)
    } else {
        text
    }
}

/// The number that `text` writes in decimal, if it writes one that is at most
/// `max`.
pub open spec fn parsed(text: Seq<char>, max: nat) -> Option<nat> {
    let digits = after_plus(text);
    if digits.len() > 0 && (forall|i: int|
        0 <= i < digits.len() ==> is_digit(#[trigger] digits[i])) && digits_value(digits) <= max {
        Some(digits_value(digits))
    } else {
        None
    }
}

proof fn lemma_digits_value_grows(digits: Seq<char>, i: int)
    requires
        0 <= i <= digits.len(),
    ensures
        digits_value(digits.take(i)) <= digits_value(digits),
    decreases digits.len(),
{
    if i < digits.len() {
        lemma_digits_value_grows(digits.drop_last(), i);
        assert(digits.drop_last().take(i) =~= digits.take(i));
    } else {
        assert(digits.take(i) =~= digits);
    }
}

/// Read a number that is at most `max`.
pub fn parse_number(text: &[char], max: u64) -> (value: Option<u64>)
    ensures
        match value {
            Some(v) => parsed(text@, max as nat) == Some(v as nat),
            None => parsed(text@, max as nat) is None,
        },
{
    let start: usize = if text.len() > 0 && text[0] == '+' {
        1
    } else {
        0
    };
    let ghost digits = after_plus(text@);
    assert(digits =~= text@.skip(start as int));
    if start == text.len() {
        return None;
    }
    let mut value: u64 = 0;
    let mut i: usize = start;
    while i < text.len()
        invariant
            start <= i <= text@.len(),
            start < text@.len(),
            digits == text@.skip(start as int),
            digits == after_plus(text@),
            value == digits_value(digits.take(i - start)),
            value <= max,
            forall|j: int| 0 <= j < i - start ==> is_digit(#[trigger] digits[j]),
        decreases text@.len() - i,
    {
        let c = text[i];
        let ghost at = i - start;
        assert(digits[at] == c);
        if !(c >= '0' && c <= '9') {
            assert(!is_digit(digits[at]));
            return None;
        }
        let d: u64 = (c as u32 - 48) as u64;
        proof {
            assert(digits.take(at + 1).drop_last() =~= digits.take(at));
            lemma_digits_value_grows(digits, at + 1);
        }
        if value > (u64::MAX - d) / 10 || value * 10 + d > max {
            return None;
        }
        value = value * 10 + d;
        i = i + 1;
    }
    assert(digits.take(i - start) =~= digits);
    Some(value)
}

/// A number reads back as what it was written from.
pub proof fn decimal_reads_back(value: nat, max: nat)
    requires
        value <= max,
    ensures
        parsed(decimal(value), max) == Some(value),
{
    lemma_decimal_digits(value);
    let text = decimal(value);
    assert(is_digit(text[0]));
    assert(after_plus(text) == text);
}

pub proof fn lemma_decimal_digits(value: nat)
    ensures
        decimal(value).len() > 0,
        forall|i: int| 0 <= i < decimal(value).len() ==> is_digit(#[trigger] decimal(value)[i]),
        digits_value(decimal(value)) == value,
    decreases value,
{
    reveal_with_fuel(digits_value, 2);
    if value >= 10 {
        lemma_decimal_digits(value / 10);
        assert(decimal(value).drop_last() =~= decimal(value / 10));
    } else {
        assert(decimal(value).drop_last() =~= Seq::<char>::empty());
    }
}

/// A number is written without leading zeros.
pub proof fn lemma_no_leading_zero(value: nat)
    ensures
        decimal(value).len() == 1 || decimal(value)[0] != '0',
    decreases value,
{
    if value >= 10 {
        lemma_decimal_digits(value / 10);
        if value / 10 >= 10 {
            lemma_no_leading_zero(value / 10);
            lemma_decimal_digits(value / 100);
            assert(decimal(value / 10).len() > 1);
        }
        assert(decimal(value)[0] == decimal(value / 10)[0]);
    }
}

/// The parts of `text` between separators.
pub open spec fn split(text: Seq<char>, separator: char) -> Seq<Seq<char>>
    decreases text.len(),
{
    if text.len() == 0 {
        seq![Seq::empty()]
    } else {
        let rest = split(text.drop_last(), separator);
        if text.last() == separator {
            rest.push(Seq::empty())
        } else {
            rest.drop_last().push(rest.last().push(text.last()))
        }
    }
}

/// What the parts are as views.
pub open spec fn views(parts: Seq<Vec<char>>) -> Seq<Seq<char>> {
    parts.map_values(|part: Vec<char>| part@)
}

/// Split a text at its separators.
pub fn split_at(text: &[char], separator: char) -> (parts: Vec<Vec<char>>)
    ensures
        views(parts@) == split(text@, separator),
        parts@.len() > 0,
{
    let mut parts: Vec<Vec<char>> = Vec::new();
    let mut part: Vec<char> = Vec::new();
    let mut i: usize = 0;
    assert(text@.take(0) =~= Seq::<char>::empty());
    assert(views(parts@).push(part@) =~= split(text@.take(0), separator));
    while i < text.len()
        invariant
            i <= text@.len(),
            views(parts@).push(part@) == split(text@.take(i as int), separator),
        decreases text@.len() - i,
    {
        let c = text[i];
        let ghost before = views(parts@);
        let ghost current = part@;
        proof {
            assert(text@.take(i + 1).drop_last() =~= text@.take(i as int));
            assert(before.push(current).drop_last() =~= before);
        }
        if c == separator {
            let done = part;
            part = Vec::new();
            parts.push(done);
            assert(views(parts@) =~= before.push(current));
            assert(part@ =~= Seq::<char>::empty());
        } else {
            part.push(c);
        }
        i = i + 1;
    }
    assert(text@.take(i as int) =~= text@);
    let ghost before = views(parts@);
    let ghost current = part@;
    parts.push(part);
    assert(views(parts@) =~= before.push(current));
    parts
}

/// A text without separators is one part.
pub proof fn lemma_split_none(text: Seq<char>, separator: char)
    requires
        !text.contains(separator),
    ensures
        split(text, separator) == seq![text],
    decreases text.len(),
{
    if text.len() > 0 {
        assert(text[text.len() - 1] == text.last());
        let init = text.drop_last();
        assert(!init.contains(separator)) by {
            if init.contains(separator) {
                let i = choose|i: int| 0 <= i < init.len() && init[i] == separator;
                assert(text[i] == separator);
            }
        }
        lemma_split_none(init, separator);
        assert(init.push(text.last()) =~= text);
        assert(split(text, separator) =~= seq![text]);
    } else {
        assert(text =~= Seq::<char>::empty());
    }
}

/// What follows the last separator is the last part.
pub proof fn lemma_split_last(head: Seq<char>, tail: Seq<char>, separator: char)
    requires
        !tail.contains(separator),
    ensures
        split(head + seq![separator] + tail, separator) == split(head, separator).push(tail),
    decreases tail.len(),
{
    let text = head + seq![separator] + tail;
    if tail.len() == 0 {
        assert(text.drop_last() =~= head);
        assert(text.last() == separator);
        assert(tail =~= Seq::<char>::empty());
    } else {
        let init = tail.drop_last();
        assert(tail[tail.len() - 1] == tail.last());
        assert(!init.contains(separator)) by {
            if init.contains(separator) {
                let i = choose|i: int| 0 <= i < init.len() && init[i] == separator;
                assert(tail[i] == separator);
            }
        }
        lemma_split_last(head, init, separator);
        assert(text.drop_last() =~= head + seq![separator] + init);
        assert(text.last() == tail.last());
        assert(split(head, separator).push(init).drop_last() =~= split(head, separator));
        assert(init.push(tail.last()) =~= tail);
    }
}

/// Unicode's white space.
pub open spec fn is_space(c: char) -> bool {
    ||| '\u{9}' <= c <= '\u{d}'
    ||| c == ' '
    ||| c == '\u{85}'
    ||| c == '\u{a0}'
    ||| c == '\u{1680}'
    ||| '\u{2000}' <= c <= '\u{200a}'
    ||| c == '\u{2028}'
    ||| c == '\u{2029}'
    ||| c == '\u{202f}'
    ||| c == '\u{205f}'
    ||| c == '\u{3000}'
}

/// Whether a character is white space.
pub fn is_white(c: char) -> (space: bool)
    ensures
        space == is_space(c),
{
    ('\u{9}' <= c && c <= '\u{d}') || c == ' ' || c == '\u{85}' || c == '\u{a0}' || c == '\u{1680}'
        || ('\u{2000}' <= c && c <= '\u{200a}') || c == '\u{2028}' || c == '\u{2029}' || c
        == '\u{202f}' || c == '\u{205f}' || c == '\u{3000}'
}

/// `text` without white space at its start.
pub open spec fn trim_start(text: Seq<char>) -> Seq<char>
    decreases text.len(),
{
    if text.len() > 0 && is_space(text[0]) {
        trim_start(text.skip(1))
    } else {
        text
    }
}

/// `text` without white space at its end.
pub open spec fn trim_end(text: Seq<char>) -> Seq<char>
    decreases text.len(),
{
    if text.len() > 0 && is_space(text.last()) {
        trim_end(text.drop_last())
    } else {
        text
    }
}

/// `text` without white space around it.
pub open spec fn trimmed(text: Seq<char>) -> Seq<char> {
    trim_end(trim_start(text))
}

/// Take off the white space around a text.
pub fn trim(text: &str) -> (out: String)
    ensures
        out@ == trimmed(text@),
{
    let chars = to_chars(text);
    let mut from: usize = 0;
    assert(chars@.skip(0) =~= chars@);
    while from < chars.len() && is_white(chars[from])
        invariant
            from <= chars@.len(),
            trim_start(chars@.skip(from as int)) == trim_start(chars@),
        decreases chars@.len() - from,
    {
        assert(chars@.skip(from as int).skip(1) =~= chars@.skip(from + 1));
        from = from + 1;
    }
    let ghost rest = chars@.skip(from as int);
    assert(rest == trim_start(chars@));
    let mut to: usize = chars.len();
    assert(chars@.subrange(from as int, to as int) =~= rest);
    while to > from && is_white(chars[to - 1])
        invariant
            from <= to <= chars@.len(),
            trim_end(chars@.subrange(from as int, to as int)) == trim_end(rest),
        decreases to - from,
    {
        assert(chars@.subrange(from as int, to as int).drop_last() =~= chars@.subrange(
            from as int,
            to - 1,
        ));
        to = to - 1;
    }
    let mut kept: Vec<char> = Vec::new();
    let mut i: usize = from;
    while i < to
        invariant
            from <= i <= to <= chars@.len(),
            kept@ == chars@.subrange(from as int, i as int),
        decreases to - i,
    {
        kept.push(chars[i]);
        i = i + 1;
        assert(kept@ =~= chars@.subrange(from as int, i as int));
    }
    from_chars(&kept)
}

/// The characters of a text, and the text of characters, are the same ones.
pub proof fn characters_make_the_text(
    text: &str,
    chars: Vec<char>,
    slice: &[char],
    back: String,
    other: &str,
    joined: String,
)
    requires
        call_ensures(to_chars, (text,), chars),
        call_ensures(from_chars, (slice,), back),
        call_ensures(join, (text, other), joined),
    ensures
        chars@ == text@,
        back@ == slice@,
        joined@ == text@ + other@,
{
}

/// A number is written with the number without its last digit in front, and that
/// digit behind it.
pub proof fn decimals_end_in_their_last_digit(
    value: u64,
    text: String,
    without_last: String,
)
    requires
        call_ensures(to_decimal, (value,), text),
        call_ensures(to_decimal, (value / 10,), without_last),
    ensures
        value < 10 ==> text@ == seq![(48 + value) as char],
        value >= 10 ==> text@ == without_last@.push((48 + value % 10) as char),
{
    if value < 10 {
        assert(text@ =~= seq![(48 + value) as char]);
    }
}

/// A byte is written as its two halves, each a digit or a letter from a to f.
pub proof fn hex_has_two_halves(byte: u8, text: String)
    requires
        call_ensures(to_hex, (byte,), text),
    ensures
        text@.len() == 2,
        byte / 16 < 10 ==> text@[0] == (48 + byte / 16) as char,
        byte / 16 >= 10 ==> text@[0] == (87 + byte / 16) as char,
        byte % 16 < 10 ==> text@[1] == (48 + byte % 16) as char,
        byte % 16 >= 10 ==> text@[1] == (87 + byte % 16) as char,
{
}

/// A number that was written is read back, where the reader takes one as large.
pub proof fn written_numbers_are_read(
    value: u64,
    text: String,
    chars: &[char],
    max: u64,
    read: Option<u64>,
)
    requires
        call_ensures(to_decimal, (value,), text),
        chars@ == text@,
        call_ensures(parse_number, (chars, max), read),
    ensures
        value <= max ==> read == Some(value),
        value > max ==> read is None,
{
    lemma_decimal_digits(value as nat);
    if value <= max {
        decimal_reads_back(value as nat, max as nat);
    } else {
        let digits = text@;
        assert(is_digit(digits[0]));
        assert(after_plus(digits) == digits);
    }
}

/// Only digits are a number, with a plus before them or without; there is none
/// above the limit.
pub proof fn only_digits_are_numbers(chars: &[char], max: u64, read: Option<u64>)
    requires
        call_ensures(parse_number, (chars, max), read),
    ensures
        read matches Some(value) ==> value <= max,
        chars@.len() == 0 ==> read is None,
        chars@.len() == 1 && chars@[0] == '+' ==> read is None,
        forall|i: int|
            0 <= i < chars@.len() && !('0' <= #[trigger] chars@[i] <= '9') && !(i == 0 && chars@[0]
                == '+') ==> read is None,
        chars@.len() == 1 && '0' <= chars@[0] <= '9' && chars@[0] as nat - 48 <= max ==> read
            == Some((chars@[0] as nat - 48) as u64),
{
    let digits = after_plus(chars@);
    assert forall|i: int|
        0 <= i < chars@.len() && !('0' <= #[trigger] chars@[i] <= '9') && !(i == 0 && chars@[0]
            == '+') implies read is None by {
        if chars@[0] == '+' {
            assert(digits[i - 1] == chars@[i]);
        }
    }
    reveal_with_fuel(digits_value, 2);
    if chars@.len() == 1 && '0' <= chars@[0] <= '9' {
        assert(digits =~= chars@);
        assert(digits.drop_last().len() == 0);
        assert(digits_value(digits) == chars@[0] as nat - 48);
    }
}

/// One more digit makes a number ten times as large, and adds the digit.
pub proof fn digits_count_tenfold(
    chars: &[char],
    longer: &[char],
    digit: char,
    max: u64,
    read: Option<u64>,
    more: Option<u64>,
)
    requires
        '0' <= digit <= '9',
        longer@ == chars@.push(digit),
        call_ensures(parse_number, (chars, max), read),
        call_ensures(parse_number, (longer, max), more),
        read is Some,
    ensures
        ({
            let value = 10 * read->0 + (digit as nat - 48);
            &&& value <= max ==> more == Some(value as u64)
            &&& value > max ==> more is None
        }),
{
    let digits = after_plus(chars@);
    let all = after_plus(longer@);
    assert(all =~= digits.push(digit));
    assert(all.drop_last() =~= digits);
    assert forall|i: int| 0 <= i < all.len() implies is_digit(#[trigger] all[i]) by {
        if i < digits.len() {
            assert(is_digit(digits[i]));
        }
    }
}

/// A text without separators is one part.
pub proof fn whole_text_is_one_part(text: &[char], separator: char, parts: Vec<Vec<char>>)
    requires
        !text@.contains(separator),
        call_ensures(split_at, (text, separator), parts),
    ensures
        parts@.len() == 1,
        parts@[0]@ == text@,
{
    lemma_split_none(text@, separator);
    assert(views(parts@).len() == 1);
    assert(views(parts@)[0] == parts@[0]@);
}

/// What stands behind the last separator is the last part; the other parts are
/// those of what stands before it.
pub proof fn separators_end_their_parts(
    head: &[char],
    tail: Seq<char>,
    text: &[char],
    separator: char,
    before: Vec<Vec<char>>,
    parts: Vec<Vec<char>>,
)
    requires
        !tail.contains(separator),
        text@ == head@ + seq![separator] + tail,
        call_ensures(split_at, (head, separator), before),
        call_ensures(split_at, (text, separator), parts),
    ensures
        parts@.len() == before@.len() + 1,
        parts@.last()@ == tail,
        forall|i: int| 0 <= i < before@.len() ==> (#[trigger] parts@[i])@ == before@[i]@,
{
    lemma_split_last(head@, tail, separator);
    assert(views(parts@) == views(before@).push(tail));
    assert(views(parts@).last() == parts@.last()@);
    assert forall|i: int| 0 <= i < before@.len() implies (#[trigger] parts@[i])@ == before@[i]@ by {
        assert(views(parts@)[i] == parts@[i]@);
        assert(views(before@)[i] == before@[i]@);
    }
}

/// White space is what Unicode calls so.
pub proof fn white_space_is_unicodes(c: char, white: bool)
    requires
        call_ensures(is_white, (c,), white),
    ensures
        white <==> ('\u{9}' <= c <= '\u{d}' || c == ' ' || c == '\u{85}' || c == '\u{a0}' || c
            == '\u{1680}' || '\u{2000}' <= c <= '\u{200a}' || c == '\u{2028}' || c == '\u{2029}'
            || c == '\u{202f}' || c == '\u{205f}' || c == '\u{3000}'),
{
}

proof fn lemma_trim_start(text: Seq<char>) -> (from: int)
    ensures
        0 <= from <= text.len(),
        trim_start(text) == text.skip(from),
        forall|i: int| 0 <= i < from ==> is_space(#[trigger] text[i]),
        from < text.len() ==> !is_space(text[from]),
    decreases text.len(),
{
    if text.len() > 0 && is_space(text[0]) {
        let rest = text.skip(1);
        let from = lemma_trim_start(rest);
        assert(rest.skip(from) =~= text.skip(from + 1));
        assert forall|i: int| 0 <= i < from + 1 implies is_space(#[trigger] text[i]) by {
            if i > 0 {
                assert(rest[i - 1] == text[i]);
            }
        }
        if from + 1 < text.len() {
            assert(rest[from] == text[from + 1]);
        }
        from + 1
    } else {
        assert(text.skip(0) =~= text);
        0
    }
}

proof fn lemma_trim_end(text: Seq<char>) -> (to: int)
    ensures
        0 <= to <= text.len(),
        trim_end(text) == text.take(to),
        forall|i: int| to <= i < text.len() ==> is_space(#[trigger] text[i]),
        to > 0 ==> !is_space(text[to - 1]),
    decreases text.len(),
{
    if text.len() > 0 && is_space(text.last()) {
        let rest = text.drop_last();
        let to = lemma_trim_end(rest);
        assert(rest.take(to) =~= text.take(to));
        assert forall|i: int| to <= i < text.len() implies is_space(#[trigger] text[i]) by {
            if i < rest.len() {
                assert(rest[i] == text[i]);
            }
        }
        to
    } else {
        assert(text.take(text.len() as int) =~= text);
        text.len() as int
    }
}

/// Trimming takes off white space at both ends, all of it, and nothing else.
pub proof fn trimming_takes_only_white_space(text: &str, out: String) -> (range: (int, int))
    requires
        call_ensures(trim, (text,), out),
    ensures
        0 <= range.0 <= range.1 <= text@.len(),
        out@ == text@.subrange(range.0, range.1),
        forall|i: int| 0 <= i < range.0 ==> is_space(#[trigger] text@[i]),
        forall|i: int| range.1 <= i < text@.len() ==> is_space(#[trigger] text@[i]),
        out@.len() > 0 ==> !is_space(out@[0]) && !is_space(out@.last()),
{
    let from = lemma_trim_start(text@);
    let rest = text@.skip(from);
    let to = lemma_trim_end(rest);
    assert(rest.take(to) =~= text@.subrange(from, from + to));
    assert forall|i: int| from + to <= i < text@.len() implies is_space(#[trigger] text@[i]) by {
        assert(rest[i - from] == text@[i]);
    }
    if to > 0 {
        assert(out@[0] == text@[from]);
        assert(out@.last() == rest[to - 1]);
    }
    (from, from + to)
}

} // verus!
