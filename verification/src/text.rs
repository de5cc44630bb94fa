//! Small pieces of text: decimal numbers, whitespace, and the trailing slashes
//! of a URL.
use vstd::prelude::*;
use vstd::string::*;

verus! {

/// The decimal digit for a number below ten.
pub open spec fn digit(d: nat) -> char {
    (('0' as u32) + d) as char
}

/// A number written in decimal, without leading zeros.
pub open spec fn decimal(n: nat) -> Seq<char>
    decreases n,
{
    if n < 10 {
        seq![digit(n)]
    } else {
        decimal(n / 10).push(digit(n % 10))
    }
}

/// Whether a character is one of the ten decimal digits.
pub open spec fn is_digit(c: char) -> bool {
    '0' as u32 <= c as u32 <= '9' as u32
}

/// The number that a run of decimal digits stands for.
pub open spec fn decimal_value(s: Seq<char>) -> nat
    decreases s.len(),
{
    if s.len() == 0 {
        0
    } else {
        decimal_value(s.drop_last()) * 10 + (s.last() as u32 - '0' as u32) as nat
    }
}

/// Writing a number in decimal and reading it back gives the number.
pub proof fn law_decimal_reads_back(n: nat)
    ensures
        decimal(n).len() > 0,
        forall|i: int| 0 <= i < decimal(n).len() ==> is_digit(#[trigger] decimal(n)[i]),
        decimal_value(decimal(n)) == n,
    decreases n,
{
    if n < 10 {
        let s = decimal(n);
        assert(s.drop_last() =~= Seq::<char>::empty());
        assert(decimal_value(s.drop_last()) == 0);
    } else {
        law_decimal_reads_back(n / 10);
        let s = decimal(n);
        assert(s.drop_last() =~= decimal(n / 10));
    }
}

/// The text of one decimal digit.
fn digit_text(d: u64) -> (text: &'static str)
    requires
        d < 10,
    ensures
        text@ == seq![digit(d as nat)],
{
    proof {
        reveal_strlit("0");
        reveal_strlit("1");
        reveal_strlit("2");
        reveal_strlit("3");
        reveal_strlit("4");
        reveal_strlit("5");
        reveal_strlit("6");
        reveal_strlit("7");
        reveal_strlit("8");
        reveal_strlit("9");
    }
    match d {
        0 => "0",
        1 => "1",
        2 => "2",
        3 => "3",
        4 => "4",
        5 => "5",
        6 => "6",
        7 => "7",
        8 => "8",
        _ => "9",
    }
}

/// Write a number in decimal.
pub fn decimal_text(n: u64) -> (text: String)
    ensures
        text@ == decimal(n as nat),
    decreases n,
{
    if n < 10 {
        digit_text(n).to_owned()
    } else {
        decimal_text(n / 10).concat(digit_text(n % 10))
    }
}

/// The characters of a string, one by one.
pub fn chars_of(text: &str) -> (chars: Vec<char>)
    ensures
        chars@ == text@,
{
    let mut chars: Vec<char> = Vec::new();
    for c in it: text.chars()
        invariant
            chars@ == it.seq().take(it.index() as int),
            it.seq() == text@,
    {
        chars.push(c);
    }
    chars
}

/// Where the run of decimal digits that starts at `from` ends.
pub open spec fn digits_end(s: Seq<char>, from: int) -> int
    decreases s.len() - from,
{
    if 0 <= from < s.len() && is_digit(s[from]) {
        digits_end(s, from + 1)
    } else {
        from
    }
}

/// A run of digits that something else follows, or that ends the text, is read
/// to its end and no further.
pub proof fn lemma_digits_end(s: Seq<char>, from: int, to: int)
    requires
        0 <= from <= to <= s.len(),
        forall|i: int| from <= i < to ==> is_digit(#[trigger] s[i]),
        to < s.len() ==> !is_digit(s[to]),
    ensures
        digits_end(s, from) == to,
    decreases to - from,
{
    if from < to {
        lemma_digits_end(s, from + 1, to);
    }
}

/// Whether a character is a decimal digit.
fn is_decimal_digit(c: char) -> (res: bool)
    ensures
        res == is_digit(c),
{
    '0' as u32 <= c as u32 && c as u32 <= '9' as u32
}

/// Read the run of decimal digits that starts at `from`. Returns where the run
/// ends, and the number it stands for unless the run is empty or the number
/// does not fit in 64 bits.
pub fn read_number(chars: &Vec<char>, from: usize) -> (res: (Option<u64>, usize))
    requires
        from <= chars@.len(),
    ensures
        from <= res.1 <= chars@.len(),
        res.1 == digits_end(chars@, from as int),
        ({
            let run = chars@.subrange(from as int, res.1 as int);
            if run.len() > 0 && decimal_value(run) <= u64::MAX {
                res.0 == Some(decimal_value(run) as u64)
            } else {
                res.0 is None
            }
        }),
{
    let mut end: usize = from;
    let mut value: Option<u64> = Some(0);
    assert(chars@.subrange(from as int, from as int) =~= Seq::<char>::empty());
    while end < chars.len() && is_decimal_digit(chars[end])
        invariant
            from <= end <= chars@.len(),
            forall|i: int| from <= i < end ==> is_digit(#[trigger] chars@[i]),
            digits_end(chars@, from as int) == digits_end(chars@, end as int),
            match value {
                Some(v) => v == decimal_value(chars@.subrange(from as int, end as int)),
                None => decimal_value(chars@.subrange(from as int, end as int)) > u64::MAX,
            },
        decreases chars@.len() - end,
    {
        let d: u64 = (chars[end] as u32 - '0' as u32) as u64;
        assert(chars@.subrange(from as int, end + 1).drop_last() =~= chars@.subrange(
            from as int,
            end as int,
        ));
        value = match value {
            Some(v) => match v.checked_mul(10) {
                Some(tens) => tens.checked_add(d),
                None => None,
            },
            None => None,
        };
        end = end + 1;
    }
    proof {
        lemma_digits_end(chars@, from as int, end as int);
    }
    if end == from {
        (None, end)
    } else {
        (value, end)
    }
}

/// If `literal` stands at `from`, where it ends.
pub fn read_literal(chars: &Vec<char>, from: usize, literal: &str) -> (end: Option<usize>)
    requires
        from <= chars@.len(),
    ensures
        match end {
            Some(to) => {
                &&& to == from + literal@.len()
                &&& to <= chars@.len()
                &&& chars@.subrange(from as int, to as int) == literal@
            },
            None => from + literal@.len() > chars@.len() || chars@.subrange(
                from as int,
                from + literal@.len(),
            ) != literal@,
        },
{
    let expected: Vec<char> = chars_of(literal);
    if expected.len() > chars.len() - from {
        return None;
    }
    let mut i: usize = 0;
    while i < expected.len()
        invariant
            i <= expected@.len(),
            expected@ == literal@,
            from <= chars@.len(),
            from + expected.len() <= chars.len(),
            forall|j: int| 0 <= j < i ==> chars@[from + j] == #[trigger] expected@[j],
        decreases expected@.len() - i,
    {
        if chars[from + i] != expected[i] {
            assert(chars@.subrange(from as int, from + literal@.len())[i as int] != literal@[i as int]);
            return None;
        }
        i = i + 1;
    }
    assert(chars@.subrange(from as int, from + literal@.len()) =~= literal@);
    Some(from + expected.len())
}

/// Whether a character has the Unicode White_Space property.
pub open spec fn is_whitespace(c: char) -> bool {
    let code = c as u32;
    ||| 0x9 <= code <= 0xd
    ||| code == 0x20
    ||| code == 0x85
    ||| code == 0xa0
    ||| code == 0x1680
    ||| 0x2000 <= code <= 0x200a
    ||| code == 0x2028
    ||| code == 0x2029
    ||| code == 0x202f
    ||| code == 0x205f
    ||| code == 0x3000
}

/// `char::is_whitespace` of the standard library: it answers whether a character
/// has the Unicode White_Space property.
pub assume_specification[ char::is_whitespace ](c: char) -> (white: bool)
    ensures
        white == is_whitespace(c),
;

/// A text without its leading whitespace.
pub open spec fn trimmed_start(s: Seq<char>) -> Seq<char>
    decreases s.len(),
{
    if s.len() > 0 && is_whitespace(s[0]) {
        trimmed_start(s.drop_first())
    } else {
        s
    }
}

/// A text without its trailing whitespace.
pub open spec fn trimmed_end(s: Seq<char>) -> Seq<char>
    decreases s.len(),
{
    if s.len() > 0 && is_whitespace(s.last()) {
        trimmed_end(s.drop_last())
    } else {
        s
    }
}

/// A text without the whitespace at either end.
pub open spec fn trimmed(s: Seq<char>) -> Seq<char> {
    trimmed_end(trimmed_start(s))
}

/// Drop the whitespace at either end of a text.
pub fn trim(text: &str) -> (res: String)
    ensures
        res@ == trimmed(text@),
{
    let chars: Vec<char> = chars_of(text);
    let mut from: usize = 0;
    assert(text@.skip(0) =~= text@);
    while from < chars.len() && chars[from].is_whitespace()
        invariant
            from <= chars@.len(),
            chars@ == text@,
            trimmed_start(text@.skip(from as int)) == trimmed_start(text@),
        decreases chars@.len() - from,
    {
        assert(text@.skip(from as int).drop_first() =~= text@.skip(from + 1));
        from = from + 1;
    }
    let mut to: usize = chars.len();
    assert(text@.skip(from as int) =~= text@.subrange(from as int, to as int));
    while from < to && chars[to - 1].is_whitespace()
        invariant
            from <= to <= chars@.len(),
            chars@ == text@,
            trimmed_end(text@.subrange(from as int, to as int)) == trimmed(text@),
        decreases to,
    {
        assert(text@.subrange(from as int, to as int).drop_last() =~= text@.subrange(
            from as int,
            to - 1,
        ));
        to = to - 1;
    }
    text.substring_char(from, to).to_owned()
}

/// A text without the slashes it ends in.
pub open spec fn without_trailing_slashes(s: Seq<char>) -> Seq<char>
    decreases s.len(),
{
    if s.len() > 0 && s.last() == '/' {
        without_trailing_slashes(s.drop_last())
    } else {
        s
    }
}

/// Drop the slashes that a text ends in.
pub fn strip_trailing_slashes(text: &str) -> (res: String)
    ensures
        res@ == without_trailing_slashes(text@),
{
    let chars: Vec<char> = chars_of(text);
    let mut to: usize = chars.len();
    assert(text@.take(to as int) =~= text@);
    while 0 < to && chars[to - 1] == '/'
        invariant
            to <= chars@.len(),
            chars@ == text@,
            without_trailing_slashes(text@.take(to as int)) == without_trailing_slashes(text@),
        decreases to,
    {
        assert(text@.take(to as int).drop_last() =~= text@.take(to - 1));
        to = to - 1;
    }
    assert(text@.subrange(0, to as int) =~= text@.take(to as int));
    text.substring_char(0, to).to_owned()
}

/// Whether every character of a text is whitespace.
pub open spec fn is_blank(s: Seq<char>) -> bool {
    forall|i: int| 0 <= i < s.len() ==> is_whitespace(#[trigger] s[i])
}

/// Whether a text neither starts nor ends in whitespace.
pub open spec fn is_trim(s: Seq<char>) -> bool {
    s.len() > 0 ==> !is_whitespace(s[0]) && !is_whitespace(s.last())
}

/// Leading whitespace changes nothing about what is left without it.
proof fn lemma_trimmed_start(front: Seq<char>, s: Seq<char>)
    requires
        is_blank(front),
        s.len() > 0 ==> !is_whitespace(s[0]),
    ensures
        trimmed_start(front + s) == s,
    decreases front.len(),
{
    if front.len() > 0 {
        assert((front + s)[0] == front[0]);
        assert((front + s).drop_first() =~= front.drop_first() + s);
        assert forall|i: int| 0 <= i < front.drop_first().len() implies is_whitespace(
            #[trigger] front.drop_first()[i],
        ) by {
            assert(front.drop_first()[i] == front[i + 1]);
        }
        lemma_trimmed_start(front.drop_first(), s);
    } else {
        assert(front + s =~= s);
    }
}

/// Trailing whitespace changes nothing about what is left without it.
proof fn lemma_trimmed_end(s: Seq<char>, back: Seq<char>)
    requires
        is_blank(back),
        s.len() > 0 ==> !is_whitespace(s.last()),
    ensures
        trimmed_end(s + back) == s,
    decreases back.len(),
{
    if back.len() > 0 {
        assert((s + back).last() == back[back.len() - 1]);
        assert((s + back).drop_last() =~= s + back.drop_last());
        lemma_trimmed_end(s, back.drop_last());
    } else {
        assert(s + back =~= s);
    }
}

/// Nothing but the whitespace at either end is taken off, and all of that:
/// however a text is put together from whitespace, a text that neither starts
/// nor ends in whitespace, and more whitespace, trimming gives the middle.
pub proof fn law_trimming_takes_off_the_ends_only(
    front: Seq<char>,
    text: Seq<char>,
    back: Seq<char>,
)
    requires
        is_blank(front),
        is_blank(back),
        is_trim(text),
    ensures
        trimmed(front + text + back) == text,
{
    if text.len() > 0 {
        assert((front + text + back) =~= front + (text + back));
        lemma_trimmed_start(front, text + back);
        lemma_trimmed_end(text, back);
    } else {
        let all = front + text + back;
        assert(all =~= (front + back) + Seq::<char>::empty());
        lemma_trimmed_start(front + back, Seq::empty());
        assert(trimmed_start(all) =~= Seq::empty());
    }
}

/// What is left of leading whitespace taken off.
proof fn lemma_start_of(s: Seq<char>) -> (front: Seq<char>)
    ensures
        is_blank(front),
        s == front + trimmed_start(s),
        trimmed_start(s).len() > 0 ==> !is_whitespace(trimmed_start(s)[0]),
    decreases s.len(),
{
    if s.len() > 0 && is_whitespace(s[0]) {
        let rest = lemma_start_of(s.drop_first());
        let front = seq![s[0]] + rest;
        assert(s =~= seq![s[0]] + s.drop_first());
        assert(seq![s[0]] + (rest + trimmed_start(s)) =~= front + trimmed_start(s));
        front
    } else {
        assert(s =~= Seq::<char>::empty() + s);
        Seq::empty()
    }
}

/// What is left of trailing whitespace taken off.
proof fn lemma_end_of(s: Seq<char>) -> (back: Seq<char>)
    ensures
        is_blank(back),
        s == trimmed_end(s) + back,
        trimmed_end(s).len() > 0 ==> !is_whitespace(trimmed_end(s).last()),
    decreases s.len(),
{
    if s.len() > 0 && is_whitespace(s.last()) {
        let rest = lemma_end_of(s.drop_last());
        let back = rest.push(s.last());
        assert(s =~= s.drop_last().push(s.last()));
        assert((trimmed_end(s) + rest).push(s.last()) =~= trimmed_end(s) + back);
        back
    } else {
        assert(s =~= s + Seq::<char>::empty());
        Seq::empty()
    }
}

/// Every text is whitespace, its trimmed text, and whitespace; and the trimmed
/// text neither starts nor ends in whitespace.
pub proof fn law_a_text_is_its_trimmed_text_and_whitespace(s: Seq<char>)
    ensures
        is_trim(trimmed(s)),
        exists|front: Seq<char>, back: Seq<char>|
            is_blank(front) && is_blank(back) && s == #[trigger] (front + trimmed(s) + back),
{
    let front = lemma_start_of(s);
    let inner = trimmed_start(s);
    let back = lemma_end_of(inner);
    assert(s =~= front + trimmed(s) + back);
    if trimmed(s).len() > 0 {
        assert(trimmed(s)[0] == inner[0]);
    }
}

/// Only the slashes at the end are taken off, and all of them: whatever ends in
/// no slash is what is left of it with any number of slashes behind it.
pub proof fn law_only_trailing_slashes_are_taken_off(s: Seq<char>, slashes: Seq<char>)
    requires
        s.len() > 0 ==> s.last() != '/',
        forall|i: int| 0 <= i < slashes.len() ==> #[trigger] slashes[i] == '/',
    ensures
        without_trailing_slashes(s + slashes) == s,
    decreases slashes.len(),
{
    if slashes.len() > 0 {
        assert((s + slashes).last() == slashes[slashes.len() - 1]);
        assert((s + slashes).drop_last() =~= s + slashes.drop_last());
        law_only_trailing_slashes_are_taken_off(s, slashes.drop_last());
    } else {
        assert(s + slashes =~= s);
    }
}

/// A digit more is ten times the number and the digit: `0` to `9` stand for the
/// numbers that they are placed at from `0`.
pub proof fn law_a_digit_more_is_ten_times_as_much(s: Seq<char>, c: char)
    ensures
        decimal_value(Seq::empty()) == 0,
        is_digit(c) ==> decimal_value(s.push(c)) == 10 * decimal_value(s) + (c as u32 - 48),
        is_digit(c) <==> 48 <= c as u32 <= 57,
{
    assert(s.push(c).drop_last() =~= s);
}

/// A number is written in the one way without leading zeros: a run of digits
/// that is a single digit, or does not start with a zero, is what the number it
/// stands for is written as.
pub proof fn law_decimal_has_no_leading_zeros(s: Seq<char>)
    requires
        s.len() > 0,
        forall|i: int| 0 <= i < s.len() ==> is_digit(#[trigger] s[i]),
        s.len() > 1 ==> s[0] != '0',
    ensures
        decimal(decimal_value(s)) == s,
        s.len() > 1 ==> decimal_value(s) >= 10,
    decreases s.len(),
{
    let front = s.drop_last();
    let last = (s.last() as u32 - '0' as u32) as nat;
    assert(s =~= front.push(s.last()));
    assert(is_digit(s[s.len() - 1]));
    vstd::utf8::char_u32_cast(s.last(), s.last() as u32);
    assert('0' as u32 + last == s.last() as u32);
    assert(digit(last) == s.last());
    if s.len() == 1 {
        assert(decimal_value(front) == 0);
        assert(decimal(decimal_value(s)) =~= s);
    } else {
        assert forall|i: int| 0 <= i < front.len() implies is_digit(#[trigger] front[i]) by {
            assert(front[i] == s[i]);
        }
        law_decimal_has_no_leading_zeros(front);
        if front.len() == 1 {
            assert(front.drop_last() =~= Seq::<char>::empty());
            assert(decimal_value(front.drop_last()) == 0);
            assert(front[0] == s[0]);
            assert(decimal_value(front) > 0);
        }
        let n = decimal_value(s);
        assert(n == decimal_value(front) * 10 + last);
        assert(n / 10 == decimal_value(front));
        assert(n % 10 == last);
        assert(decimal(n) =~= s);
    }
}

/// A run of digits is read as far as it goes and no further.
pub proof fn law_a_run_of_digits_ends_at_the_first_other(s: Seq<char>, from: int)
    requires
        0 <= from <= s.len(),
    ensures
        from <= digits_end(s, from) <= s.len(),
        forall|i: int| from <= i < digits_end(s, from) ==> is_digit(#[trigger] s[i]),
        digits_end(s, from) < s.len() ==> !is_digit(s[digits_end(s, from)]),
    decreases s.len() - from,
{
    if from < s.len() && is_digit(s[from]) {
        law_a_run_of_digits_ends_at_the_first_other(s, from + 1);
    }
}

} // verus!
