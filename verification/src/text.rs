//! Text that messages are made of: decimal numbers, and the reading of tuning
//! values.

use vstd::prelude::*;
use vstd::string::*;

verus! {

/// The text of a decimal digit.
pub open spec fn digit_text(d: int) -> Seq<char> {
    if d == 0 {
        "0"@
    } else if d == 1 {
        "1"@
    } else if d == 2 {
        "2"@
    } else if d == 3 {
        "3"@
    } else if d == 4 {
        "4"@
    } else if d == 5 {
        "5"@
    } else if d == 6 {
        "6"@
    } else if d == 7 {
        "7"@
    } else if d == 8 {
        "8"@
    } else {
        "9"@
    }
}

/// The decimal text of a number.
pub open spec fn decimal_text(n: nat) -> Seq<char>
    decreases n,
{
    if n < 10 {
        digit_text(n as int)
    } else {
        decimal_text(n / 10) + digit_text((n % 10) as int)
    }
}

fn digit(d: u64) -> (r: &'static str)
    requires
        d < 10,
    ensures
        r@ == digit_text(d as int),
{
    match d {
        0 => "0",
        1 => "1",
        2 => "2",
        3 => "3",
        4 => "4",
        5 => "5",
        6 => "6",
        7 => "7",
        8 => "8",
        _ => "9",
    }
}

/// The decimal text of a number.
pub fn decimal(n: u64) -> (r: String)
    ensures
        r@ == decimal_text(n as nat),
    decreases n,
{
    if n < 10 {
        String::from_str(digit(n))
    } else {
        let mut s = decimal(n / 10);
        s.append(digit(n % 10));
        s
    }
}

/// Append the decimal text of a number.
pub fn append_decimal(s: &mut String, n: u64)
    ensures
        final(s)@ == old(s)@ + decimal_text(n as nat),
{
    let d = decimal(n);
    s.append(d.as_str());
}

/// The decimal text of a wide number.
pub fn wide_decimal(n: u128) -> (r: String)
    ensures
        r@ == decimal_text(n as nat),
    decreases n,
{
    if n < 10 {
        String::from_str(digit(n as u64))
    } else {
        let mut s = wide_decimal(n / 10);
        s.append(digit((n % 10) as u64));
        s
    }
}

/// The text of a hexadecimal digit.
pub open spec fn hex_digit_text(d: int) -> Seq<char> {
    if d < 10 {
        digit_text(d)
    } else if d == 10 {
        "a"@
    } else if d == 11 {
        "b"@
    } else if d == 12 {
        "c"@
    } else if d == 13 {
        "d"@
    } else if d == 14 {
        "e"@
    } else {
        "f"@
    }
}

/// The hexadecimal text of a number.
pub open spec fn hex_text(n: nat) -> Seq<char>
    decreases n,
{
    if n < 16 {
        hex_digit_text(n as int)
    } else {
        hex_text(n / 16) + hex_digit_text((n % 16) as int)
    }
}

fn hex_digit(d: u64) -> (r: &'static str)
    requires
        d < 16,
    ensures
        r@ == hex_digit_text(d as int),
{
    match d {
        10 => "a",
        11 => "b",
        12 => "c",
        13 => "d",
        14 => "e",
        15 => "f",
        _ => digit(d),
    }
}

/// The hexadecimal text of a number, without a prefix.
pub fn hexadecimal(n: u64) -> (r: String)
    ensures
        r@ == hex_text(n as nat),
    decreases n,
{
    if n < 16 {
        String::from_str(hex_digit(n))
    } else {
        let mut s = hexadecimal(n / 16);
        s.append(hex_digit(n % 16));
        s
    }
}

/// The decimal text of a signed number.
pub open spec fn signed_text(n: int) -> Seq<char> {
    if n < 0 {
        "-"@ + decimal_text((-n) as nat)
    } else {
        decimal_text(n as nat)
    }
}

/// Append the decimal text of a signed number.
pub fn append_signed(s: &mut String, n: i32)
    ensures
        final(s)@ == old(s)@ + signed_text(n as int),
{
    if n < 0 {
        s.append("-");
        append_decimal(s, (-(n as i64)) as u64);
        proof {
            assert(old(s)@ + "-"@ + decimal_text((-n) as nat) =~= old(s)@ + ("-"@ + decimal_text(
                (-n) as nat,
            )));
        }
    } else {
        append_decimal(s, n as u64);
    }
}

/// White space, as Unicode lists it.
pub open spec fn whitespace(c: char) -> bool {
    let u = c as u32;
    (9 <= u <= 13) || u == 32 || u == 0x85 || u == 0xa0 || u == 0x1680 || (0x2000 <= u <= 0x200a)
        || u == 0x2028 || u == 0x2029 || u == 0x202f || u == 0x205f || u == 0x3000
}

fn is_whitespace(c: char) -> (r: bool)
    ensures
        r == whitespace(c),
{
    let u: u32 = c as u32;
    (9 <= u && u <= 13) || u == 32 || u == 0x85 || u == 0xa0 || u == 0x1680 || (0x2000 <= u && u
        <= 0x200a) || u == 0x2028 || u == 0x2029 || u == 0x202f || u == 0x205f || u == 0x3000
}

/// A text without the white space before it.
pub open spec fn trim_start(s: Seq<char>) -> Seq<char>
    decreases s.len(),
{
    if s.len() > 0 && whitespace(s[0]) {
        trim_start(s.drop_first())
    } else {
        s
    }
}

/// A text without the white space after it.
pub open spec fn trim_end(s: Seq<char>) -> Seq<char>
    decreases s.len(),
{
    if s.len() > 0 && whitespace(s.last()) {
        trim_end(s.drop_last())
    } else {
        s
    }
}

/// A text without the white space around it.
pub open spec fn trimmed(s: Seq<char>) -> Seq<char> {
    trim_end(trim_start(s))
}

/// The value of a character as a decimal digit.
pub open spec fn digit_value(c: char) -> int {
    c as u32 - 48
}

pub open spec fn is_digit(c: char) -> bool {
    48 <= c as u32 <= 57
}

/// The number a row of digits spells.
pub open spec fn digits_value(s: Seq<char>) -> nat
    decreases s.len(),
{
    if s.len() == 0 {
        0
    } else {
        (10 * digits_value(s.drop_last()) + digit_value(s.last())) as nat
    }
}

/// The number that digits spell, where there is at least one and nothing else.
pub open spec fn unsigned(digits: Seq<char>) -> Option<nat> {
    if digits.len() > 0 && forall|i: int| 0 <= i < digits.len() ==> is_digit(#[trigger] digits[i]) {
        Some(digits_value(digits))
    } else {
        None
    }
}

/// A text without a leading plus sign.
pub open spec fn without_plus(s: Seq<char>) -> Seq<char> {
    if s.len() > 0 && s[0] as u32 == 43 {
        s.drop_first()
    } else {
        s
    }
}

/// An unsigned number: an optional plus sign, then digits only, at least one.
pub open spec fn number(s: Seq<char>) -> Option<nat> {
    unsigned(without_plus(s))
}

/// A budget read from a text: the number that stands in it between white
/// space, where it is at least one and at most `limit`.
pub open spec fn budget(text: Option<Seq<char>>, limit: nat) -> Option<nat> {
    match text {
        None => None,
        Some(s) => match number(trimmed(s)) {
            None => None,
            Some(n) => if 0 < n <= limit {
                Some(n)
            } else {
                None
            },
        },
    }
}

/// The characters of a text.
fn characters(s: &str) -> (r: Vec<char>)
    ensures
        r@ == s@,
{
    let n: usize = s.unicode_len();
    let mut out: Vec<char> = Vec::new();
    let mut i: usize = 0;
    while i < n
        invariant
            i <= n == s@.len(),
            out@ == s@.take(i as int),
        decreases n - i,
    {
        out.push(s.get_char(i));
        proof {
            assert(s@.take(i as int).push(s@[i as int]) =~= s@.take(i + 1));
        }
        i += 1;
    }
    proof {
        assert(s@.take(i as int) =~= s@);
    }
    out
}

/// The bounds of a text without the white space around it.
fn trim_bounds(s: &Vec<char>) -> (r: (usize, usize))
    ensures
        r.0 <= r.1 <= s.len(),
        s@.subrange(r.0 as int, r.1 as int) == trimmed(s@),
{
    let mut lo: usize = 0;
    proof {
        assert(s@.subrange(0, s@.len() as int) =~= s@);
    }
    while lo < s.len() && is_whitespace(s[lo])
        invariant
            lo <= s.len(),
            trim_start(s@) == trim_start(s@.subrange(lo as int, s@.len() as int)),
        decreases s.len() - lo,
    {
        proof {
            let rest = s@.subrange(lo as int, s@.len() as int);
            assert(rest.drop_first() =~= s@.subrange(lo + 1, s@.len() as int));
        }
        lo += 1;
    }
    proof {
        let rest = s@.subrange(lo as int, s@.len() as int);
        if lo < s.len() {
            assert(rest[0] == s@[lo as int]);
        }
        assert(trim_start(s@) == rest);
    }
    let mut hi: usize = s.len();
    while hi > lo && is_whitespace(s[hi - 1])
        invariant
            lo <= hi <= s.len(),
            trim_end(trim_start(s@)) == trim_end(s@.subrange(lo as int, hi as int)),
        decreases hi,
    {
        proof {
            let rest = s@.subrange(lo as int, hi as int);
            assert(rest.drop_last() =~= s@.subrange(lo as int, hi - 1));
        }
        hi -= 1;
    }
    proof {
        let rest = s@.subrange(lo as int, hi as int);
        if hi > lo {
            assert(rest.last() == s@[hi - 1]);
        }
    }
    (lo, hi)
}

/// A text without the white space around it.
pub fn trim(s: &str) -> (r: &str)
    ensures
        r@ == trimmed(s@),
{
    let c: Vec<char> = characters(s);
    let (lo, hi): (usize, usize) = trim_bounds(&c);
    s.substring_char(lo, hi)
}

/// Read a budget of at most `limit` from the text of a tuning variable.
pub fn read_budget(text: Option<&str>, limit: u64) -> (r: Option<u64>)
    ensures
        match r {
            Some(n) => budget(
                match text {
                    Some(s) => Some(s@),
                    None => None,
                },
                limit as nat,
            ) == Some(n as nat),
            None => budget(
                match text {
                    Some(s) => Some(s@),
                    None => None,
                },
                limit as nat,
            ) is None,
        },
{
    let s: Vec<char> = match text {
        Some(s) => characters(s),
        None => return None,
    };
    let (lo, hi): (usize, usize) = trim_bounds(&s);
    let ghost body = trimmed(s@);
    let signed: bool = lo < hi && s[lo] as u32 == 43;
    let start: usize = if signed {
        lo + 1
    } else {
        lo
    };
    let ghost digits = s@.subrange(start as int, hi as int);
    proof {
        if signed {
            assert(body[0] == s@[lo as int]);
            assert(digits =~= body.drop_first());
        } else {
            assert(digits =~= body);
            if body.len() > 0 {
                assert(body[0] == s@[lo as int]);
            }
        }
    }
    proof {
        assert(digits == without_plus(body));
    }
    if start >= hi {
        return None;
    }
    let mut value: u64 = 0;
    let mut over: bool = false;
    let mut i: usize = start;
    proof {
        assert(digits.take(0) =~= Seq::<char>::empty());
    }
    while i < hi
        invariant
            start <= i <= hi <= s.len(),
            digits == s@.subrange(start as int, hi as int),
            forall|j: int| 0 <= j < i - start ==> is_digit(#[trigger] digits[j]),
            !over ==> value == digits_value(digits.take(i - start)),
            over ==> digits_value(digits.take(i - start)) > u64::MAX,
            number(body) == unsigned(digits),
            text is Some,
            text->0@ == s@,
            body == trimmed(s@),
        decreases hi - i,
    {
        let u: u32 = s[i] as u32;
        proof {
            assert(digits[i - start] == s@[i as int]);
            assert(digits.take(i - start + 1).drop_last() =~= digits.take(i - start));
            assert(digits.take(i - start + 1).last() == s@[i as int]);
        }
        if u < 48 || u > 57 {
            proof {
                assert(!is_digit(digits[i - start]));
            }
            return None;
        }
        if !over {
            let d: u64 = (u - 48) as u64;
            match value.checked_mul(10) {
                Some(tens) => match tens.checked_add(d) {
                    Some(next) => {
                        value = next;
                    },
                    None => {
                        over = true;
                    },
                },
                None => {
                    over = true;
                },
            }
        }
        i += 1;
    }
    proof {
        assert(digits.take(i - start) =~= digits);
    }
    if over || value == 0 || value > limit {
        None
    } else {
        Some(value)
    }
}

proof fn lemma_digit_texts(d: int)
    requires
        0 <= d < 10,
    ensures
        digit_text(d).len() == 1,
        digit_text(d)[0] as u32 == 48 + d,
{
    reveal_strlit("0");
    reveal_strlit("1");
    reveal_strlit("2");
    reveal_strlit("3");
    reveal_strlit("4");
    reveal_strlit("5");
    reveal_strlit("6");
    reveal_strlit("7");
    reveal_strlit("8");
    reveal_strlit("9");
}

/// The text of a number is digits alone, spells the number, and has no zero in
/// front but where it is nothing else.
pub proof fn law_decimal_text_spells_the_number(n: nat)
    ensures
        decimal_text(n).len() >= 1,
        forall|i: int| 0 <= i < decimal_text(n).len() ==> 48 <= #[trigger] decimal_text(n)[i] as u32
            <= 57,
        digits_value(decimal_text(n)) == n,
        n > 0 ==> decimal_text(n)[0] as u32 != 48,
    decreases n,
{
    if n < 10 {
        lemma_digit_texts(n as int);
        assert(decimal_text(n).drop_last() =~= Seq::<char>::empty());
        assert(digits_value(Seq::<char>::empty()) == 0);
    } else {
        law_decimal_text_spells_the_number(n / 10);
        lemma_digit_texts((n % 10) as int);
        assert(decimal_text(n).drop_last() =~= decimal_text(n / 10));
    }
}

/// Digits are worth ten times as much for every digit behind them.
pub proof fn law_digits_are_read_to_base_ten(s: Seq<char>, c: char)
    requires
        48 <= c as u32 <= 57,
    ensures
        digits_value(Seq::<char>::empty()) == 0,
        digits_value(s.push(c)) == 10 * digits_value(s) + (c as u32 - 48),
        is_digit(c),
{
    assert(s.push(c).drop_last() =~= s);
}

/// The number that hexadecimal digits spell.
pub open spec fn hex_digits_value(s: Seq<char>) -> int
    decreases s.len(),
{
    if s.len() == 0 {
        0
    } else {
        let u = s.last() as u32;
        16 * hex_digits_value(s.drop_last()) + (if u < 97 {
            u - 48
        } else {
            u - 87
        })
    }
}

proof fn lemma_hex_digit_texts(d: int)
    requires
        0 <= d < 16,
    ensures
        hex_digit_text(d).len() == 1,
        d < 10 ==> hex_digit_text(d)[0] as u32 == 48 + d,
        d >= 10 ==> hex_digit_text(d)[0] as u32 == 87 + d,
{
    if d < 10 {
        lemma_digit_texts(d);
    }
    reveal_strlit("a");
    reveal_strlit("b");
    reveal_strlit("c");
    reveal_strlit("d");
    reveal_strlit("e");
    reveal_strlit("f");
}

/// The hexadecimal text of a number is lower-case digits that spell it.
pub proof fn law_hex_text_spells_the_number(n: nat)
    ensures
        hex_text(n).len() >= 1,
        forall|i: int|
            0 <= i < hex_text(n).len() ==> 48 <= #[trigger] hex_text(n)[i] as u32 <= 57 || 97
                <= hex_text(n)[i] as u32 <= 102,
        hex_digits_value(hex_text(n)) == n,
        n > 0 ==> hex_text(n)[0] as u32 != 48,
    decreases n,
{
    if n < 16 {
        lemma_hex_digit_texts(n as int);
        assert(hex_text(n).drop_last() =~= Seq::<char>::empty());
        assert(hex_digits_value(Seq::<char>::empty()) == 0);
    } else {
        law_hex_text_spells_the_number(n / 16);
        lemma_hex_digit_texts((n % 16) as int);
        assert(hex_text(n).drop_last() =~= hex_text(n / 16));
    }
}

/// The text of a negative number is a minus sign and the number's size.
pub proof fn law_signed_text_has_a_sign(n: int)
    ensures
        n >= 0 ==> digits_value(signed_text(n)) == n && 48 <= signed_text(n)[0] as u32 <= 57,
        n < 0 ==> signed_text(n)[0] as u32 == 45 && digits_value(signed_text(n).drop_first()) == -n,
{
    reveal_strlit("-");
    if n >= 0 {
        law_decimal_text_spells_the_number(n as nat);
    } else {
        law_decimal_text_spells_the_number((-n) as nat);
        assert(signed_text(n).drop_first() =~= decimal_text((-n) as nat));
    }
}

/// A trimmed text is the part of the text between white space: it neither begins
/// nor ends with any, and everything around it is.
pub proof fn law_trimming_removes_the_white_space_around(s: Seq<char>) -> (at: (int, int))
    ensures
        0 <= at.0 <= at.1 <= s.len(),
        trimmed(s) == s.subrange(at.0, at.1),
        forall|i: int| 0 <= i < at.0 ==> whitespace(#[trigger] s[i]),
        forall|i: int| at.1 <= i < s.len() ==> whitespace(#[trigger] s[i]),
        at.0 < at.1 ==> !whitespace(s[at.0]) && !whitespace(s[at.1 - 1]),
{
    let lo = lemma_trim_start(s);
    let rest = s.subrange(lo, s.len() as int);
    let n = lemma_trim_end(rest);
    assert(trimmed(s) =~= s.subrange(lo, lo + n));
    assert forall|i: int| lo + n <= i < s.len() implies whitespace(#[trigger] s[i]) by {
        assert(rest[i - lo] == s[i]);
    }
    if n > 0 {
        assert(rest[0] == s[lo] && rest[n - 1] == s[lo + n - 1]);
    }
    (lo, lo + n)
}

proof fn lemma_trim_start(s: Seq<char>) -> (lo: int)
    ensures
        0 <= lo <= s.len(),
        trim_start(s) == s.subrange(lo, s.len() as int),
        forall|i: int| 0 <= i < lo ==> whitespace(#[trigger] s[i]),
        lo < s.len() ==> !whitespace(s[lo]),
    decreases s.len(),
{
    if s.len() > 0 && whitespace(s[0]) {
        let rest = s.drop_first();
        let lo = lemma_trim_start(rest);
        assert(rest.subrange(lo, rest.len() as int) =~= s.subrange(lo + 1, s.len() as int));
        assert forall|i: int| 0 <= i < lo + 1 implies whitespace(#[trigger] s[i]) by {
            if i > 0 {
                assert(rest[i - 1] == s[i]);
            }
        }
        lo + 1
    } else {
        assert(s.subrange(0, s.len() as int) =~= s);
        0
    }
}

proof fn lemma_trim_end(s: Seq<char>) -> (n: int)
    ensures
        0 <= n <= s.len(),
        trim_end(s) == s.subrange(0, n),
        forall|i: int| n <= i < s.len() ==> whitespace(#[trigger] s[i]),
        n > 0 ==> !whitespace(s[n - 1]),
    decreases s.len(),
{
    if s.len() > 0 && whitespace(s.last()) {
        let rest = s.drop_last();
        let n = lemma_trim_end(rest);
        assert(rest.subrange(0, n) =~= s.subrange(0, n));
        assert forall|i: int| n <= i < s.len() implies whitespace(#[trigger] s[i]) by {
            if i < s.len() - 1 {
                assert(rest[i] == s[i]);
            }
        }
        n
    } else {
        assert(s.subrange(0, s.len() as int) =~= s);
        s.len() as int
    }
}

/// Of the ASCII characters, the space and those from the tab to the carriage
/// return are white space.
pub proof fn law_ascii_white_space(c: char)
    requires
        (c as u32) < 128,
    ensures
        whitespace(c) <==> c as u32 == 32 || 9 <= c as u32 <= 13,
        is_digit(c) ==> !whitespace(c),
{
}

/// A budget is read as the number that its text spells, where that is from 1 to
/// the limit: a printed number reads back, with or without a plus sign in front,
/// and no text, or a number out of range, gives no budget.
pub proof fn law_printed_budget_reads_back(n: nat, limit: nat)
    ensures
        budget(Some(decimal_text(n)), limit) == (if 1 <= n <= limit {
            Some(n)
        } else {
            None
        }),
        budget(Some(seq!['+'] + decimal_text(n)), limit) == (if 1 <= n <= limit {
            Some(n)
        } else {
            None
        }),
        budget(None, limit) is None,
{
    let s = decimal_text(n);
    law_decimal_text_spells_the_number(n);
    assert forall|i: int| 0 <= i < s.len() implies is_digit(#[trigger] s[i]) by {}
    lemma_digits_are_not_trimmed(s);
    assert(trimmed(s) == s);
    assert(without_plus(s) == s);
    let p = seq!['+'] + s;
    assert('+' as u32 == 43);
    assert(p[0] == '+');
    assert(p.last() == s.last());
    assert(trimmed(p) == p);
    assert(without_plus(p) =~= s);
}

proof fn lemma_digits_are_not_trimmed(s: Seq<char>)
    requires
        s.len() > 0,
        forall|i: int| 0 <= i < s.len() ==> is_digit(#[trigger] s[i]),
    ensures
        trimmed(s) == s,
{
    assert(is_digit(s[0]) && is_digit(s[s.len() - 1]));
}

/// A budget is a number between 1 and the limit that the trimmed text spells in
/// digits alone, after at most one plus sign.
pub proof fn law_budgets_are_spelled_in_digits(text: Seq<char>, limit: nat)
    requires
        budget(Some(text), limit) is Some,
    ensures
        ({
            let body = trimmed(text);
            let digits = if body.len() > 0 && body[0] as u32 == 43 {
                body.drop_first()
            } else {
                body
            };
            &&& 1 <= budget(Some(text), limit)->0 <= limit
            &&& digits.len() > 0
            &&& forall|i: int| 0 <= i < digits.len() ==> 48 <= #[trigger] digits[i] as u32 <= 57
            &&& budget(Some(text), limit)->0 == digits_value(digits)
        }),
{
    let digits = without_plus(trimmed(text));
    assert forall|i: int| 0 <= i < digits.len() implies 48 <= #[trigger] digits[i] as u32 <= 57 by {
        assert(is_digit(digits[i]));
    }
}

} // verus!
