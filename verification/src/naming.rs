//! Default titles for documents created without one.

use vstd::prelude::*;
use crate::strings::{chars_of, starts_with_chars, views};

verus! {

/// The title given to the first untitled document of a folder.
pub open spec fn default_title() -> Seq<char> {
    "Untitled"@
}

/// What precedes the number in the later default titles.
pub open spec fn numbered_prefix() -> Seq<char> {
    "Untitled_"@
}

/// Tells whether `c` is a decimal digit.
pub open spec fn is_digit(c: char) -> bool {
    '0' <= c <= '9'
}

/// The number that a decimal digit writes.
pub open spec fn digit_value(c: char) -> nat {
    (c as u32 - '0' as u32) as nat
}

/// The decimal digit that writes a number below 10.
pub open spec fn digit_char(d: nat) -> char {
    (d + '0' as u32) as char
}

/// Tells whether `s` holds decimal digits only.
pub open spec fn all_digits(s: Seq<char>) -> bool {
    forall|i: int| 0 <= i < s.len() ==> is_digit(#[trigger] s[i])
}

/// The number that a sequence of decimal digits writes.
pub open spec fn decimal_value(s: Seq<char>) -> nat
    decreases s.len(),
{
    if s.len() == 0 {
        0
    } else {
        decimal_value(s.drop_last()) * 10 + digit_value(s.last())
    }
}

/// The decimal digits of `n`, without leading zeros.
pub open spec fn decimal_digits(n: nat) -> Seq<char>
    decreases n,
{
    if n < 10 {
        seq![digit_char(n)]
    } else {
        decimal_digits(n / 10).push(digit_char(n % 10))
    }
}

/// The digits of a numeric suffix: an optional `+` sign is dropped.
pub open spec fn unsigned_part(s: Seq<char>) -> Seq<char> {
    if s.len() > 0 && s[0] == '+' {
        s.drop_first()
    } else {
        s
    }
}

/// The number that `s` writes: an optional `+`, then one or more decimal
/// digits, with a value that fits in 32 bits.
pub open spec fn parse_number(s: Seq<char>) -> Option<nat> {
    let digits = unsigned_part(s);
    if digits.len() > 0 && all_digits(digits) && decimal_value(digits) <= u32::MAX {
        Some(decimal_value(digits))
    } else {
        None
    }
}

/// The numeric suffix of a default title such as `Untitled_7`.
pub open spec fn title_suffix(title: Seq<char>) -> Option<nat> {
    if numbered_prefix().is_prefix_of(title) {
        parse_number(title.skip(numbered_prefix().len() as int))
    } else {
        None
    }
}

/// The largest numeric suffix among the first `n` titles, 0 when there is none.
pub open spec fn max_suffix(titles: Seq<Seq<char>>, n: int) -> nat
    decreases n,
{
    if n <= 0 {
        0
    } else {
        let rest = max_suffix(titles, n - 1);
        match title_suffix(titles[n - 1]) {
            Some(k) => if k > rest { k } else { rest },
            None => rest,
        }
    }
}

/// The number of the next default title: one more than the largest suffix in
/// use, and never less than 2.
pub open spec fn next_number(titles: Seq<Seq<char>>) -> nat {
    let m = max_suffix(titles, titles.len() as int);
    if m + 1 < 2 { 2 } else { m + 1 }
}

/// The first default title that is free among `titles`.
pub open spec fn untitled_name(titles: Seq<Seq<char>>) -> Seq<char> {
    if !titles.contains(default_title()) {
        default_title()
    } else {
        numbered_prefix() + decimal_digits(next_number(titles))
    }
}

/// The digits that a number begins with write no more than the number.
pub proof fn lemma_decimal_value_prefix(s: Seq<char>, k: int)
    requires
        0 <= k <= s.len(),
    ensures
        decimal_value(s.take(k)) <= decimal_value(s),
    decreases s.len() - k,
{
    if k == s.len() {
        assert(s.take(k) =~= s);
    } else {
        lemma_decimal_value_prefix(s, k + 1);
        assert(s.take(k + 1).drop_last() =~= s.take(k));
    }
}

/// The number that `s` writes from `from` on; none when `s` is shorter.
pub open spec fn number_from(s: Seq<char>, from: int) -> Option<nat> {
    if 0 <= from <= s.len() {
        parse_number(s.skip(from))
    } else {
        None
    }
}

/// Reads the number written by `s[from..]`.
pub fn parse_suffix(s: &Vec<char>, from: usize) -> (r: Option<u32>)
    ensures
        r is Some == number_from(s@, from as int) is Some,
        r matches Some(n) ==> number_from(s@, from as int) == Some(n as nat),
{
    if from > s.len() {
        return None;
    }
    let ghost whole = s@.skip(from as int);
    let mut start: usize = from;
    if start < s.len() && s[start] == '+' {
        start = start + 1;
    }
    let ghost digits = s@.skip(start as int);
    assert(digits =~= unsigned_part(whole));
    if start == s.len() {
        return None;
    }
    let mut value: u64 = 0;
    let mut i: usize = start;
    while i < s.len()
        invariant
            start <= i <= s.len(),
            digits == s@.skip(start as int),
            digits == unsigned_part(s@.skip(from as int)),
            all_digits(digits.take(i - start)),
            value == decimal_value(digits.take(i - start)),
            value <= u32::MAX,
        decreases s.len() - i,
    {
        let c: char = s[i];
        let ghost k = i - start;
        assert(digits[k] == c);
        if c < '0' || c > '9' {
            assert(!is_digit(digits[k]));
            return None;
        }
        let d: u64 = (c as u32 - '0' as u32) as u64;
        proof {
            assert(digits.take(k + 1).drop_last() =~= digits.take(k));
            assert(digits.take(k + 1).last() == c);
            assert forall|j: int| 0 <= j < k + 1 implies is_digit(#[trigger] digits.take(k + 1)[j]) by {
                if j < k {
                    assert(digits.take(k)[j] == digits.take(k + 1)[j]);
                }
            }
        }
        value = value * 10 + d;
        if value > 0xffff_ffff {
            proof {
                lemma_decimal_value_prefix(digits, k + 1);
            }
            return None;
        }
        i = i + 1;
    }
    assert(digits.take(digits.len() as int) =~= digits);
    Some(value as u32)
}

/// Appends the decimal digits of `n` to `out`.
pub fn push_decimal(out: &mut String, n: u64)
    ensures
        final(out)@ == old(out)@ + decimal_digits(n as nat),
    decreases n,
{
    if n >= 10 {
        push_decimal(out, n / 10);
    }
    let d: u8 = (n % 10) as u8;
    out.push((48u8 + d) as char);
    proof {
        if n >= 10 {
            assert(old(out)@ + decimal_digits(n as nat) =~= (old(out)@ + decimal_digits(
                (n / 10) as nat,
            )).push(digit_char((n % 10) as nat)));
        } else {
            assert(old(out)@ + decimal_digits(n as nat) =~= old(out)@.push(digit_char(n as nat)));
        }
    }
}

/// Picks the title of a document created without one: `Untitled` while no
/// existing title is exactly that, else `Untitled_` followed by one more than
/// the largest number that follows `Untitled_` in an existing title (2 at least).
pub fn generate_untitled_name(existing: &[String]) -> (name: String)
    ensures
        name@ == untitled_name(views(existing@)),
{
    let ghost titles = views(existing@);
    let prefix: Vec<char> = chars_of("Untitled_");
    let mut taken: bool = false;
    let mut max_n: u64 = 0;
    let mut i: usize = 0;
    while i < existing.len()
        invariant
            i <= existing.len(),
            titles == views(existing@),
            prefix@ == numbered_prefix(),
            taken == titles.take(i as int).contains(default_title()),
            max_n == max_suffix(titles, i as int),
            max_n <= u32::MAX,
        decreases existing.len() - i,
    {
        let title: &String = &existing[i];
        assert(titles[i as int] == title@);
        let ghost before = titles.take(i as int);
        let ghost after = titles.take(i + 1);
        assert(after =~= before.push(title@));
        let same: bool = title.as_str().eq("Untitled");
        proof {
            if before.contains(default_title()) {
                let j = choose|j: int| 0 <= j < before.len() && before[j] == default_title();
                assert(after[j] == default_title());
            } else if same {
                assert(after[i as int] == default_title());
            } else {
                assert forall|j: int| 0 <= j < after.len() implies after[j] != default_title() by {
                    if j < i {
                        assert(before[j] == after[j]);
                    }
                }
            }
        }
        taken = taken || same;
        let chars: Vec<char> = chars_of(title.as_str());
        if starts_with_chars(&chars, &prefix) {
            match parse_suffix(&chars, prefix.len()) {
                Some(n) => {
                    if n as u64 > max_n {
                        max_n = n as u64;
                    }
                },
                None => {},
            }
        }
        i = i + 1;
    }
    assert(titles.take(titles.len() as int) =~= titles);
    if !taken {
        return "Untitled".to_owned();
    }
    let number: u64 = if max_n + 1 < 2 { 2 } else { max_n + 1 };
    let mut name: String = "Untitled_".to_owned();
    push_decimal(&mut name, number);
    name
}

} // verus!
