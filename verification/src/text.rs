//! Building message text: decimal numerals and quoting.
use vstd::prelude::*;
use vstd::string::StringExecFns;

verus! {

/// `String::push` appends one character to the end of the string.
pub assume_specification[ String::push ](s: &mut String, ch: char)
    ensures
        final(s)@ == old(s)@.push(ch),
;

/// The character for a decimal digit below ten.
pub open spec fn digit_char(d: int) -> char {
    if d == 0 {
        '0'
    } else if d == 1 {
        '1'
    } else if d == 2 {
        '2'
    } else if d == 3 {
        '3'
    } else if d == 4 {
        '4'
    } else if d == 5 {
        '5'
    } else if d == 6 {
        '6'
    } else if d == 7 {
        '7'
    } else if d == 8 {
        '8'
    } else {
        '9'
    }
}

/// The decimal numeral of `n`, without leading zeros.
pub open spec fn decimal(n: nat) -> Seq<char>
    decreases n,
{
    if n < 10 {
        seq![digit_char(n as int)]
    } else {
        decimal(n / 10).push(digit_char((n % 10) as int))
    }
}

/// The decimal numeral of `n`, padded with zeros on the left to three
/// characters.
pub open spec fn decimal_padded3(n: nat) -> Seq<char> {
    if n < 10 {
        seq!['0', '0'] + decimal(n)
    } else if n < 100 {
        seq!['0'] + decimal(n)
    } else {
        decimal(n)
    }
}

fn digit(d: u64) -> (c: char)
    requires
        d < 10,
    ensures
        c == digit_char(d as int),
{
    if d == 0 {
        '0'
    } else if d == 1 {
        '1'
    } else if d == 2 {
        '2'
    } else if d == 3 {
        '3'
    } else if d == 4 {
        '4'
    } else if d == 5 {
        '5'
    } else if d == 6 {
        '6'
    } else if d == 7 {
        '7'
    } else if d == 8 {
        '8'
    } else {
        '9'
    }
}

/// Appends the decimal numeral of `n` to `s`.
pub fn push_decimal(s: &mut String, n: u64)
    ensures
        final(s)@ == old(s)@ + decimal(n as nat),
    decreases n,
{
    if n < 10 {
        s.push(digit(n));
        assert(old(s)@.push(digit_char(n as int)) =~= old(s)@ + decimal(n as nat));
    } else {
        push_decimal(s, n / 10);
        s.push(digit(n % 10));
        assert((old(s)@ + decimal((n / 10) as nat)).push(digit_char((n % 10) as int)) =~= old(s)@
            + decimal(n as nat));
    }
}

/// Appends the decimal numeral of `n`, zero-padded to three characters.
pub fn push_decimal_padded3(s: &mut String, n: u64)
    ensures
        final(s)@ == old(s)@ + decimal_padded3(n as nat),
{
    if n < 10 {
        s.push('0');
        s.push('0');
        assert(old(s)@.push('0').push('0') =~= old(s)@ + seq!['0', '0']);
    } else if n < 100 {
        s.push('0');
        assert(old(s)@.push('0') =~= old(s)@ + seq!['0']);
    }
    let ghost mid = s@;
    push_decimal(s, n);
    assert(mid + decimal(n as nat) =~= old(s)@ + decimal_padded3(n as nat));
}

/// Appends `text` between two apostrophes to `s`.
pub fn push_quoted(s: &mut String, text: &str)
    ensures
        final(s)@ == old(s)@ + quoted(text@),
{
    s.push('\'');
    s.append(text);
    s.push('\'');
    assert(old(s)@.push('\'').add(text@).push('\'') =~= old(s)@ + quoted(text@));
}

/// `text` between two apostrophes.
pub open spec fn quoted(text: Seq<char>) -> Seq<char> {
    seq!['\''] + text + seq!['\'']
}

} // verus!
