use vstd::prelude::*;

verus! {

/// The decimal digit character for a value between 0 and 9.
pub open spec fn digit_char(d: int) -> char {
    if d == 0 {
        '0'
    } else if d == 1 {
        '1'
    } else if d == 2 {
        '2'
    } else if d == 3 {
        '3'
    } else if d == 4 {
        '4'
    } else if d == 5 {
        '5'
    } else if d == 6 {
        '6'
    } else if d == 7 {
        '7'
    } else if d == 8 {
        '8'
    } else {
        '9'
    }
}

/// The shortest decimal writing of a non-negative value: no leading zero,
/// except that zero itself is written "0".
pub open spec fn dec_digits(n: int) -> Seq<char>
    decreases n,
{
    if n < 10 {
        seq![digit_char(n)]
    } else {
        dec_digits(n / 10).push(digit_char(n % 10))
    }
}

/// The decimal writing of a value below 100, padded with zeros to two digits.
pub open spec fn dec_pad2(n: int) -> Seq<char> {
    seq![digit_char(n / 10), digit_char(n % 10)]
}

/// The decimal writing of a value below 10000, padded with zeros to four digits.
pub open spec fn dec_pad4(n: int) -> Seq<char> {
    seq![
        digit_char(n / 1000),
        digit_char(n / 100 % 10),
        digit_char(n / 10 % 10),
        digit_char(n % 10),
    ]
}

/// The one-character string for a decimal digit.
pub fn digit_str(d: u8) -> (r: &'static str)
    requires
        d < 10,
    ensures
        r@ == seq![digit_char(d as int)],
{
    proof {
        reveal_strlit("0");
        reveal_strlit("1");
        reveal_strlit("2");
        reveal_strlit("3");
        reveal_strlit("4");
        reveal_strlit("5");
        reveal_strlit("6");
        reveal_strlit("7");
        reveal_strlit("8");
        reveal_strlit("9");
    }
    match d {
        0 => "0",
        1 => "1",
        2 => "2",
        3 => "3",
        4 => "4",
        5 => "5",
        6 => "6",
        7 => "7",
        8 => "8",
        _ => "9",
    }
}

/// Appends the shortest decimal writing of `n` to `out`.
pub fn push_dec(out: &mut String, n: u16)
    ensures
        final (out)@ == old(out)@ + dec_digits(n as int),
    decreases n,
{
    if n < 10 {
        out.append(digit_str(n as u8));
    } else {
        push_dec(out, n / 10);
        out.append(digit_str((n % 10) as u8));
    }
}

/// Appends the two-digit zero-padded decimal writing of `n` to `out`.
pub fn push_dec_pad2(out: &mut String, n: u8)
    requires
        n < 100,
    ensures
        final (out)@ == old(out)@ + dec_pad2(n as int),
{
    out.append(digit_str(n / 10));
    out.append(digit_str(n % 10));
    proof {
        assert(final (out)@ =~= old(out)@ + dec_pad2(n as int));
    }
}

/// Appends the four-digit zero-padded decimal writing of `n` to `out`.
pub fn push_dec_pad4(out: &mut String, n: u16)
    requires
        n < 10000,
    ensures
        final (out)@ == old(out)@ + dec_pad4(n as int),
{
    out.append(digit_str((n / 1000) as u8));
    out.append(digit_str((n / 100 % 10) as u8));
    out.append(digit_str((n / 10 % 10) as u8));
    out.append(digit_str((n % 10) as u8));
    proof {
        assert(final (out)@ =~= old(out)@ + dec_pad4(n as int));
    }
}

} // verus!
