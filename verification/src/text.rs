//! Building the text of diagnostics.
use vstd::prelude::*;
use vstd::string::*;

verus! {

/// The views of a sequence of strings.
pub open spec fn string_views(strings: Seq<String>) -> Seq<Seq<char>> {
    Seq::new(strings.len(), |i: int| strings[i]@)
}

/// The character of a decimal digit.
pub open spec fn digit_char(digit: int) -> char {
    if digit == 0 {
        '0'
    } else if digit == 1 {
        '1'
    } else if digit == 2 {
        '2'
    } else if digit == 3 {
        '3'
    } else if digit == 4 {
        '4'
    } else if digit == 5 {
        '5'
    } else if digit == 6 {
        '6'
    } else if digit == 7 {
        '7'
    } else if digit == 8 {
        '8'
    } else {
        '9'
    }
}

/// A natural number in decimal, without leading zeros.
pub open spec fn decimal(n: nat) -> Seq<char>
    decreases n,
{
    if n < 10 {
        seq![digit_char(n as int)]
    } else {
        decimal(n / 10).push(digit_char((n % 10) as int))
    }
}

/// `count` copies of `fill`.
pub open spec fn filler(fill: char, count: int) -> Seq<char> {
    Seq::new(
        if count > 0 {
            count as nat
        } else {
            0
        },
        |i: int| fill,
    )
}

/// `text` with `fill` put in front until it is `width` characters long; a
/// longer text stays as it is.
pub open spec fn padded_left(text: Seq<char>, fill: char, width: int) -> Seq<char> {
    filler(fill, width - text.len()) + text
}

/// `text` with `fill` put behind until it is `width` characters long; a
/// longer text stays as it is.
pub open spec fn padded_right(text: Seq<char>, fill: char, width: int) -> Seq<char> {
    text + filler(fill, width - text.len())
}

/// The text of one decimal digit.
fn digit_str(digit: usize) -> (s: &'static str)
    requires
        digit < 10,
    ensures
        s@ == seq![digit_char(digit as int)],
{
    proof {
        reveal_strlit("0");
        reveal_strlit("1");
        reveal_strlit("2");
        reveal_strlit("3");
        reveal_strlit("4");
        reveal_strlit("5");
        reveal_strlit("6");
        reveal_strlit("7");
        reveal_strlit("8");
        reveal_strlit("9");
    }
    let s = if digit == 0 {
        "0"
    } else if digit == 1 {
        "1"
    } else if digit == 2 {
        "2"
    } else if digit == 3 {
        "3"
    } else if digit == 4 {
        "4"
    } else if digit == 5 {
        "5"
    } else if digit == 6 {
        "6"
    } else if digit == 7 {
        "7"
    } else if digit == 8 {
        "8"
    } else {
        "9"
    };
    assert(s@ =~= seq![digit_char(digit as int)]);
    s
}

/// Appends a number in decimal.
pub fn push_decimal(out: &mut String, n: usize)
    ensures
        final(out)@ == old(out)@ + decimal(n as nat),
    decreases n,
{
    if n < 10 {
        out.append(digit_str(n));
    } else {
        push_decimal(out, n / 10);
        out.append(digit_str(n % 10));
        assert(out@ =~= old(out)@ + decimal(n as nat));
    }
}

/// Appends `count` blanks.
pub fn push_blanks(out: &mut String, count: usize)
    ensures
        final(out)@ == old(out)@ + filler(' ', count as int),
{
    proof {
        reveal_strlit(" ");
    }
    push_filler(out, " ", count);
}

/// Appends a number in a column of `width`, filled from the left with
/// zeros or with blanks. A number that is longer takes the room it needs.
pub fn push_column(out: &mut String, n: usize, zeros: bool, width: usize)
    ensures
        final(out)@ == old(out)@ + padded_left(
            decimal(n as nat),
            if zeros {
                '0'
            } else {
                ' '
            },
            width as int,
        ),
{
    proof {
        reveal_strlit("0");
        reveal_strlit(" ");
    }
    let ghost fill = if zeros {
        '0'
    } else {
        ' '
    };
    let digits = decimal_string(n);
    let length = digits.as_str().unicode_len();
    if length < width {
        if zeros {
            push_filler(out, "0", width - length);
        } else {
            push_filler(out, " ", width - length);
        }
    } else {
        assert(filler(fill, width - length) =~= Seq::empty());
    }
    out.append(digits.as_str());
    assert(out@ =~= old(out)@ + padded_left(decimal(n as nat), fill, width as int));
}

/// Appends `count` copies of the one-character text `fill`.
fn push_filler(out: &mut String, fill: &str, count: usize)
    requires
        fill@.len() == 1,
    ensures
        final(out)@ == old(out)@ + filler(fill@[0], count as int),
{
    let mut i: usize = 0;
    while i < count
        invariant
            i <= count,
            fill@.len() == 1,
            out@ == old(out)@ + filler(fill@[0], i as int),
        decreases count - i,
    {
        out.append(fill);
        i += 1;
        assert(out@ =~= old(out)@ + filler(fill@[0], i as int));
    }
}

/// A number in decimal.
pub fn decimal_string(n: usize) -> (s: String)
    ensures
        s@ == decimal(n as nat),
{
    let mut s = String::new();
    push_decimal(&mut s, n);
    assert(s@ =~= decimal(n as nat));
    s
}

} // verus!
