//! Writing numbers and lists as text.
use vstd::prelude::*;
use vstd::string::StringExecFns;

verus! {

pub open spec fn digit_char(d: nat) -> char {
    if d == 0 {
        '0'
    } else if d == 1 {
        '1'
    } else if d == 2 {
        '2'
    } else if d == 3 {
        '3'
    } else if d == 4 {
        '4'
    } else if d == 5 {
        '5'
    } else if d == 6 {
        '6'
    } else if d == 7 {
        '7'
    } else if d == 8 {
        '8'
    } else {
        '9'
    }
}

/// The decimal text of `n`, without leading zeros.
pub open spec fn decimal_text(n: nat) -> Seq<char>
    decreases n,
{
    if n < 10 {
        seq![digit_char(n)]
    } else {
        decimal_text(n / 10).push(digit_char(n % 10))
    }
}

/// A fixed-point value in hundredths written with two decimal places (`1234` is `12.34`).
pub open spec fn centi_text(n: nat) -> Seq<char> {
    decimal_text(n / 100) + seq!['.', digit_char((n / 10) % 10), digit_char(n % 10)]
}

/// A raw integer amount that could not be read.
#[derive(Clone, Copy, Debug, PartialEq, Eq, Structural)]
pub struct ParseIntError;

fn digit_str(d: u8) -> (r: &'static str)
    requires
        d < 10,
    ensures
        r@ == seq![digit_char(d as nat)],
{
    proof {
        reveal_strlit("0");
        reveal_strlit("1");
        reveal_strlit("2");
        reveal_strlit("3");
        reveal_strlit("4");
        reveal_strlit("5");
        reveal_strlit("6");
        reveal_strlit("7");
        reveal_strlit("8");
        reveal_strlit("9");
    }
    match d {
        0 => "0",
        1 => "1",
        2 => "2",
        3 => "3",
        4 => "4",
        5 => "5",
        6 => "6",
        7 => "7",
        8 => "8",
        _ => "9",
    }
}

/// The decimal text of `n`.
pub fn u128_text(n: u128) -> (r: String)
    ensures
        r@ == decimal_text(n as nat),
{
    let mut m: u128 = n;
    let mut acc = String::new();
    while m >= 10
        invariant
            decimal_text(n as nat) == decimal_text(m as nat) + acc@,
        decreases m,
    {
        let d = (m % 10) as u8;
        let next = String::from_str(digit_str(d)).concat(acc.as_str());
        proof {
            assert(decimal_text(m as nat) == decimal_text((m / 10) as nat).push(
                digit_char((m % 10) as nat),
            ));
            assert(decimal_text((m / 10) as nat).push(digit_char((m % 10) as nat)) + acc@
                =~= decimal_text((m / 10) as nat) + next@);
        }
        acc = next;
        m = m / 10;
    }
    let r = String::from_str(digit_str(m as u8)).concat(acc.as_str());
    r
}

/// The decimal text of `n`.
pub fn u64_text(n: u64) -> (r: String)
    ensures
        r@ == decimal_text(n as nat),
{
    u128_text(n as u128)
}

/// A value in hundredths written with two decimal places.
pub fn centi_text_of(n: u128) -> (r: String)
    ensures
        r@ == centi_text(n as nat),
{
    let whole = u128_text(n / 100);
    proof {
        reveal_strlit(".");
    }
    let tenths = digit_str(((n / 10) % 10) as u8);
    let hundredths = digit_str((n % 10) as u8);
    let r = whole.concat(".").concat(tenths).concat(hundredths);
    assert(r@ =~= centi_text(n as nat));
    r
}

/// The items written one after another with `sep` between each two.
pub open spec fn joined(items: Seq<Seq<char>>, sep: Seq<char>) -> Seq<char>
    decreases items.len(),
{
    if items.len() == 0 {
        Seq::empty()
    } else if items.len() == 1 {
        items[0]
    } else {
        joined(items.drop_last(), sep) + sep + items.last()
    }
}

/// The text of each string.
pub open spec fn texts(items: Seq<String>) -> Seq<Seq<char>> {
    items.map_values(|s: String| s@)
}

/// The strings written one after another with `sep` between each two.
pub fn join(items: &Vec<String>, sep: &str) -> (r: String)
    ensures
        r@ == joined(texts(items@), sep@),
{
    let mut r = String::new();
    let mut i: usize = 0;
    while i < items.len()
        invariant
            i <= items@.len(),
            r@ == joined(texts(items@.subrange(0, i as int)), sep@),
        decreases items@.len() - i,
    {
        proof {
            let next = texts(items@.subrange(0, i as int + 1));
            assert(next.drop_last() =~= texts(items@.subrange(0, i as int)));
            assert(next.last() == items@[i as int]@);
        }
        if i > 0 {
            r.append(sep);
        }
        r.append(items[i].as_str());
        i += 1;
    }
    assert(items@.subrange(0, i as int) =~= items@);
    r
}

} // verus!
