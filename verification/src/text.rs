//! Hexadecimal and decimal renderings used in labels and messages.

use vstd::prelude::*;
use vstd::string::StringExecFns;

verus! {

/// The lower-case digits of base sixteen, in order.
pub open spec fn digits() -> Seq<char> {
    seq!['0', '1', '2', '3', '4', '5', '6', '7', '8', '9', 'a', 'b', 'c', 'd', 'e', 'f']
}

/// Two hexadecimal digits for each byte, in order.
pub open spec fn hex_text(bytes: Seq<u8>) -> Seq<char>
    decreases bytes.len(),
{
    if bytes.len() == 0 {
        seq![]
    } else {
        hex_text(bytes.drop_last()) + seq![
            digits()[bytes.last() as int / 16],
            digits()[bytes.last() as int % 16],
        ]
    }
}

/// The decimal digits of `n`, most significant first, without leading zeros.
pub open spec fn decimal_text(n: nat) -> Seq<char>
    decreases n,
{
    if n < 10 {
        seq![digits()[n as int]]
    } else {
        decimal_text(n / 10) + seq![digits()[(n % 10) as int]]
    }
}

fn digit(n: u8) -> (r: &'static str)
    requires
        n < 16,
    ensures
        r@ == seq![digits()[n as int]],
{
    proof {
        reveal_strlit("0");
        reveal_strlit("1");
        reveal_strlit("2");
        reveal_strlit("3");
        reveal_strlit("4");
        reveal_strlit("5");
        reveal_strlit("6");
        reveal_strlit("7");
        reveal_strlit("8");
        reveal_strlit("9");
        reveal_strlit("a");
        reveal_strlit("b");
        reveal_strlit("c");
        reveal_strlit("d");
        reveal_strlit("e");
        reveal_strlit("f");
    }
    let r = match n {
        0 => "0",
        1 => "1",
        2 => "2",
        3 => "3",
        4 => "4",
        5 => "5",
        6 => "6",
        7 => "7",
        8 => "8",
        9 => "9",
        10 => "a",
        11 => "b",
        12 => "c",
        13 => "d",
        14 => "e",
        _ => "f",
    };
    assert(r@ =~= seq![digits()[n as int]]);
    r
}

/// Appends two hexadecimal digits for each byte.
pub fn write_commit_hex(out: &mut String, bytes: &[u8])
    ensures
        final(out)@ == old(out)@ + hex_text(bytes@),
{
    let mut i: usize = 0;
    assert(out@ =~= old(out)@ + hex_text(bytes@.take(0)));
    while i < bytes.len()
        invariant
            i <= bytes@.len(),
            out@ == old(out)@ + hex_text(bytes@.take(i as int)),
        decreases bytes@.len() - i,
    {
        let b = bytes[i];
        let ghost before = out@;
        out.append(digit(b / 16));
        out.append(digit(b % 16));
        proof {
            let next = bytes@.take(i + 1);
            assert(next.drop_last() =~= bytes@.take(i as int));
            assert(next.last() == b);
            assert(out@ =~= old(out)@ + hex_text(next));
        }
        i = i + 1;
    }
    assert(bytes@.take(bytes@.len() as int) =~= bytes@);
}

/// Appends the decimal rendering of `n`.
pub fn write_decimal(out: &mut String, n: usize)
    ensures
        final(out)@ == old(out)@ + decimal_text(n as nat),
    decreases n,
{
    if n >= 10 {
        write_decimal(out, n / 10);
        out.append(digit((n % 10) as u8));
        assert(out@ =~= old(out)@ + decimal_text(n as nat));
    } else {
        out.append(digit(n as u8));
    }
}

/// Hexadecimal text has two digits for each byte, the higher half first, and texts of
/// bytes one after the other are the text of all of them.
pub proof fn hex_text_is_by_bytes(first: Seq<u8>, second: Seq<u8>, b: u8)
    ensures
        hex_text(first + second) == hex_text(first) + hex_text(second),
        hex_text(first).len() == 2 * first.len(),
        hex_text(seq![b]) == seq![digits()[b as int / 16], digits()[b as int % 16]],
    decreases first.len() + second.len(),
{
    let empty = Seq::<u8>::empty();
    assert(seq![b].drop_last() =~= empty);
    assert(hex_text(empty) =~= seq![]);
    assert(hex_text(seq![b]) =~= seq![digits()[b as int / 16], digits()[b as int % 16]]);
    if second.len() > 0 {
        hex_text_is_by_bytes(first, second.drop_last(), b);
        assert((first + second).drop_last() =~= first + second.drop_last());
        assert(hex_text(first + second) =~= hex_text(first) + hex_text(second));
    } else {
        assert(first + second =~= first);
        if first.len() > 0 {
            hex_text_is_by_bytes(first.drop_last(), second, b);
        }
    }
}

/// The sixteen digits are the decimal digits and the first six small letters, so each
/// tells its value.
pub proof fn digits_tell_their_values(d: int)
    requires
        0 <= d < 16,
    ensures
        d < 10 ==> digits()[d] as int == 0x30 + d,
        d >= 10 ==> digits()[d] as int == 0x61 + (d - 10),
{
}

/// Decimal text: a further digit is written behind the text of the number in front of it,
/// and no number but zero begins with a zero.
pub proof fn decimal_text_appends_digits(n: nat, d: nat)
    requires
        d < 10,
    ensures
        n > 0 ==> decimal_text(10 * n + d) == decimal_text(n).push((0x30 + d) as char),
        decimal_text(d) == seq![(0x30 + d) as char],
        n > 0 ==> decimal_text(n)[0] != '0',
        decimal_text(n).len() > 0,
    decreases n,
{
    digits_tell_their_values(d as int);
    assert(digits()[d as int] == (0x30 + d) as char);
    if n > 0 {
        assert((10 * n + d) / 10 == n && (10 * n + d) % 10 == d);
        assert(decimal_text(10 * n + d) =~= decimal_text(n).push((0x30 + d) as char));
    }
    if n >= 10 {
        decimal_text_appends_digits(n / 10, n % 10);
    } else {
        digits_tell_their_values(n as int);
    }
}

} // verus!
