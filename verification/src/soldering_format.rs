//! A look at encoded soldering data before it is decoded.
//!
//! A decoder makes room for a list as soon as it has read its length. Here the lengths
//! in the bytes are compared with the number of bytes first: no list has more items
//! than there are bytes.

use vstd::arithmetic::power::pow;
use vstd::prelude::*;

verus! {

/// The number in `k` bytes from position `p` on, the lowest byte first.
pub open spec fn le_number(b: Seq<u8>, p: int, k: nat) -> int
    decreases k,
{
    if k == 0 {
        0
    } else {
        b[p] + 256 * le_number(b, p + 1, (k - 1) as nat)
    }
}

/// How many bytes follow the first byte of a number.
pub open spec fn bytes_after(first: u8) -> int {
    if first < 251 {
        0
    } else if first == 251 {
        2
    } else if first == 252 {
        4
    } else if first == 253 {
        8
    } else {
        16
    }
}

/// Where reading goes on after a part: at a position; nowhere, because decoding fails
/// there; or nowhere, because a list claims more items than there are bytes.
pub enum Onward {
    At(int),
    Fails,
    TooLong,
}

/// After a number.
pub open spec fn after_number(b: Seq<u8>, p: int) -> Onward {
    if p >= b.len() || b[p] == 255 || p + 1 + bytes_after(b[p]) > b.len() {
        Onward::Fails
    } else {
        Onward::At(p + 1 + bytes_after(b[p]))
    }
}

/// The length of a list.
pub open spec fn length_at(b: Seq<u8>, p: int) -> int {
    if b[p] < 251 {
        b[p] as int
    } else {
        le_number(b, p + 1, bytes_after(b[p]) as nat)
    }
}

/// After the length of a list, which takes at most eight bytes more than the first.
pub open spec fn after_length(b: Seq<u8>, p: int) -> Onward {
    match after_number(b, p) {
        Onward::At(q) => if b[p] == 254 {
            Onward::Fails
        } else if length_at(b, p) > b.len() {
            Onward::TooLong
        } else {
            Onward::At(q)
        },
        other => other,
    }
}

/// After `n` numbers.
pub open spec fn after_numbers(b: Seq<u8>, p: int, n: nat) -> Onward
    decreases n,
{
    if n == 0 {
        Onward::At(p)
    } else {
        match after_number(b, p) {
            Onward::At(q) => after_numbers(b, q, (n - 1) as nat),
            other => other,
        }
    }
}

/// After a list whose items are numbers, two to an item, or 64 bytes each.
pub open spec fn after_list(b: Seq<u8>, p: int, of_numbers: bool) -> Onward {
    match after_length(b, p) {
        Onward::At(q) => if of_numbers {
            after_numbers(b, q, (2 * length_at(b, p)) as nat)
        } else if q + 64 * length_at(b, p) > b.len() {
            Onward::Fails
        } else {
            Onward::At(q + 64 * length_at(b, p))
        },
        other => other,
    }
}

/// After `n` lists.
pub open spec fn after_lists(b: Seq<u8>, p: int, n: nat, of_numbers: bool) -> Onward
    decreases n,
{
    if n == 0 {
        Onward::At(p)
    } else {
        match after_list(b, p, of_numbers) {
            Onward::At(q) => after_lists(b, q, (n - 1) as nat, of_numbers),
            other => other,
        }
    }
}

/// After a list of lists.
pub open spec fn after_rows(b: Seq<u8>, p: int, of_numbers: bool) -> Onward {
    match after_length(b, p) {
        Onward::At(q) => after_lists(b, q, length_at(b, p) as nat, of_numbers),
        other => other,
    }
}

/// After all parts: rows of pairs of numbers, two lists of commitments, a number, and
/// rows of commitments.
pub open spec fn after_params(b: Seq<u8>) -> Onward {
    match after_rows(b, 0, true) {
        Onward::At(p) => match after_list(b, p, false) {
            Onward::At(q) => match after_list(b, q, false) {
                Onward::At(r) => match after_number(b, r) {
                    Onward::At(s) => after_rows(b, s, false),
                    other => other,
                },
                other => other,
            },
            other => other,
        },
        other => other,
    }
}

/// Whether no list in the bytes claims more items than there are bytes.
pub open spec fn lengths_fit(b: Seq<u8>) -> bool {
    !(after_params(b) is TooLong)
}

/// A position, or why reading ends: whether a list is too long.
type Step = Result<usize, bool>;

spec fn step_is(r: Step, s: Onward) -> bool {
    match (r, s) {
        (Ok(p), Onward::At(q)) => p == q,
        (Err(false), Onward::Fails) => true,
        (Err(true), Onward::TooLong) => true,
        _ => false,
    }
}

fn number_end(b: &[u8], p: usize) -> (r: Step)
    requires
        p <= b@.len(),
    ensures
        step_is(r, after_number(b@, p as int)),
        r matches Ok(q) ==> p < q <= b@.len(),
{
    if p >= b.len() || b[p] == 255 {
        return Err(false);
    }
    let first: u8 = b[p];
    let more: usize = if first < 251 {
        0
    } else if first == 251 {
        2
    } else if first == 252 {
        4
    } else if first == 253 {
        8
    } else {
        16
    };
    if b.len() - p < 1 + more {
        return Err(false);
    }
    Ok(p + 1 + more)
}

fn number_of_length(b: &[u8], p: usize) -> (r: u64)
    requires
        p < b@.len(),
        b@[p as int] < 254,
        p + 1 + bytes_after(b@[p as int]) <= b@.len(),
    ensures
        r == length_at(b@, p as int),
{
    let ghost s = b@;
    let ghost i = p as int;
    proof {
        reveal_with_fuel(le_number, 9);
    }
    let first: u8 = b[p];
    if first < 251 {
        return first as u64;
    }
    let low: u64 = b[p + 1] as u64 + 256 * (b[p + 2] as u64);
    if first == 251 {
        assert(low == le_number(s, i + 1, 2));
        return low;
    }
    let mid: u64 = b[p + 3] as u64 + 256 * (b[p + 4] as u64);
    if first == 252 {
        assert(low + 65536 * mid == le_number(s, i + 1, 4));
        return low + 65536 * mid;
    }
    let high: u64 = b[p + 5] as u64 + 256 * (b[p + 6] as u64) + 65536 * (b[p + 7] as u64)
        + 16777216 * (b[p + 8] as u64);
    assert(low + 65536 * mid + 4294967296 * high == le_number(s, i + 1, 8));
    low + 65536 * mid + 4294967296 * high
}

fn length_end(b: &[u8], p: usize) -> (r: Result<(usize, usize), bool>)
    requires
        p <= b@.len(),
    ensures
        match r {
            Ok((n, q)) => after_length(b@, p as int) == Onward::At(q as int) && n == length_at(
                b@,
                p as int,
            ) && n <= b@.len() && p < q <= b@.len(),
            Err(false) => after_length(b@, p as int) is Fails,
            Err(true) => after_length(b@, p as int) is TooLong,
        },
{
    match number_end(b, p) {
        Ok(q) => {
            if b[p] == 254 {
                return Err(false);
            }
            let n: u64 = number_of_length(b, p);
            if n > b.len() as u64 {
                return Err(true);
            }
            Ok((n as usize, q))
        },
        Err(e) => Err(e),
    }
}

fn list_end(b: &[u8], p: usize, of_numbers: bool) -> (r: Step)
    requires
        p <= b@.len(),
        b@.len() <= isize::MAX,
    ensures
        step_is(r, after_list(b@, p as int, of_numbers)),
        r matches Ok(q) ==> q <= b@.len(),
{
    let (n, q): (usize, usize) = match length_end(b, p) {
        Ok(x) => x,
        Err(e) => {
            return Err(e);
        },
    };
    if !of_numbers {
        let left: usize = b.len() - q;
        if n > left / 64 {
            return Err(false);
        }
        return Ok(q + 64 * n);
    }
    let total: usize = 2 * n;
    let mut at: usize = q;
    let mut done: usize = 0;
    while done < total
        invariant
            done <= total,
            at <= b@.len(),
            after_numbers(b@, q as int, total as nat) == after_numbers(
                b@,
                at as int,
                (total - done) as nat,
            ),
            total == 2 * length_at(b@, p as int),
            of_numbers,
            after_length(b@, p as int) == Onward::At(q as int),
        decreases total - done,
    {
        match number_end(b, at) {
            Ok(next) => {
                at = next;
            },
            Err(e) => {
                return Err(e);
            },
        }
        done = done + 1;
    }
    Ok(at)
}

fn rows_end(b: &[u8], p: usize, of_numbers: bool) -> (r: Step)
    requires
        p <= b@.len(),
        b@.len() <= isize::MAX,
    ensures
        step_is(r, after_rows(b@, p as int, of_numbers)),
        r matches Ok(q) ==> q <= b@.len(),
{
    let (n, q): (usize, usize) = match length_end(b, p) {
        Ok(x) => x,
        Err(e) => {
            return Err(e);
        },
    };
    let mut at: usize = q;
    let mut done: usize = 0;
    while done < n
        invariant
            done <= n,
            at <= b@.len(),
            b@.len() <= isize::MAX,
            after_lists(b@, q as int, n as nat, of_numbers) == after_lists(
                b@,
                at as int,
                (n - done) as nat,
                of_numbers,
            ),
            n == length_at(b@, p as int),
            after_length(b@, p as int) == Onward::At(q as int),
        decreases n - done,
    {
        match list_end(b, at, of_numbers) {
            Ok(next) => {
                at = next;
            },
            Err(e) => {
                return Err(e);
            },
        }
        done = done + 1;
    }
    Ok(at)
}

fn params_end(b: &[u8]) -> (r: Step)
    requires
        b@.len() <= isize::MAX,
    ensures
        step_is(r, after_params(b@)),
{
    let p: usize = match rows_end(b, 0, true) {
        Ok(p) => p,
        Err(e) => {
            return Err(e);
        },
    };
    let q: usize = match list_end(b, p, false) {
        Ok(q) => q,
        Err(e) => {
            return Err(e);
        },
    };
    let r: usize = match list_end(b, q, false) {
        Ok(r) => r,
        Err(e) => {
            return Err(e);
        },
    };
    let s: usize = match number_end(b, r) {
        Ok(s) => s,
        Err(e) => {
            return Err(e);
        },
    };
    rows_end(b, s, false)
}

/// Whether no list in the bytes claims more items than there are bytes.
pub fn check_lengths(b: &[u8]) -> (r: bool)
    requires
        b@.len() <= isize::MAX,
    ensures
        r == lengths_fit(b@),
{
    match params_end(b) {
        Err(too_long) => !too_long,
        Ok(_) => true,
    }
}

/// How a number is stored: a first byte below 251 is the number; 251, 252, 253 and 254 are
/// followed by 2, 4, 8 and 16 bytes that hold it; 255 begins no number, and a number that
/// the bytes end in is none.
pub proof fn numbers_are_stored_by_size(b: Seq<u8>, p: int)
    requires
        0 <= p < b.len(),
    ensures
        b[p] < 251 ==> after_number(b, p) == Onward::At(p + 1) && length_at(b, p) == b[p],
        b[p] == 251 && p + 3 <= b.len() ==> after_number(b, p) == Onward::At(p + 3) && length_at(b, p)
            == b[p + 1] + 256 * b[p + 2],
        b[p] == 252 && p + 5 <= b.len() ==> after_number(b, p) == Onward::At(p + 5),
        b[p] == 253 && p + 9 <= b.len() ==> after_number(b, p) == Onward::At(p + 9),
        b[p] == 254 && p + 17 <= b.len() ==> after_number(b, p) == Onward::At(p + 17),
        b[p] == 251 && p + 3 > b.len() ==> after_number(b, p) is Fails,
        b[p] == 252 && p + 5 > b.len() ==> after_number(b, p) is Fails,
        b[p] == 253 && p + 9 > b.len() ==> after_number(b, p) is Fails,
        b[p] == 254 && p + 17 > b.len() ==> after_number(b, p) is Fails,
        b[p] == 255 ==> after_number(b, p) is Fails,
{
    reveal_with_fuel(le_number, 3);
}

/// The bytes of a stored number are its digits to the base 256, the lowest first.
pub proof fn stored_number_is_positional(b: Seq<u8>, p: int, k: nat)
    ensures
        le_number(b, p, k + 1) == le_number(b, p, k) + b[p + k] * pow(256, k),
        le_number(b, p, 0) == 0,
    decreases k,
{
    reveal(pow);
    assert(le_number(b, p, k + 1) == b[p] + 256 * le_number(b, p + 1, k));
    if k > 0 {
        let m = (k - 1) as nat;
        let digit = b[p + k] as int;
        stored_number_is_positional(b, p + 1, m);
        assert(b[p + 1 + m] as int == digit);
        assert(le_number(b, p, k) == b[p] + 256 * le_number(b, p + 1, m));
        assert(256 * (digit * pow(256, m)) == digit * pow(256, k)) by (nonlinear_arith)
            requires
                pow(256, k) == 256 * pow(256, m),
        ;
    } else {
        assert(b[p + k] * 1 == b[p]);
        assert(pow(256, 0) == 1);
    }
}

/// A list is taken up to its end only if its length is no larger than all the bytes, and
/// is called too long where it is larger; a list of pairs of commitments takes 64 bytes for
/// each.
pub proof fn list_ends_after_its_items(b: Seq<u8>, p: int)
    requires
        0 <= p < b.len(),
        b[p] != 254,
        after_number(b, p) is At,
    ensures
        length_at(b, p) > b.len() ==> after_list(b, p, true) is TooLong && after_list(b, p, false) is TooLong,
        length_at(b, p) <= b.len() && after_number(b, p)->At_0 + 64 * length_at(b, p) <= b.len()
            ==> after_list(b, p, false) == Onward::At(
            after_number(b, p)->At_0 + 64 * length_at(b, p),
        ),
        length_at(b, p) <= b.len() && after_number(b, p)->At_0 + 64 * length_at(b, p) > b.len()
            ==> after_list(b, p, false) is Fails,
        length_at(b, p) <= b.len() ==> after_list(b, p, true) == after_numbers(
            b,
            after_number(b, p)->At_0,
            (2 * length_at(b, p)) as nat,
        ),
{
}

/// The parts of the public data follow one another: rows of numbers, a list and another of
/// commitments, a number, and rows of commitments; the data ends where the last part does.
pub proof fn parts_follow_one_another(b: Seq<u8>, p: int, q: int, r: int, s: int, e: int)
    requires
        after_rows(b, 0, true) == Onward::At(p),
        after_list(b, p, false) == Onward::At(q),
        after_list(b, q, false) == Onward::At(r),
        after_number(b, r) == Onward::At(s),
    ensures
        after_params(b) == after_rows(b, s, false),
        after_params(b) is TooLong <==> !lengths_fit(b),
{
}

/// Rows are as many lists as their length says, one after the other.
pub proof fn rows_are_lists(b: Seq<u8>, p: int, q: int, n: nat, of_numbers: bool)
    requires
        after_list(b, p, of_numbers) == Onward::At(q),
    ensures
        after_lists(b, p, n + 1, of_numbers) == after_lists(b, q, n, of_numbers),
        after_lists(b, p, 0, of_numbers) == Onward::At(p),
{
}

} // verus!
