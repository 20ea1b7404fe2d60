//! Reading circuits in Bristol fashion.
//!
//! The first line is a header, the second gives the number of input groups and
//! their sizes, and every other line that describes a known gate gives the number
//! of its inputs, the number of its outputs, the input wires, the output wires and
//! its name. Other lines are passed over.

use crate::anchoring::circuit::{PCircuit, PGate};
use crate::gate::{gate_fn, GateType};
use vstd::prelude::*;

verus! {

/// Whether three bytes encode a white-space character in UTF-8: one of U+1680,
/// U+2000 to U+200A, U+2028, U+2029, U+202F, U+205F and U+3000.
pub open spec fn wide_space(a: u8, b: u8, c: u8) -> bool {
    ||| a == 0xe1 && b == 0x9a && c == 0x80
    ||| a == 0xe2 && b == 0x80 && (0x80 <= c <= 0x8a || c == 0xa8 || c == 0xa9 || c == 0xaf)
    ||| a == 0xe2 && b == 0x81 && c == 0x9f
    ||| a == 0xe3 && b == 0x80 && c == 0x80
}

/// The number of bytes of the white-space character at the start of a text in UTF-8,
/// zero if there is none. White space is what Unicode calls so: in one byte the
/// space and the controls from the tab to the carriage return, in two U+0085 and
/// U+00A0.
pub open spec fn space_len(s: Seq<u8>) -> nat {
    if s.len() >= 1 && (s[0] == 0x20 || 0x09 <= s[0] <= 0x0d) {
        1
    } else if s.len() >= 2 && s[0] == 0xc2 && (s[1] == 0x85 || s[1] == 0xa0) {
        2
    } else if s.len() >= 3 && wide_space(s[0], s[1], s[2]) {
        3
    } else {
        0
    }
}

/// The number of bytes before the first white-space character.
pub open spec fn word_len(s: Seq<u8>) -> nat
    decreases s.len(),
{
    if s.len() == 0 || space_len(s) > 0 {
        0
    } else {
        1 + word_len(s.drop_first())
    }
}

/// The words of a line: the longest runs without a white-space character.
pub open spec fn words(s: Seq<u8>) -> Seq<Seq<u8>>
    decreases s.len(),
{
    if s.len() == 0 {
        seq![]
    } else if space_len(s) > 0 {
        words(s.skip(space_len(s) as int))
    } else {
        let n = 1 + word_len(s.drop_first());
        if n <= s.len() {
            seq![s.take(n as int)] + words(s.skip(n as int))
        } else {
            seq![]
        }
    }
}

/// The number of bytes before the first line feed.
pub open spec fn line_len(s: Seq<u8>) -> nat
    decreases s.len(),
{
    if s.len() == 0 || s[0] == 0x0a {
        0
    } else {
        1 + line_len(s.drop_first())
    }
}

/// The lines of a text. A line feed at the end opens no further line.
pub open spec fn text_lines(s: Seq<u8>) -> Seq<Seq<u8>>
    decreases s.len(),
{
    let n = line_len(s);
    if s.len() == 0 {
        seq![]
    } else if n >= s.len() {
        seq![s]
    } else {
        seq![s.take(n as int)] + text_lines(s.skip(n as int + 1))
    }
}

/// The value of a run of decimal digits; nothing if another byte is in it.
pub open spec fn digits_value(s: Seq<u8>) -> Option<nat>
    decreases s.len(),
{
    if s.len() == 0 {
        Some(0)
    } else {
        match digits_value(s.drop_last()) {
            Some(v) if 0x30 <= s.last() <= 0x39 => Some(10 * v + (s.last() - 0x30) as nat),
            _ => None,
        }
    }
}

/// The number that a word writes: decimal digits, after at most one plus sign,
/// whose value fits a machine word.
pub open spec fn word_number(s: Seq<u8>) -> Option<usize> {
    let d = if s.len() > 0 && s[0] == 0x2b {
        s.drop_first()
    } else {
        s
    };
    if d.len() == 0 {
        None
    } else {
        match digits_value(d) {
            Some(v) if v <= usize::MAX => Some(v as usize),
            _ => None,
        }
    }
}

/// The number that a word writes, zero if it writes none.
pub open spec fn number_or_zero(s: Seq<u8>) -> usize {
    match word_number(s) {
        Some(v) => v,
        None => 0,
    }
}

/// What gate type a word names.
pub open spec fn named_type(s: Seq<u8>) -> Option<GateType> {
    if s == seq![0x58u8, 0x4f, 0x52] {
        Some(GateType::Xor)
    } else if s == seq![0x58u8, 0x4e, 0x4f, 0x52] {
        Some(GateType::Xnor)
    } else if s == seq![0x49u8, 0x4e, 0x56] || s == seq![0x4eu8, 0x4f, 0x54] {
        Some(GateType::Not)
    } else if s == seq![0x41u8, 0x4e, 0x44] {
        Some(GateType::And)
    } else if s == seq![0x4eu8, 0x41, 0x4e, 0x44] {
        Some(GateType::Nand)
    } else if s == seq![0x4fu8, 0x52] {
        Some(GateType::Or)
    } else if s == seq![0x4eu8, 0x4f, 0x52] {
        Some(GateType::Nor)
    } else {
        None
    }
}

/// Whether every word of `p` from `lo` up to `hi` writes a number.
pub open spec fn all_numbers(p: Seq<Seq<u8>>, lo: int, hi: int) -> bool {
    forall|i: int| lo <= i < hi ==> word_number(#[trigger] p[i]) is Some
}

/// What a line says.
pub enum Line {
    /// Nothing that the circuit needs.
    Other,
    /// A gate.
    Gate { gate: PGate },
    /// A gate without inputs, or with a wire number that leaves no room for a
    /// wire count.
    Malformed,
}

/// What the words of a line say. A gate with one input reads that input twice.
pub open spec fn line_meaning(p: Seq<Seq<u8>>) -> Line {
    let ni = number_or_zero(p[0]);
    let no = number_or_zero(p[1]);
    if p.len() < 4 || p.len() < 2 + ni + no + 1 || !all_numbers(p, 2, 2 + ni) {
        Line::Other
    } else {
        match named_type(p.last()) {
            None => Line::Other,
            Some(t) => {
                let a = number_or_zero(p[2]);
                let b = if ni > 1 {
                    number_or_zero(p[3])
                } else {
                    a
                };
                let c = number_or_zero(p[2 + ni]);
                if ni == 0 || a == usize::MAX || b == usize::MAX || c == usize::MAX {
                    Line::Malformed
                } else {
                    Line::Gate { gate: PGate { t, a, b, c } }
                }
            },
        }
    }
}

/// The larger of two numbers.
pub open spec fn larger(a: nat, b: nat) -> nat {
    if a < b {
        b
    } else {
        a
    }
}

/// The gates of the lines and the number of wires they need, at least `n_in`;
/// nothing if a line is malformed.
pub open spec fn read_gates(lines: Seq<Seq<u8>>, n_in: nat) -> Option<(Seq<PGate>, nat)>
    decreases lines.len(),
{
    if lines.len() == 0 {
        Some((seq![], n_in))
    } else {
        match (read_gates(lines.drop_last(), n_in), line_meaning(words(lines.last()))) {
            (None, _) => None,
            (_, Line::Malformed) => None,
            (Some((gates, n)), Line::Other) => Some((gates, n)),
            (Some((gates, n)), Line::Gate { gate }) => Some(
                (
                    gates.push(gate),
                    larger(
                        n,
                        larger(
                            (gate.c + 1) as nat,
                            larger((gate.a + 1) as nat, (gate.b + 1) as nat),
                        ),
                    ),
                ),
            ),
        }
    }
}

/// The sum of the numbers among the words.
pub open spec fn sum_of_numbers(p: Seq<Seq<u8>>) -> nat
    decreases p.len(),
{
    if p.len() == 0 {
        0
    } else {
        sum_of_numbers(p.drop_last()) + number_or_zero(p.last()) as nat
    }
}

/// The position of the first word that writes a number; the number of words if
/// none does.
pub open spec fn first_number(p: Seq<Seq<u8>>, from: int) -> int
    decreases p.len() - from,
{
    if from >= p.len() || word_number(p[from]) is Some {
        from
    } else {
        first_number(p, from + 1)
    }
}

/// The number of inputs that the words of the second line give: the sum of all
/// numbers after the first.
pub open spec fn input_count(p: Seq<Seq<u8>>) -> nat {
    let f = first_number(p, 0);
    if f >= p.len() {
        0
    } else {
        sum_of_numbers(p.skip(f + 1))
    }
}

/// The circuit that a text describes: its number of inputs, its number of wires
/// and its gates. Nothing if the inputs cannot be counted or a gate is malformed.
pub open spec fn circuit_of(text: Seq<u8>) -> Option<(nat, nat, Seq<PGate>)> {
    let lines = text_lines(text);
    let n_in = if lines.len() < 2 {
        0
    } else {
        input_count(words(lines[1]))
    };
    if n_in > usize::MAX {
        None
    } else {
        match read_gates(
            if lines.len() < 2 {
                seq![]
            } else {
                lines.skip(2)
            },
            n_in,
        ) {
            Some((gates, n_wires)) => Some((n_in, n_wires, gates)),
            None => None,
        }
    }
}

/// The contents of a list of words.
pub open spec fn word_seqs(p: Seq<Vec<u8>>) -> Seq<Seq<u8>> {
    Seq::new(p.len(), |i: int| p[i]@)
}

fn space_at(s: &[u8], i: usize) -> (r: usize)
    requires
        i <= s@.len(),
    ensures
        r == space_len(s@.skip(i as int)),
{
    let n: usize = s.len() - i;
    if n == 0 {
        return 0;
    }
    let a: u8 = s[i];
    if a == 0x20 || (0x09 <= a && a <= 0x0d) {
        return 1;
    }
    if n == 1 {
        return 0;
    }
    let b: u8 = s[i + 1];
    if a == 0xc2 && (b == 0x85 || b == 0xa0) {
        return 2;
    }
    if n == 2 {
        return 0;
    }
    let c: u8 = s[i + 2];
    if (a == 0xe1 && b == 0x9a && c == 0x80) || (a == 0xe2 && b == 0x80 && ((0x80 <= c && c
        <= 0x8a) || c == 0xa8 || c == 0xa9 || c == 0xaf)) || (a == 0xe2 && b == 0x81 && c == 0x9f)
        || (a == 0xe3 && b == 0x80 && c == 0x80) {
        3
    } else {
        0
    }
}

fn piece(s: &[u8], lo: usize, hi: usize) -> (r: Vec<u8>)
    requires
        lo <= hi <= s@.len(),
    ensures
        r@ == s@.subrange(lo as int, hi as int),
{
    let mut r: Vec<u8> = Vec::new();
    let mut i: usize = lo;
    while i < hi
        invariant
            lo <= i <= hi <= s@.len(),
            r@ == s@.subrange(lo as int, i as int),
        decreases hi - i,
    {
        r.push(s[i]);
        i = i + 1;
        assert(r@ =~= s@.subrange(lo as int, i as int));
    }
    r
}

fn split_words(s: &[u8]) -> (r: Vec<Vec<u8>>)
    ensures
        word_seqs(r@) == words(s@),
{
    let mut r: Vec<Vec<u8>> = Vec::new();
    let mut i: usize = 0;
    assert(s@.skip(0) =~= s@);
    assert(word_seqs(r@) + words(s@) =~= words(s@));
    while i < s.len()
        invariant
            i <= s@.len(),
            word_seqs(r@) + words(s@.skip(i as int)) == words(s@),
        decreases s@.len() - i,
    {
        let ghost rest = s@.skip(i as int);
        assert(rest.drop_first() =~= s@.skip(i + 1));
        assert(rest[0] == s@[i as int]);
        let gap: usize = space_at(s, i);
        if gap > 0 {
            assert(rest.skip(gap as int) =~= s@.skip(i + gap));
            i = i + gap;
        } else {
            let mut j: usize = i + 1;
            while j < s.len() && space_at(s, j) == 0
                invariant
                    i < j <= s@.len(),
                    word_len(s@.skip(i + 1)) == (j - i - 1) + word_len(s@.skip(j as int)),
                decreases s@.len() - j,
            {
                assert(s@.skip(j as int).drop_first() =~= s@.skip(j + 1));
                j = j + 1;
            }
            assert(word_len(s@.skip(j as int)) == 0);
            let ghost r0 = word_seqs(r@);
            r.push(piece(s, i, j));
            proof {
                let n = (j - i) as int;
                assert(rest.take(n) =~= s@.subrange(i as int, j as int));
                assert(rest.skip(n) =~= s@.skip(j as int));
                assert(word_seqs(r@) + words(s@.skip(j as int)) =~= r0 + (seq![rest.take(n)]
                    + words(rest.skip(n))));
            }
            i = j;
        }
    }
    assert(word_seqs(r@) + words(s@.skip(i as int)) =~= word_seqs(r@));
    r
}

fn split_lines(s: &[u8]) -> (r: Vec<Vec<u8>>)
    ensures
        word_seqs(r@) == text_lines(s@),
{
    let mut r: Vec<Vec<u8>> = Vec::new();
    let mut i: usize = 0;
    assert(s@.skip(0) =~= s@);
    assert(word_seqs(r@) + text_lines(s@) =~= text_lines(s@));
    while i < s.len()
        invariant
            i <= s@.len(),
            word_seqs(r@) + text_lines(s@.skip(i as int)) == text_lines(s@),
        decreases s@.len() - i,
    {
        let ghost rest = s@.skip(i as int);
        let mut j: usize = i;
        while j < s.len() && s[j] != 0x0a
            invariant
                i <= j <= s@.len(),
                line_len(s@.skip(i as int)) == (j - i) + line_len(s@.skip(j as int)),
            decreases s@.len() - j,
        {
            assert(s@.skip(j as int).drop_first() =~= s@.skip(j + 1));
            j = j + 1;
        }
        assert(line_len(s@.skip(j as int)) == 0);
        let ghost r0 = word_seqs(r@);
        r.push(piece(s, i, j));
        proof {
            let n = (j - i) as int;
            assert(rest.take(n) =~= s@.subrange(i as int, j as int));
            if j < s@.len() {
                assert(rest.skip(n + 1) =~= s@.skip(j + 1));
                assert(word_seqs(r@) + text_lines(s@.skip(j + 1)) =~= r0 + (seq![rest.take(n)]
                    + text_lines(rest.skip(n + 1))));
            } else {
                assert(rest.take(n) =~= rest);
                assert(word_seqs(r@) =~= r0 + seq![rest]);
            }
        }
        if j < s.len() {
            i = j + 1;
        } else {
            assert(text_lines(s@.skip(j as int)) =~= seq![]);
            assert(word_seqs(r@) + text_lines(s@.skip(j as int)) =~= word_seqs(r@));
            i = j;
        }
    }
    assert(word_seqs(r@) + text_lines(s@.skip(i as int)) =~= word_seqs(r@));
    r
}

/// A run of digits that is already too large stays so.
proof fn digits_only_grow(s: Seq<u8>, n: int)
    requires
        0 <= n <= s.len(),
    ensures
        digits_value(s.take(n)) is None ==> digits_value(s) is None,
        digits_value(s) is Some && digits_value(s.take(n)) is Some ==> digits_value(s)->0
            >= digits_value(s.take(n))->0,
    decreases s.len() - n,
{
    if n < s.len() {
        digits_only_grow(s, n + 1);
        assert(s.take(n + 1).drop_last() =~= s.take(n));
    } else {
        assert(s.take(n) =~= s);
    }
}

fn parse_number(s: &Vec<u8>) -> (r: Option<usize>)
    ensures
        r == word_number(s@),
{
    let start: usize = if s.len() > 0 && s[0] == 0x2b {
        1
    } else {
        0
    };
    let ghost d = s@.skip(start as int);
    proof {
        assert(s@.skip(0) =~= s@);
        if s@.len() > 0 {
            assert(s@.skip(1) =~= s@.drop_first());
        }
        assert(d.take(0) =~= seq![]);
    }
    if start >= s.len() {
        return None;
    }
    let mut v: usize = 0;
    let mut i: usize = start;
    while i < s.len()
        invariant
            start <= i <= s@.len(),
            start <= 1,
            d == s@.skip(start as int),
            d.len() > 0,
            digits_value(d.take(i - start)) == Some(v as nat),
            word_number(s@) == (match digits_value(d) {
                Some(v) if v <= usize::MAX => Some(v as usize),
                _ => None,
            }),
        decreases s@.len() - i,
    {
        let b = s[i];
        proof {
            let n = i - start;
            assert(d.take(n + 1).drop_last() =~= d.take(n));
            assert(d.take(n + 1).last() == b);
            digits_only_grow(d, n + 1);
        }
        if b < 0x30 || b > 0x39 {
            return None;
        }
        let digit: usize = (b - 0x30) as usize;
        if v > (usize::MAX - digit) / 10 {
            assert(10 * v + digit > usize::MAX) by (nonlinear_arith)
                requires
                    v > (usize::MAX - digit) / 10,
                    digit <= 9,
            ;
            return None;
        }
        assert(10 * v + digit <= usize::MAX) by (nonlinear_arith)
            requires
                v <= (usize::MAX - digit) / 10,
                digit <= 9,
        ;
        v = v * 10 + digit;
        i = i + 1;
    }
    assert(d.take(d.len() as int) =~= d);
    Some(v)
}

fn parse_or_zero(s: &Vec<u8>) -> (r: usize)
    ensures
        r == number_or_zero(s@),
{
    match parse_number(s) {
        Some(v) => v,
        None => 0,
    }
}

fn is_word(s: &Vec<u8>, w: &[u8]) -> (r: bool)
    ensures
        r == (s@ == w@),
{
    if s.len() != w.len() {
        return false;
    }
    let mut i: usize = 0;
    while i < w.len()
        invariant
            i <= w@.len(),
            s@.len() == w@.len(),
            forall|k: int| 0 <= k < i ==> s@[k] == w@[k],
        decreases w@.len() - i,
    {
        if s[i] != w[i] {
            assert(s@[i as int] != w@[i as int]);
            return false;
        }
        i = i + 1;
    }
    assert(s@ =~= w@);
    true
}

fn parse_type(s: &Vec<u8>) -> (r: Option<GateType>)
    ensures
        r == named_type(s@),
{
    let xor: [u8; 3] = [0x58, 0x4f, 0x52];
    let xnor: [u8; 4] = [0x58, 0x4e, 0x4f, 0x52];
    let inv: [u8; 3] = [0x49, 0x4e, 0x56];
    let not: [u8; 3] = [0x4e, 0x4f, 0x54];
    let and: [u8; 3] = [0x41, 0x4e, 0x44];
    let nand: [u8; 4] = [0x4e, 0x41, 0x4e, 0x44];
    let or: [u8; 2] = [0x4f, 0x52];
    let nor: [u8; 3] = [0x4e, 0x4f, 0x52];
    proof {
        assert(xor@ =~= seq![0x58u8, 0x4f, 0x52]);
        assert(xnor@ =~= seq![0x58u8, 0x4e, 0x4f, 0x52]);
        assert(inv@ =~= seq![0x49u8, 0x4e, 0x56]);
        assert(not@ =~= seq![0x4eu8, 0x4f, 0x54]);
        assert(and@ =~= seq![0x41u8, 0x4e, 0x44]);
        assert(nand@ =~= seq![0x4eu8, 0x41, 0x4e, 0x44]);
        assert(or@ =~= seq![0x4fu8, 0x52]);
        assert(nor@ =~= seq![0x4eu8, 0x4f, 0x52]);
    }
    if is_word(s, xor.as_slice()) {
        Some(GateType::Xor)
    } else if is_word(s, xnor.as_slice()) {
        Some(GateType::Xnor)
    } else if is_word(s, inv.as_slice()) || is_word(s, not.as_slice()) {
        Some(GateType::Not)
    } else if is_word(s, and.as_slice()) {
        Some(GateType::And)
    } else if is_word(s, nand.as_slice()) {
        Some(GateType::Nand)
    } else if is_word(s, or.as_slice()) {
        Some(GateType::Or)
    } else if is_word(s, nor.as_slice()) {
        Some(GateType::Nor)
    } else {
        None
    }
}

fn parse_line(p: &Vec<Vec<u8>>) -> (r: Line)
    ensures
        r == line_meaning(word_seqs(p@)),
{
    let ghost ws = word_seqs(p@);
    let n: usize = p.len();
    if n < 4 {
        return Line::Other;
    }
    let ni: usize = parse_or_zero(&p[0]);
    let no: usize = parse_or_zero(&p[1]);
    if ni > n - 3 || no > n - 3 - ni {
        return Line::Other;
    }
    let mut i: usize = 2;
    while i < 2 + ni
        invariant
            2 <= i <= 2 + ni,
            ni <= n - 3,
            n == p@.len(),
            n >= 4,
            ws == word_seqs(p@),
            ni == number_or_zero(ws[0]),
            all_numbers(ws, 2, i as int),
        decreases 2 + ni - i,
    {
        match parse_number(&p[i]) {
            Some(_) => (),
            None => {
                assert(word_number(ws[i as int]) is None);
                return Line::Other;
            },
        }
        i = i + 1;
    }
    let t = match parse_type(&p[n - 1]) {
        Some(t) => t,
        None => {
            return Line::Other;
        },
    };
    let a: usize = parse_or_zero(&p[2]);
    let b: usize = if ni > 1 {
        parse_or_zero(&p[3])
    } else {
        a
    };
    let c: usize = parse_or_zero(&p[2 + ni]);
    if ni == 0 || a == usize::MAX || b == usize::MAX || c == usize::MAX {
        Line::Malformed
    } else {
        Line::Gate { gate: PGate { t, a, b, c } }
    }
}

/// Counts the inputs that the words of the second line give; nothing if their
/// number does not fit a machine word.
fn parse_inputs(p: &Vec<Vec<u8>>) -> (r: Option<usize>)
    ensures
        r == if input_count(word_seqs(p@)) > usize::MAX {
            None
        } else {
            Some(input_count(word_seqs(p@)) as usize)
        },
{
    let ghost ws = word_seqs(p@);
    let mut f: usize = 0;
    while f < p.len() && parse_number(&p[f]).is_none()
        invariant
            f <= p@.len(),
            ws == word_seqs(p@),
            first_number(ws, 0) == first_number(ws, f as int),
        decreases p@.len() - f,
    {
        f = f + 1;
    }
    if f >= p.len() {
        return Some(0);
    }
    let ghost rest = ws.skip(f + 1);
    let mut sum: usize = 0;
    let mut i: usize = f + 1;
    assert(rest.take(0) =~= seq![]);
    while i < p.len()
        invariant
            f + 1 <= i <= p@.len(),
            ws == word_seqs(p@),
            rest == ws.skip(f + 1),
            input_count(ws) == sum_of_numbers(rest),
            sum == sum_of_numbers(rest.take(i - f - 1)),
        decreases p@.len() - i,
    {
        let v: usize = parse_or_zero(&p[i]);
        proof {
            let n = i - f - 1;
            assert(rest.take(n + 1).drop_last() =~= rest.take(n));
            assert(rest.take(n + 1).last() == ws[i as int]);
            sums_grow(rest, n + 1);
        }
        if v > usize::MAX - sum {
            return None;
        }
        sum = sum + v;
        i = i + 1;
    }
    assert(rest.take(rest.len() as int) =~= rest);
    Some(sum)
}

proof fn sums_grow(p: Seq<Seq<u8>>, n: int)
    requires
        0 <= n <= p.len(),
    ensures
        sum_of_numbers(p.take(n)) <= sum_of_numbers(p),
    decreases p.len() - n,
{
    if n < p.len() {
        sums_grow(p, n + 1);
        assert(p.take(n + 1).drop_last() =~= p.take(n));
    } else {
        assert(p.take(n) =~= p);
    }
}

/// Once a line is malformed no circuit is read.
proof fn malformed_stays(lines: Seq<Seq<u8>>, n_in: nat, n: int)
    requires
        0 <= n <= lines.len(),
        read_gates(lines.take(n), n_in) is None,
    ensures
        read_gates(lines, n_in) is None,
    decreases lines.len() - n,
{
    if n < lines.len() {
        assert(lines.take(n + 1).drop_last() =~= lines.take(n));
        malformed_stays(lines, n_in, n + 1);
    } else {
        assert(lines.take(n) =~= lines);
    }
}

fn max_usize(a: usize, b: usize) -> (r: usize)
    ensures
        r == larger(a as nat, b as nat),
{
    if a < b {
        b
    } else {
        a
    }
}

impl PCircuit {
    /// Reads the circuit that `text` describes in Bristol fashion. Nothing if its
    /// inputs cannot be counted in a machine word, or if a gate has no input or
    /// names the largest wire number.
    pub fn from_bristol(text: &[u8]) -> (r: Option<PCircuit>)
        ensures
            match (r, circuit_of(text@)) {
                (Some(c), Some((n_in, n_wires, gates))) => c.n_in == n_in && c.n_wires == n_wires
                    && c.gates@ == gates,
                (None, None) => true,
                _ => false,
            },
    {
        let lines = split_lines(text);
        let ghost all = text_lines(text@);
        let n_in: usize = if lines.len() < 2 {
            0
        } else {
            let second = split_words(lines[1].as_slice());
            match parse_inputs(&second) {
                Some(n) => n,
                None => {
                    return None;
                },
            }
        };
        let mut gates: Vec<PGate> = Vec::new();
        let mut n_wires: usize = n_in;
        if lines.len() < 2 {
            assert(gates@ =~= seq![]);
            return Some(PCircuit { n_in, n_wires, gates });
        }
        let ghost rest = all.skip(2);
        let mut i: usize = 2;
        assert(rest.take(0) =~= seq![]);
        assert(gates@ =~= seq![]);
        while i < lines.len()
            invariant
                2 <= i <= lines@.len(),
                all == word_seqs(lines@),
                all == text_lines(text@),
                rest == all.skip(2),
                n_in == input_count(words(all[1])),
                read_gates(rest.take(i - 2), n_in as nat) == Some((gates@, n_wires as nat)),
            decreases lines@.len() - i,
        {
            let p = split_words(lines[i].as_slice());
            proof {
                let n = i - 2;
                assert(rest.take(n + 1).drop_last() =~= rest.take(n));
                assert(rest.take(n + 1).last() == all[i as int]);
                assert(all[i as int] == lines@[i as int]@);
            }
            match parse_line(&p) {
                Line::Malformed => {
                    proof {
                        malformed_stays(rest, n_in as nat, i - 1);
                    }
                    return None;
                },
                Line::Other => (),
                Line::Gate { gate } => {
                    n_wires = max_usize(
                        n_wires,
                        max_usize(gate.c + 1, max_usize(gate.a + 1, gate.b + 1)),
                    );
                    gates.push(gate);
                },
            }
            i = i + 1;
        }
        assert(rest.take(rest.len() as int) =~= rest);
        Some(PCircuit { n_in, n_wires, gates })
    }
}

/// A word names the boolean function that it says: `XOR`, `XNOR`, `AND`, `NAND`, `OR` and
/// `NOR` that of their two inputs, and `INV` and `NOT` the negation of the first input.
pub proof fn words_name_their_functions(x: bool, y: bool)
    ensures
        named_type(seq![0x58u8, 0x4f, 0x52]) matches Some(t) && gate_fn(t, x, y) == (x != y),
        named_type(seq![0x58u8, 0x4e, 0x4f, 0x52]) matches Some(t) && gate_fn(t, x, y) == (x == y),
        named_type(seq![0x49u8, 0x4e, 0x56]) matches Some(t) && gate_fn(t, x, y) == !x,
        named_type(seq![0x4eu8, 0x4f, 0x54]) matches Some(t) && gate_fn(t, x, y) == !x,
        named_type(seq![0x41u8, 0x4e, 0x44]) matches Some(t) && gate_fn(t, x, y) == (x && y),
        named_type(seq![0x4eu8, 0x41, 0x4e, 0x44]) matches Some(t) && gate_fn(t, x, y) == !(x && y),
        named_type(seq![0x4fu8, 0x52]) matches Some(t) && gate_fn(t, x, y) == (x || y),
        named_type(seq![0x4eu8, 0x4f, 0x52]) matches Some(t) && gate_fn(t, x, y) == !(x || y),
{
    assert(seq![0x58u8, 0x4f, 0x52].len() == 3);
}

/// A line that gives one or two inputs and one output describes a gate from these inputs
/// to that output: with two inputs they are read in order, with one it is read twice, so
/// that an inverted input gives its negation.
pub proof fn gate_lines_are_read(p: Seq<Seq<u8>>, x: bool, y: bool)
    requires
        word_number(p[0]) == Some(1usize) && p.len() == 5 || word_number(p[0]) == Some(2usize)
            && p.len() == 6,
        word_number(p[1]) == Some(1usize),
        forall|i: int|
            2 <= i < p.len() - 1 ==> (word_number(#[trigger] p[i]) matches Some(v) && v
                < usize::MAX),
        named_type(p.last()) is Some,
    ensures
        line_meaning(p) matches Line::Gate { gate } && {
            &&& word_number(p[2]) == Some(gate.a)
            &&& word_number(p[p.len() - 3]) == Some(gate.b)
            &&& word_number(p[p.len() - 2]) == Some(gate.c)
            &&& named_type(p.last()) == Some(gate.t)
            &&& p.len() == 5 && p.last() == seq![0x49u8, 0x4e, 0x56] ==> gate.a == gate.b
                && gate_fn(gate.t, x, x) == !x
            &&& p.len() == 6 && p.last() == seq![0x41u8, 0x4e, 0x44] ==> gate_fn(gate.t, x, y) == (x
                && y)
            &&& p.len() == 6 && p.last() == seq![0x58u8, 0x4f, 0x52] ==> gate_fn(gate.t, x, y) == (x
                != y)
        },
{
    words_name_their_functions(x, y);
    words_name_their_functions(x, x);
    assert(word_number(p[2]) is Some);
    assert(word_number(p[3]) is Some);
    assert(word_number(p[p.len() - 2]) is Some);
}

/// The wires of a circuit that was read are just enough: every gate's wires are below
/// their number, and it is the number of inputs or one more than some gate's wire.
pub proof fn read_wires_are_counted(lines: Seq<Seq<u8>>, n_in: nat)
    requires
        read_gates(lines, n_in) is Some,
    ensures
        ({
            let (gates, n) = read_gates(lines, n_in)->0;
            &&& n_in <= n
            &&& gates.len() <= lines.len()
            &&& forall|i: int|
                0 <= i < gates.len() ==> (#[trigger] gates[i]).a < n && gates[i].b < n && gates[i].c
                    < n
            &&& n == n_in || exists|i: int|
                0 <= i < gates.len() && ((#[trigger] gates[i]).a + 1 == n || gates[i].b + 1 == n
                    || gates[i].c + 1 == n)
        }),
    decreases lines.len(),
{
    if lines.len() > 0 {
        read_wires_are_counted(lines.drop_last(), n_in);
        let (before, m) = read_gates(lines.drop_last(), n_in)->0;
        let (gates, n) = read_gates(lines, n_in)->0;
        match line_meaning(words(lines.last())) {
            Line::Gate { gate } => {
                assert(gates == before.push(gate));
                assert(gates[gates.len() - 1] == gate);
                assert forall|i: int| 0 <= i < gates.len() implies (#[trigger] gates[i]).a < n
                    && gates[i].b < n && gates[i].c < n by {
                    if i < before.len() {
                        assert(gates[i] == before[i]);
                    }
                }
                if n == m && n != n_in {
                    let i = choose|i: int|
                        0 <= i < before.len() && ((#[trigger] before[i]).a + 1 == m || before[i].b
                            + 1 == m || before[i].c + 1 == m);
                    assert(gates[i] == before[i]);
                }
            },
            _ => (),
        }
    }
}

/// Whether a run of bytes is of visible characters of one byte alone.
pub open spec fn visible(s: Seq<u8>) -> bool {
    forall|i: int| 0 <= i < s.len() ==> 0x21 <= #[trigger] s[i] <= 0x7e
}

proof fn word_ends_at_space(a: Seq<u8>, rest: Seq<u8>)
    requires
        visible(a),
        rest.len() == 0 || rest[0] == 0x20,
    ensures
        word_len(a + rest) == a.len(),
    decreases a.len(),
{
    if a.len() > 0 {
        assert(0x21 <= a[0] <= 0x7e);
        assert((a + rest).drop_first() =~= a.drop_first() + rest);
        assert forall|i: int| 0 <= i < a.drop_first().len() implies 0x21
            <= #[trigger] a.drop_first()[i] <= 0x7e by {
            assert(a.drop_first()[i] == a[i + 1]);
        }
        word_ends_at_space(a.drop_first(), rest);
        assert(space_len(a + rest) == 0);
    } else {
        assert(a + rest =~= rest);
        if rest.len() > 0 {
            assert(space_len(rest) == 1);
        }
    }
}

/// A line is split at its spaces: a word, a space and what follows are that word and the
/// words of what follows, spaces in front count for nothing, and a word alone is one word.
pub proof fn words_are_split_at_spaces(a: Seq<u8>, rest: Seq<u8>)
    requires
        visible(a),
        a.len() > 0,
    ensures
        words(a + seq![0x20u8] + rest) == seq![a] + words(rest),
        words(seq![0x20u8] + rest) == words(rest),
        words(a) == seq![a],
        words(Seq::<u8>::empty()) == Seq::<Seq<u8>>::empty(),
{
    let behind = seq![0x20u8] + rest;
    assert(behind.skip(1) =~= rest);
    assert(space_len(behind) == 1);
    assert(words(behind) == words(rest));
    let empty = Seq::<u8>::empty();
    assert(words(empty) =~= Seq::<Seq<u8>>::empty());
    let tail = a.drop_first();
    assert forall|i: int| 0 <= i < tail.len() implies 0x21 <= #[trigger] tail[i] <= 0x7e by {
        assert(tail[i] == a[i + 1]);
    }
    assert(0x21 <= a[0] <= 0x7e);
    let line = a + behind;
    assert(line =~= a + seq![0x20u8] + rest);
    word_ends_at_space(tail, behind);
    assert(line.drop_first() =~= tail + behind);
    assert(space_len(line) == 0);
    assert(line.take(a.len() as int) =~= a);
    assert(line.skip(a.len() as int) =~= behind);
    word_ends_at_space(tail, empty);
    assert(a.drop_first() =~= tail + empty);
    assert(space_len(a) == 0);
    assert(a.take(a.len() as int) =~= a);
    assert(a.skip(a.len() as int) =~= empty);
    assert(words(a) =~= seq![a]);
}

proof fn line_ends_at_feed(a: Seq<u8>, rest: Seq<u8>)
    requires
        !a.contains(0x0au8),
        rest.len() == 0 || rest[0] == 0x0a,
    ensures
        line_len(a + rest) == a.len(),
    decreases a.len(),
{
    if a.len() > 0 {
        assert(a.contains(a[0]));
        assert((a + rest).drop_first() =~= a.drop_first() + rest);
        assert forall|i: int| 0 <= i < a.drop_first().len() implies a.drop_first()[i] != 0x0a by {
            assert(a.contains(a[i + 1]));
        }
        line_ends_at_feed(a.drop_first(), rest);
    } else {
        assert(a + rest =~= rest);
    }
}

/// A text is split at its line feeds: a line, a feed and what follows are that line and the
/// lines of what follows; a feed at the end opens no line.
pub proof fn text_is_split_at_feeds(a: Seq<u8>, rest: Seq<u8>)
    requires
        !a.contains(0x0au8),
    ensures
        text_lines(a + seq![0x0au8] + rest) == seq![a] + text_lines(rest),
        a.len() > 0 ==> text_lines(a) == seq![a],
        text_lines(a + seq![0x0au8]) == seq![a],
{
    let behind = seq![0x0au8] + rest;
    let text = a + behind;
    assert(text =~= a + seq![0x0au8] + rest);
    line_ends_at_feed(a, behind);
    assert(text.take(a.len() as int) =~= a);
    assert(text.skip(a.len() as int + 1) =~= rest);
    let empty = Seq::<u8>::empty();
    line_ends_at_feed(a, empty);
    assert(a + empty =~= a);
    let ended = a + seq![0x0au8];
    line_ends_at_feed(a, seq![0x0au8]);
    assert(ended.take(a.len() as int) =~= a);
    assert(ended.skip(a.len() as int + 1) =~= empty);
    assert(text_lines(empty) =~= Seq::<Seq<u8>>::empty());
    assert(text_lines(ended) =~= seq![a]);
}

/// Numbers are decimal: one digit writes itself, a digit behind a number writes ten times
/// the number and the digit, a plus sign in front changes nothing, and a word that holds
/// any other byte writes no number.
pub proof fn numbers_are_decimal(s: Seq<u8>, v: usize, d: u8)
    requires
        d < 10,
        s.len() > 0,
        s[0] != 0x2b,
    ensures
        word_number(seq![(0x30 + d) as u8]) == Some(d as usize),
        word_number(s) == Some(v) && 10 * v + d <= usize::MAX ==> word_number(
            s.push((0x30 + d) as u8),
        ) == Some((10 * v + d) as usize),
        word_number(s) == Some(v) && 10 * v + d > usize::MAX ==> word_number(
            s.push((0x30 + d) as u8),
        ) is None,
        word_number(seq![0x2bu8] + s) == word_number(s),
        word_number(s) is Some ==> forall|i: int| 0 <= i < s.len() ==> 0x30 <= #[trigger] s[i] <= 0x39,
{
    let one = seq![(0x30 + d) as u8];
    assert(one.drop_last() =~= Seq::<u8>::empty());
    assert(digits_value(one.drop_last()) == Some(0nat));
    assert(digits_value(one) == Some(d as nat));
    let longer = s.push((0x30 + d) as u8);
    assert(longer.drop_last() =~= s);
    assert((seq![0x2bu8] + s).drop_first() =~= s);
    digits_are_digits(s);
}

proof fn digits_are_digits(s: Seq<u8>)
    ensures
        digits_value(s) is Some ==> forall|i: int|
            0 <= i < s.len() ==> 0x30 <= #[trigger] s[i] <= 0x39,
    decreases s.len(),
{
    if s.len() > 0 {
        digits_are_digits(s.drop_last());
        if digits_value(s) is Some {
            assert forall|i: int| 0 <= i < s.len() implies 0x30 <= #[trigger] s[i] <= 0x39 by {
                if i < s.len() - 1 {
                    assert(s.drop_last()[i] == s[i]);
                }
            }
        }
    }
}

/// The inputs of a circuit are the sizes of its input groups together: on the second line
/// the first number counts the groups, and every further size adds to the inputs.
pub proof fn group_sizes_add_up(p: Seq<Seq<u8>>, size: Seq<u8>, v: usize)
    requires
        p.len() > 0,
        word_number(p[0]) is Some,
        word_number(size) == Some(v),
    ensures
        input_count(seq![p[0]]) == 0,
        input_count(p.push(size)) == input_count(p) + v,
{
    let longer = p.push(size);
    assert(first_number(p, 0) == 0 && first_number(longer, 0) == 0);
    assert(longer.skip(1) =~= p.skip(1).push(size));
    assert(p.skip(1).push(size).drop_last() =~= p.skip(1));
    let alone = seq![p[0]];
    assert(first_number(alone, 0) == 0);
    assert(alone.skip(1) =~= Seq::<Seq<u8>>::empty());
    assert(sum_of_numbers(alone.skip(1)) == 0);
}

/// A text is read by lines: the second gives the inputs, and each line after it that says a
/// gate adds that gate behind those before, while one that says nothing adds none and a
/// malformed one leaves no circuit.
pub proof fn circuit_is_read_by_lines(text: Seq<u8>, more: Seq<u8>)
    requires
        text_lines(text).len() >= 2,
        text_lines(more) == text_lines(text).push(text_lines(more).last()),
        circuit_of(text) is Some,
    ensures
        ({
            let (n_in, n_wires, gates) = circuit_of(text)->0;
            &&& n_in == input_count(words(text_lines(text)[1]))
            &&& text_lines(text).len() == 2 ==> gates.len() == 0 && n_wires == n_in
            &&& match line_meaning(words(text_lines(more).last())) {
                Line::Gate { gate } => circuit_of(more) matches Some((inputs, wires, all)) && inputs
                    == n_in && all == gates.push(gate),
                Line::Other => circuit_of(more) == circuit_of(text),
                Line::Malformed => circuit_of(more) is None,
            }
        }),
{
    let lines = text_lines(text);
    let all = text_lines(more);
    assert(all.skip(2).drop_last() =~= lines.skip(2));
    assert(all.skip(2).last() == all.last());
    assert(all[1] == lines[1]);
    if lines.len() == 2 {
        assert(lines.skip(2) =~= Seq::<Seq<u8>>::empty());
    }
}

} // verus!
