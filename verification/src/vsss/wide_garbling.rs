//! Tables that turn the label of a byte into the labels of its bits.

use crate::gate::{selected, GarbledWire};
use crate::modes::evaluate::EvaluatedWire;
use crate::primitives::{blake3_digest, blake3_fill, blake3_hash, blake3_output};
use crate::s::{be_bytes, be_value, bytes_round_trip, first_16, push_bytes, S};
use crate::vsss::field::{le_bytes_32, Scalar};
use vstd::arithmetic::power2::{lemma2_to64, lemma_pow2_pos, lemma_pow2_unfold, pow2};
use vstd::prelude::*;
use vstd::slice::slice_subrange;

verus! {

/// The length of the zeros by which a decryption is recognised.
pub const TAG_LEN: usize = 16;

/// A table with one ciphertext for each value that some bits can have.
pub struct GarbledWideLabelTable(pub Vec<Vec<u8>>);

/// The `b`th of the `n` bits of `i`, counted from the highest.
pub open spec fn bit_of(i: int, n: int, b: int) -> bool {
    (i / pow2((n - b - 1) as nat) as int) % 2 == 1
}

/// The labels of the first `k` wires for the bits of `i`, as bytes.
pub open spec fn labels_bytes(wires: Seq<GarbledWire>, i: int, k: nat) -> Seq<u8>
    decreases k,
{
    if k == 0 {
        seq![]
    } else {
        labels_bytes(wires, i, (k - 1) as nat) + be_bytes(
            selected(wires[k - 1], bit_of(i, wires.len() as int, k - 1)).0,
        )
    }
}

/// What a row of a table holds in the clear: the labels of the bits of `i`, and the
/// tag.
pub open spec fn clear_row(wires: Seq<GarbledWire>, i: int) -> Seq<u8> {
    labels_bytes(wires, i, wires.len()) + Seq::new(16, |k: int| 0u8)
}

/// Bytes with the mask of a key over them, put on or taken off.
pub open spec fn masked(bytes: Seq<u8>, key: int) -> Seq<u8> {
    Seq::new(
        bytes.len(),
        |j: int| bytes[j] ^ blake3_output(le_bytes_32(key), bytes.len())[j],
    )
}

/// The rows of the table for these labels.
pub open spec fn table_of(byte_labels: Seq<Scalar>, wires: Seq<GarbledWire>) -> Seq<Seq<u8>> {
    Seq::new(byte_labels.len(), |i: int| masked(clear_row(wires, i), byte_labels[i]@))
}

/// The rows of a table.
pub open spec fn rows_of(t: GarbledWideLabelTable) -> Seq<Seq<u8>> {
    Seq::new(t.0@.len(), |i: int| t.0@[i]@)
}

/// Whether each value of the bits has a label.
pub open spec fn has_all_labels(byte_labels: Seq<Scalar>, wires: Seq<GarbledWire>) -> bool {
    wires.len() > 0 && byte_labels.len() == pow2(wires.len())
}

/// The logarithm to base two, rounded down.
pub open spec fn floor_log2(n: nat) -> nat
    decreases n,
{
    if n < 2 {
        0
    } else {
        1 + floor_log2(n / 2)
    }
}

/// Whether a row decrypts under a key: the tag is zero.
pub open spec fn decrypts(row: Seq<u8>, key: int) -> bool {
    forall|j: int| row.len() - 16 <= j < row.len() ==> #[trigger] masked(row, key)[j] == 0
}

/// The first row from the `i`th on that decrypts under a key. The search ends at a row
/// whose length is not that for the size of the table.
pub open spec fn first_row(rows: Seq<Seq<u8>>, key: int, i: int) -> Option<int>
    decreases rows.len() - i,
{
    if i >= rows.len() || rows[i].len() != 16 * floor_log2(rows.len()) + 16 {
        None
    } else if decrypts(rows[i], key) {
        Some(i)
    } else {
        first_row(rows, key, i + 1)
    }
}

/// The wires that a row holds under a key, with the values of the bits of its number.
pub open spec fn row_wires(rows: Seq<Seq<u8>>, key: int, i: int) -> Seq<EvaluatedWire> {
    let n = floor_log2(rows.len());
    let clear = masked(rows[i], key);
    Seq::new(
        n,
        |b: int|
            EvaluatedWire {
                active_label: S(be_value(clear.subrange(16 * b, 16 * b + 16))),
                value: bit_of(i, n as int, b),
            },
    )
}

proof fn labels_bytes_len(wires: Seq<GarbledWire>, i: int, k: nat)
    ensures
        labels_bytes(wires, i, k).len() == 16 * k,
    decreases k,
{
    if k > 0 {
        labels_bytes_len(wires, i, (k - 1) as nat);
    }
}

/// Bytes with the mask of a key put on, or taken off.
fn mask_bytes(bytes: &Vec<u8>, key: &Scalar) -> (r: Vec<u8>)
    ensures
        r@ == masked(bytes@, key@),
{
    let mask = blake3_fill(key.to_bytes_le().as_slice(), bytes.len());
    let mut r: Vec<u8> = Vec::new();
    let mut j: usize = 0;
    while j < bytes.len()
        invariant
            j <= bytes@.len(),
            mask@.len() == bytes@.len(),
            mask@ == blake3_output(le_bytes_32(key@), bytes@.len()),
            r@.len() == j,
            forall|k: int| 0 <= k < j ==> #[trigger] r@[k] == bytes@[k] ^ mask@[k],
        decreases bytes@.len() - j,
    {
        r.push(bytes[j] ^ mask[j]);
        j = j + 1;
    }
    assert(r@ =~= masked(bytes@, key@));
    r
}

/// The logarithm to base two, rounded down.
fn log2(n: usize) -> (r: usize)
    ensures
        r == floor_log2(n as nat),
        n > 0 ==> pow2(r as nat) <= n,
{
    let mut rest: usize = n;
    let mut r: usize = 0;
    proof {
        lemma2_to64();
    }
    while rest >= 2
        invariant
            floor_log2(n as nat) == r + floor_log2(rest as nat),
            r + rest <= n || r == 0 && rest == n,
            n > 0 ==> rest > 0 && pow2(r as nat) * rest <= n,
            r <= n,
        decreases rest,
    {
        let half: usize = rest / 2;
        proof {
            lemma_pow2_unfold((r + 1) as nat);
            let p = pow2(r as nat) as int;
            assert(2 * p * half <= p * rest) by (nonlinear_arith)
                requires
                    2 * half <= rest,
                    p >= 0,
            ;
        }
        rest = half;
        r = r + 1;
    }
    proof {
        if n > 0 {
            assert(rest == 1);
            assert(pow2(r as nat) * 1 == pow2(r as nat));
        }
    }
    r
}

impl GarbledWideLabelTable {
    /// The table for one label for each value of the bits, and the labels of the
    /// bits.
    pub fn new(byte_labels: &[Scalar], bit_labels: &[GarbledWire]) -> (r: Self)
        requires
            has_all_labels(byte_labels@, bit_labels@),
        ensures
            rows_of(r) == table_of(byte_labels@, bit_labels@),
    {
        let n: usize = bit_labels.len();
        let mut table: Vec<Vec<u8>> = Vec::new();
        let top: usize = byte_labels.len() / 2;
        proof {
            lemma_pow2_unfold(n as nat);
        }
        let mut i: usize = 0;
        while i < byte_labels.len()
            invariant
                i <= byte_labels@.len(),
                n == bit_labels@.len(),
                n > 0,
                top == pow2((n - 1) as nat),
                table@.len() == i,
                forall|k: int|
                    0 <= k < i ==> (#[trigger] table@[k])@ == table_of(
                        byte_labels@,
                        bit_labels@,
                    )[k],
            decreases byte_labels@.len() - i,
        {
            let mut row: Vec<u8> = Vec::new();
            let mut divisor: usize = top;
            let mut b: usize = 0;
            while b < n
                invariant
                    b <= n,
                    n == bit_labels@.len(),
                    b < n ==> divisor == pow2((n - b - 1) as nat),
                    row@ == labels_bytes(bit_labels@, i as int, b as nat),
                decreases n - b,
            {
                proof {
                    lemma_pow2_pos((n - b - 1) as nat);
                    if b + 1 < n {
                        lemma_pow2_unfold((n - b - 1) as nat);
                    }
                }
                let label = bit_labels[b].select((i / divisor) % 2 == 1);
                push_bytes(&mut row, label.to_bytes().as_slice());
                divisor = divisor / 2;
                b = b + 1;
            }
            let tag: [u8; 16] = [0; 16];
            push_bytes(&mut row, tag.as_slice());
            assert(row@ =~= clear_row(bit_labels@, i as int));
            table.push(mask_bytes(&row, &byte_labels[i]));
            i = i + 1;
        }
        let r = GarbledWideLabelTable(table);
        assert(rows_of(r) =~= table_of(byte_labels@, bit_labels@));
        r
    }

    /// The first row that decrypts under a label, if the search reaches one.
    pub fn find_row(&self, wide_label: &Scalar) -> (r: Option<usize>)
        ensures
            match (r, first_row(rows_of(*self), wide_label@, 0)) {
                (Some(i), Some(f)) => i == f,
                (None, None) => true,
                _ => false,
            },
    {
        let n: usize = log2(self.0.len());
        let mut i: usize = 0;
        while i < self.0.len()
            invariant
                i <= self.0@.len(),
                n == floor_log2(self.0@.len()),
                first_row(rows_of(*self), wide_label@, 0) == first_row(
                    rows_of(*self),
                    wide_label@,
                    i as int,
                ),
            decreases self.0@.len() - i,
        {
            let row = &self.0[i];
            let len: usize = row.len();
            assert(rows_of(*self)[i as int] == row@);
            if len < TAG_LEN || (len - TAG_LEN) % 16 != 0 || (len - TAG_LEN) / 16 != n {
                return None;
            }
            let clear = mask_bytes(row, wide_label);
            let mut zeros = true;
            let mut j: usize = len - TAG_LEN;
            while j < len
                invariant
                    len - 16 <= j <= len,
                    len >= 16,
                    len == row@.len(),
                    clear@ == masked(row@, wide_label@),
                    zeros ==> forall|k: int|
                        len - 16 <= k < j ==> #[trigger] masked(row@, wide_label@)[k] == 0,
                    !zeros ==> !decrypts(row@, wide_label@),
                decreases len - j,
            {
                if clear[j] != 0 {
                    assert(masked(row@, wide_label@)[j as int] != 0);
                    zeros = false;
                }
                j = j + 1;
            }
            if zeros {
                assert(decrypts(row@, wide_label@));
                return Some(i);
            }
            i = i + 1;
        }
        None
    }

    /// The number of the first row that decrypts under a label, and the wires in it.
    pub fn lookup_evaluated_wires_and_index(&self, wide_label: &Scalar) -> (r: (
        usize,
        Vec<EvaluatedWire>,
    ))
        requires
            first_row(rows_of(*self), wide_label@, 0) is Some,
        ensures
            first_row(rows_of(*self), wide_label@, 0) == Some(r.0 as int),
            r.1@ == row_wires(rows_of(*self), wide_label@, r.0 as int),
    {
        let index: usize = match self.find_row(wide_label) {
            Some(i) => i,
            None => 0,
        };
        proof {
            first_row_bounds(rows_of(*self), wide_label@, 0);
        }
        (index, self.open_row(index, wide_label))
    }

    fn open_row(&self, index: usize, wide_label: &Scalar) -> (r: Vec<EvaluatedWire>)
        requires
            index < self.0@.len(),
            self.0@[index as int]@.len() == 16 * floor_log2(self.0@.len()) + 16,
        ensures
            r@ == row_wires(rows_of(*self), wide_label@, index as int),
    {
        let n: usize = log2(self.0.len());
        let clear = mask_bytes(&self.0[index], wide_label);
        let ghost rows = rows_of(*self);
        assert(rows[index as int] == self.0@[index as int]@);
        let mut powers: Vec<usize> = Vec::new();
        let mut power: usize = 1;
        let mut p: usize = 0;
        proof {
            lemma2_to64();
        }
        while p < n
            invariant
                p <= n,
                n == floor_log2(self.0@.len()),
                pow2(n as nat) <= self.0@.len(),
                self.0@.len() <= usize::MAX,
                power == pow2(p as nat),
                powers@.len() == p,
                forall|k: int| 0 <= k < p ==> #[trigger] powers@[k] == pow2(k as nat),
            decreases n - p,
        {
            powers.push(power);
            proof {
                lemma_pow2_unfold((p + 1) as nat);
                pow2_grows((p + 1) as nat, n as nat);
            }
            power = power * 2;
            p = p + 1;
        }
        let mut r: Vec<EvaluatedWire> = Vec::new();
        let mut b: usize = 0;
        while b < n
            invariant
                b <= n,
                n == floor_log2(rows.len()),
                rows == rows_of(*self),
                index < rows.len(),
                rows[index as int].len() == 16 * n + 16,
                clear@ == masked(rows[index as int], wide_label@),
                powers@.len() == n,
                forall|k: int| 0 <= k < n ==> #[trigger] powers@[k] == pow2(k as nat),
                r@.len() == b,
                forall|k: int|
                    0 <= k < b ==> #[trigger] r@[k] == row_wires(rows, wide_label@, index as int)[k],
            decreases n - b,
        {
            assert(clear@.len() == clear.len());
            let chunk = slice_subrange(clear.as_slice(), 16 * b, 16 * b + 16);
            assert(chunk@ =~= clear@.subrange(16 * b, 16 * b + 16));
            let label = S::from_bytes(first_16(chunk));
            assert(chunk@.take(16) =~= chunk@);
            let divisor: usize = powers[n - b - 1];
            proof {
                lemma_pow2_pos((n - b - 1) as nat);
            }
            let value = (index / divisor) % 2 == 1;
            r.push(EvaluatedWire::new(label, value));
            b = b + 1;
        }
        assert(r@ =~= row_wires(rows, wide_label@, index as int));
        r
    }

    /// The number of the first row that decrypts under a label, and the wires in it,
    /// if the search reaches one.
    pub fn try_lookup(&self, wide_label: &Scalar) -> (r: Option<(usize, Vec<EvaluatedWire>)>)
        ensures
            match (r, first_row(rows_of(*self), wide_label@, 0)) {
                (Some(found), Some(f)) => found.0 == f && found.1@ == row_wires(
                    rows_of(*self),
                    wide_label@,
                    f,
                ),
                (None, None) => true,
                _ => false,
            },
    {
        match self.find_row(wide_label) {
            Some(_) => Some(self.lookup_evaluated_wires_and_index(wide_label)),
            None => None,
        }
    }

    /// The wires in the first row that decrypts under a label.
    pub fn lookup_evaluated_wires(&self, wide_label: &Scalar) -> (r: Vec<EvaluatedWire>)
        requires
            first_row(rows_of(*self), wide_label@, 0) is Some,
        ensures
            r@ == row_wires(
                rows_of(*self),
                wide_label@,
                first_row(rows_of(*self), wide_label@, 0)->0,
            ),
    {
        self.lookup_evaluated_wires_and_index(wide_label).1
    }

    /// The number of the first row that decrypts under a label.
    pub fn lookup_index(&self, wide_label: &Scalar) -> (r: usize)
        requires
            first_row(rows_of(*self), wide_label@, 0) is Some,
        ensures
            first_row(rows_of(*self), wide_label@, 0) == Some(r as int),
    {
        self.lookup_evaluated_wires_and_index(wide_label).0
    }

    /// The labels in the first row that decrypts under a label.
    pub fn lookup(&self, wide_label: &Scalar) -> (r: Vec<S>)
        requires
            first_row(rows_of(*self), wide_label@, 0) is Some,
        ensures
            r@ == active_labels(
                row_wires(
                    rows_of(*self),
                    wide_label@,
                    first_row(rows_of(*self), wide_label@, 0)->0,
                ),
            ),
    {
        let wires = self.lookup_evaluated_wires(wide_label);
        let mut r: Vec<S> = Vec::new();
        let mut i: usize = 0;
        while i < wires.len()
            invariant
                i <= wires@.len(),
                r@.len() == i,
                forall|k: int| 0 <= k < i ==> #[trigger] r@[k] == wires@[k].active_label,
            decreases wires@.len() - i,
        {
            r.push(wires[i].active_label);
            i = i + 1;
        }
        assert(r@ =~= active_labels(wires@));
        r
    }

    /// The labels in the first row that decrypts under a label, if the search reaches
    /// one.
    pub fn try_lookup_labels(&self, wide_label: &Scalar) -> (r: Option<(usize, Vec<S>)>)
        ensures
            match (r, first_row(rows_of(*self), wide_label@, 0)) {
                (Some(found), Some(f)) => found.0 == f && found.1@ == active_labels(
                    row_wires(rows_of(*self), wide_label@, f),
                ),
                (None, None) => true,
                _ => false,
            },
    {
        match self.find_row(wide_label) {
            Some(_) => Some((self.lookup_index(wide_label), self.lookup(wide_label))),
            None => None,
        }
    }
}

/// The labels of evaluated wires.
pub open spec fn active_labels(wires: Seq<EvaluatedWire>) -> Seq<S> {
    Seq::new(wires.len(), |i: int| wires[i].active_label)
}

proof fn pow2_grows(a: nat, b: nat)
    requires
        a <= b,
    ensures
        pow2(a) <= pow2(b),
{
    if a < b {
        vstd::arithmetic::power2::lemma_pow2_strictly_increases(a, b);
    }
}

/// A row that is found is a row of the table, of the right length, and decrypts.
pub proof fn first_row_bounds(rows: Seq<Seq<u8>>, key: int, i: int)
    requires
        0 <= i,
    ensures
        first_row(rows, key, i) matches Some(f) ==> i <= f < rows.len() && rows[f].len() == 16
            * floor_log2(rows.len()) + 16 && decrypts(rows[f], key) && forall|k: int|
            i <= k < f ==> !decrypts(#[trigger] rows[k], key),
    decreases rows.len() - i,
{
    if i < rows.len() {
        first_row_bounds(rows, key, i + 1);
    }
}

/// The `k`th of the pieces of length `size` into which a sequence is cut; the last may
/// be shorter.
pub open spec fn piece<T>(s: Seq<T>, size: int, k: int) -> Seq<T> {
    s.subrange(
        size * k,
        if size * k + size <= s.len() {
            size * k + size
        } else {
            s.len() as int
        },
    )
}

/// How many pieces of length `size` a sequence is cut into.
pub open spec fn pieces<T>(s: Seq<T>, size: int) -> int {
    (s.len() + size - 1) / size
}

/// Where the last piece ends.
pub proof fn pieces_end<T>(s: Seq<T>, size: int)
    requires
        size > 0,
    ensures
        0 <= pieces(s, size),
        size * (pieces(s, size) - 1) < s.len() <= size * pieces(s, size) || pieces(s, size) == 0
            && s.len() == 0,
{
    let q = pieces(s, size);
    vstd::arithmetic::div_mod::lemma_fundamental_div_mod(s.len() + size - 1, size);
    assert(size * (q - 1) == size * q - size) by (nonlinear_arith);
    assert(q >= 0) by (nonlinear_arith)
        requires
            size * q + size > s.len() + size - 1,
            s.len() >= 0,
            size > 0,
    ;
}

/// How many tables labels of bytes and bits give.
pub open spec fn table_count(byte_labels: Seq<Scalar>, wires: Seq<GarbledWire>) -> int {
    let (a, b) = (pieces(byte_labels, 256), pieces(wires, 8));
    if a <= b {
        a
    } else {
        b
    }
}

/// Whether every byte has a label for each value of its bits.
pub open spec fn labels_match(byte_labels: Seq<Scalar>, wires: Seq<GarbledWire>) -> bool {
    forall|k: int|
        0 <= k < table_count(byte_labels, wires) ==> has_all_labels(
            piece(byte_labels, 256, k),
            #[trigger] piece(wires, 8, k),
        )
}

/// The tables for the labels of bytes and bits.
pub open spec fn tables_of(byte_labels: Seq<Scalar>, wires: Seq<GarbledWire>) -> Seq<
    Seq<Seq<u8>>,
> {
    Seq::new(
        table_count(byte_labels, wires) as nat,
        |k: int| table_of(piece(byte_labels, 256, k), piece(wires, 8, k)),
    )
}

/// The rows of several tables.
pub open spec fn all_rows(tables: Seq<GarbledWideLabelTable>) -> Seq<Seq<Seq<u8>>> {
    Seq::new(tables.len(), |k: int| rows_of(tables[k]))
}

/// The first `n` rows of a table, one after the other.
pub open spec fn joined_rows(rows: Seq<Seq<u8>>, n: nat) -> Seq<u8>
    decreases n,
{
    if n == 0 {
        seq![]
    } else {
        joined_rows(rows, (n - 1) as nat) + rows[n - 1]
    }
}

/// The first `n` tables, one after the other.
pub open spec fn joined_tables(tables: Seq<Seq<Seq<u8>>>, n: nat) -> Seq<u8>
    decreases n,
{
    if n == 0 {
        seq![]
    } else {
        joined_tables(tables, (n - 1) as nat) + joined_rows(tables[n - 1], tables[n - 1].len())
    }
}

/// The hash over all bytes of several tables.
pub open spec fn tables_hash(tables: Seq<Seq<Seq<u8>>>) -> Seq<u8> {
    blake3_digest(joined_tables(tables, tables.len()))
}

impl GarbledWideLabelTable {
    /// The tables for the labels of bytes and of their bits, eight bits to a byte; the
    /// last byte may have fewer.
    pub fn build_all(byte_labels: &[Scalar], bit_labels: &[GarbledWire]) -> (r: Vec<Self>)
        requires
            labels_match(byte_labels@, bit_labels@),
        ensures
            all_rows(r@) == tables_of(byte_labels@, bit_labels@),
    {
        let mut r: Vec<Self> = Vec::new();
        let (n, m): (usize, usize) = (byte_labels.len(), bit_labels.len());
        let ghost count = table_count(byte_labels@, bit_labels@);
        let mut i: usize = 0;
        let mut j: usize = 0;
        while i < n && j < m
            invariant
                n == byte_labels@.len(),
                m == bit_labels@.len(),
                count == table_count(byte_labels@, bit_labels@),
                labels_match(byte_labels@, bit_labels@),
                r@.len() <= count,
                i == 256 * r@.len() || i == n && r@.len() == count,
                j == 8 * r@.len() || j == m && r@.len() == count,
                i <= n,
                j <= m,
                forall|k: int|
                    0 <= k < r@.len() ==> rows_of(#[trigger] r@[k]) == tables_of(
                        byte_labels@,
                        bit_labels@,
                    )[k],
            decreases n - i,
        {
            let i2: usize = if n - i < 256 {
                n
            } else {
                i + 256
            };
            let j2: usize = if m - j < 8 {
                m
            } else {
                j + 8
            };
            let ghost k = r@.len() as int;
            let a = slice_subrange(byte_labels, i, i2);
            let b = slice_subrange(bit_labels, j, j2);
            proof {
                assert(k < count);
                assert(a@ =~= piece(byte_labels@, 256, k));
                assert(b@ =~= piece(bit_labels@, 8, k));
            }
            r.push(GarbledWideLabelTable::new(a, b));
            i = i2;
            j = j2;
        }
        assert(r@.len() == count);
        assert(all_rows(r@) =~= tables_of(byte_labels@, bit_labels@));
        r
    }

    /// The hash over all tables.
    pub fn aggregate_hash(tables: &[Self]) -> (r: [u8; 32])
        ensures
            r@ == tables_hash(all_rows(tables@)),
    {
        let ghost rows = all_rows(tables@);
        let mut bytes: Vec<u8> = Vec::new();
        let mut t: usize = 0;
        while t < tables.len()
            invariant
                t <= tables@.len(),
                rows == all_rows(tables@),
                bytes@ == joined_tables(rows, t as nat),
            decreases tables@.len() - t,
        {
            let table = &tables[t];
            let ghost before = bytes@;
            assert(rows[t as int] == rows_of(*table));
            let mut i: usize = 0;
            assert(bytes@ =~= before + joined_rows(rows[t as int], 0));
            while i < table.0.len()
                invariant
                    i <= table.0@.len(),
                    rows[t as int] == rows_of(*table),
                    bytes@ == before + joined_rows(rows[t as int], i as nat),
                decreases table.0@.len() - i,
            {
                push_bytes(&mut bytes, table.0[i].as_slice());
                assert(bytes@ =~= before + joined_rows(rows[t as int], (i + 1) as nat));
                i = i + 1;
            }
            t = t + 1;
        }
        blake3_hash(bytes.as_slice())
    }
}

/// A mask that is put on twice is off.
pub proof fn mask_undoes_itself(bytes: Seq<u8>, key: int)
    ensures
        masked(masked(bytes, key), key) == bytes,
{
    let once = masked(bytes, key);
    assert forall|j: int| 0 <= j < bytes.len() implies masked(once, key)[j] == bytes[j] by {
        let (a, m) = (bytes[j], blake3_output(le_bytes_32(key), bytes.len())[j]);
        assert((a ^ m) ^ m == a) by (bit_vector);
    }
    assert(masked(once, key) =~= bytes);
}

proof fn log2_of_power(n: nat)
    ensures
        floor_log2(pow2(n)) == n,
    decreases n,
{
    lemma2_to64();
    if n > 0 {
        lemma_pow2_unfold(n);
        lemma_pow2_pos((n - 1) as nat);
        log2_of_power((n - 1) as nat);
    }
}

proof fn label_in_bytes(wires: Seq<GarbledWire>, i: int, k: nat, b: int)
    requires
        0 <= b < k <= wires.len(),
    ensures
        labels_bytes(wires, i, k).subrange(16 * b, 16 * b + 16) == be_bytes(
            selected(wires[b], bit_of(i, wires.len() as int, b)).0,
        ),
    decreases k,
{
    labels_bytes_len(wires, i, (k - 1) as nat);
    let part = labels_bytes(wires, i, (k - 1) as nat);
    let last = be_bytes(selected(wires[k - 1], bit_of(i, wires.len() as int, k - 1)).0);
    if b == k - 1 {
        assert((part + last).subrange(16 * b, 16 * b + 16) =~= last);
    } else {
        label_in_bytes(wires, i, (k - 1) as nat, b);
        assert((part + last).subrange(16 * b, 16 * b + 16) =~= part.subrange(16 * b, 16 * b + 16));
    }
}

/// A table gives back what it was made of: under the label of a value its row
/// decrypts, to the labels of the bits of the value. If no earlier row decrypts under
/// that label, it is the row that is found.
pub proof fn lookup_gives_bits(byte_labels: Seq<Scalar>, wires: Seq<GarbledWire>, i: int)
    requires
        has_all_labels(byte_labels, wires),
        0 <= i < byte_labels.len(),
    ensures
        ({
            let rows = table_of(byte_labels, wires);
            let key = byte_labels[i]@;
            &&& decrypts(rows[i], key)
            &&& row_wires(rows, key, i) == Seq::new(
                wires.len(),
                |b: int|
                    EvaluatedWire {
                        active_label: selected(wires[b], bit_of(i, wires.len() as int, b)),
                        value: bit_of(i, wires.len() as int, b),
                    },
            )
            &&& first_row(rows, key, 0) is Some
            &&& first_row(rows, key, 0)->0 <= i
            &&& (forall|k: int| 0 <= k < i ==> !decrypts(#[trigger] rows[k], key)) ==> first_row(
                rows,
                key,
                0,
            ) == Some(i)
        }),
{
    let rows = table_of(byte_labels, wires);
    let key = byte_labels[i]@;
    let n = wires.len();
    log2_of_power(n);
    let clear = clear_row(wires, i);
    mask_undoes_itself(clear, key);
    labels_bytes_len(wires, i, n);
    assert(masked(rows[i], key) == clear);
    let want = Seq::new(
        n,
        |b: int|
            EvaluatedWire {
                active_label: selected(wires[b], bit_of(i, n as int, b)),
                value: bit_of(i, n as int, b),
            },
    );
    assert forall|b: int| 0 <= b < n implies row_wires(rows, key, i)[b] == want[b] by {
        label_in_bytes(wires, i, n, b);
        let label = selected(wires[b], bit_of(i, n as int, b));
        assert(clear.subrange(16 * b, 16 * b + 16) =~= labels_bytes(wires, i, n).subrange(
            16 * b,
            16 * b + 16,
        ));
        bytes_round_trip(label, be_bytes(label.0));
    }
    assert(row_wires(rows, key, i) =~= want);
    assert forall|k: int| 0 <= k < rows.len() implies (#[trigger] rows[k]).len() == 16 * floor_log2(
        rows.len(),
    ) + 16 by {
        labels_bytes_len(wires, k, n);
    }
    search_reaches(rows, key, 0, i);
}

proof fn search_reaches(rows: Seq<Seq<u8>>, key: int, from: int, i: int)
    requires
        0 <= from <= i < rows.len(),
        forall|k: int|
            0 <= k < rows.len() ==> (#[trigger] rows[k]).len() == 16 * floor_log2(rows.len()) + 16,
        decrypts(rows[i], key),
    ensures
        first_row(rows, key, from) is Some,
        first_row(rows, key, from)->0 <= i,
        (forall|k: int| from <= k < i ==> !decrypts(#[trigger] rows[k], key)) ==> first_row(
            rows,
            key,
            from,
        ) == Some(i),
    decreases i - from,
{
    if from < i {
        search_reaches(rows, key, from + 1, i);
    }
}

/// A row is masked with the extendable output for the bytes of its key: where the row is
/// zero the mask itself stands, and under two keys a row differs by what their outputs
/// differ.
pub proof fn mask_is_keyed(bytes: Seq<u8>, key: int, other: int, j: int)
    requires
        0 <= j < bytes.len(),
    ensures
        masked(bytes, key).len() == bytes.len(),
        bytes[j] == 0 ==> masked(bytes, key)[j] == blake3_output(
            le_bytes_32(key),
            bytes.len(),
        )[j],
        masked(bytes, key)[j] ^ masked(bytes, other)[j] == blake3_output(
            le_bytes_32(key),
            bytes.len(),
        )[j] ^ blake3_output(le_bytes_32(other), bytes.len())[j],
{
    let b = bytes[j];
    let x = blake3_output(le_bytes_32(key), bytes.len())[j];
    let y = blake3_output(le_bytes_32(other), bytes.len())[j];
    assert((0u8 ^ x == x) && (b ^ x) ^ (b ^ y) == x ^ y) by (bit_vector);
}

/// A row decrypts under a key exactly if its last sixteen bytes are those of the mask.
pub proof fn row_decrypts_by_its_end(row: Seq<u8>, key: int)
    requires
        row.len() >= 16,
    ensures
        decrypts(row, key) <==> forall|j: int|
            row.len() - 16 <= j < row.len() ==> #[trigger] row[j] == blake3_output(
                le_bytes_32(key),
                row.len(),
            )[j],
{
    let mask = blake3_output(le_bytes_32(key), row.len());
    assert forall|j: int| row.len() - 16 <= j < row.len() implies (#[trigger] masked(row, key)[j]
        == 0 <==> row[j] == mask[j]) by {
        let (b, x) = (row[j], mask[j]);
        assert(b ^ x == 0 <==> b == x) by (bit_vector);
    }
    if decrypts(row, key) {
        assert forall|j: int| row.len() - 16 <= j < row.len() implies #[trigger] row[j]
            == mask[j] by {
            assert(masked(row, key)[j] == 0);
        }
    }
    if forall|j: int| row.len() - 16 <= j < row.len() ==> #[trigger] row[j] == mask[j] {
        assert forall|j: int| row.len() - 16 <= j < row.len() implies #[trigger] masked(
            row,
            key,
        )[j] == 0 by {
            assert(row[j] == mask[j]);
        }
    }
}

/// A row for a value is found if it is of the right length, decrypts, and no row before
/// it decrypts or is of another length; and nothing is found only if no row decrypts
/// before the first of another length.
pub proof fn row_found_is_first(rows: Seq<Seq<u8>>, key: int, from: int, i: int)
    requires
        0 <= from <= i < rows.len(),
        forall|k: int|
            from <= k <= i ==> (#[trigger] rows[k]).len() == 16 * floor_log2(rows.len()) + 16,
        forall|k: int| from <= k < i ==> !decrypts(#[trigger] rows[k], key),
        decrypts(rows[i], key),
    ensures
        first_row(rows, key, from) == Some(i),
    decreases i - from,
{
    assert(rows[from].len() == rows[from].len());
    if from < i {
        row_found_is_first(rows, key, from + 1, i);
    }
}

/// The row for a value in the clear: sixteen bytes for each wire, the label that stands
/// for the value's bit, then sixteen zeros.
pub proof fn clear_row_holds_labels(wires: Seq<GarbledWire>, i: int, b: int, j: int)
    requires
        0 <= b < wires.len(),
        0 <= j < 16,
    ensures
        clear_row(wires, i).len() == 16 * wires.len() + 16,
        clear_row(wires, i).subrange(16 * b, 16 * b + 16) == be_bytes(
            if bit_of(i, wires.len() as int, b) {
                wires[b].label1.0
            } else {
                wires[b].label0.0
            },
        ),
        clear_row(wires, i)[16 * wires.len() + j] == 0,
{
    labels_bytes_len(wires, i, wires.len());
    label_in_bytes(wires, i, wires.len(), b);
    let labels = labels_bytes(wires, i, wires.len());
    assert(clear_row(wires, i).subrange(16 * b, 16 * b + 16) =~= labels.subrange(
        16 * b,
        16 * b + 16,
    ));
}

/// A table has a row for every label of the byte, masked with that label.
pub proof fn table_has_row_per_label(byte_labels: Seq<Scalar>, wires: Seq<GarbledWire>, i: int)
    requires
        0 <= i < byte_labels.len(),
    ensures
        table_of(byte_labels, wires).len() == byte_labels.len(),
        masked(table_of(byte_labels, wires)[i], byte_labels[i]@) == clear_row(wires, i),
{
    mask_undoes_itself(clear_row(wires, i), byte_labels[i]@);
}

/// Pieces are a sequence's elements in order: element `j` of piece `k` is element
/// `size * k + j`, every piece but the last has the full size, and the last ends it.
pub proof fn pieces_are_consecutive<T>(s: Seq<T>, size: int, k: int, j: int)
    requires
        size > 0,
        0 <= k < pieces(s, size),
    ensures
        0 < piece(s, size, k).len() <= size,
        k < pieces(s, size) - 1 ==> piece(s, size, k).len() == size,
        k == pieces(s, size) - 1 ==> size * k + piece(s, size, k).len() == s.len(),
        0 <= j < piece(s, size, k).len() ==> piece(s, size, k)[j] == s[size * k + j],
{
    let q = pieces(s, size);
    pieces_end(s, size);
    assert(0 <= size * k <= size * (q - 1) && (k < q - 1 ==> size * k + size <= size * (q - 1))
        && size * q == size * (q - 1) + size) by (nonlinear_arith)
        requires
            size > 0,
            0 <= k <= q - 1,
    ;
}

/// The tables of an input are those of its bytes in order: as many as both the labels and
/// the wires have bytes.
pub proof fn tables_are_of_bytes(byte_labels: Seq<Scalar>, wires: Seq<GarbledWire>, k: int)
    requires
        0 <= k < pieces(byte_labels, 256),
        k < pieces(wires, 8),
    ensures
        tables_of(byte_labels, wires).len() <= pieces(byte_labels, 256),
        tables_of(byte_labels, wires).len() <= pieces(wires, 8),
        k < tables_of(byte_labels, wires).len(),
        tables_of(byte_labels, wires)[k] == table_of(
            piece(byte_labels, 256, k),
            piece(wires, 8, k),
        ),
{
}

/// The hash of tables is the digest of all their rows one after the other.
pub proof fn tables_hash_is_of_all_rows(tables: Seq<Seq<Seq<u8>>>)
    ensures
        tables_hash(tables) == blake3_digest(
            Seq::new(tables.len(), |k: int| tables[k].flatten()).flatten(),
        ),
{
    let flat = Seq::new(tables.len(), |k: int| tables[k].flatten());
    tables_are_joined(tables, tables.len());
    assert(flat.take(tables.len() as int) =~= flat);
    flat.lemma_flatten_and_flatten_alt_are_equivalent();
}

proof fn rows_are_joined(rows: Seq<Seq<u8>>, n: nat)
    requires
        n <= rows.len(),
    ensures
        joined_rows(rows, n) == rows.take(n as int).flatten_alt(),
    decreases n,
{
    if n > 0 {
        rows_are_joined(rows, (n - 1) as nat);
        assert(rows.take(n as int).drop_last() =~= rows.take(n - 1));
    }
}

proof fn tables_are_joined(tables: Seq<Seq<Seq<u8>>>, n: nat)
    requires
        n <= tables.len(),
    ensures
        joined_tables(tables, n) == Seq::new(
            tables.len(),
            |k: int| tables[k].flatten(),
        ).take(n as int).flatten_alt(),
    decreases n,
{
    let flat = Seq::new(tables.len(), |k: int| tables[k].flatten());
    if n > 0 {
        tables_are_joined(tables, (n - 1) as nat);
        assert(flat.take(n as int).drop_last() =~= flat.take(n - 1));
        let rows = tables[n - 1];
        rows_are_joined(rows, rows.len());
        assert(rows.take(rows.len() as int) =~= rows);
        rows.lemma_flatten_and_flatten_alt_are_equivalent();
    }
}

} // verus!
