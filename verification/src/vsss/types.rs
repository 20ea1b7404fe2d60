//! Rows and columns.

use crate::soldering_data::rows;
use vstd::prelude::*;

verus! {

/// The columns of a list of rows.
pub open spec fn columns<T>(m: Seq<Seq<T>>) -> Seq<Seq<T>> {
    Seq::new(m[0].len(), |i: int| Seq::new(m.len(), |j: int| m[j][i]))
}

/// The columns of a list of rows; the first row says how many there are.
pub fn transpose<T: Copy>(m: &[Vec<T>]) -> (r: Vec<Vec<T>>)
    requires
        m@.len() > 0,
        forall|j: int| 0 <= j < m@.len() ==> m@[0]@.len() <= (#[trigger] m@[j])@.len(),
    ensures
        rows(r@) == columns(rows(m@)),
{
    let mut r: Vec<Vec<T>> = Vec::new();
    let n: usize = m[0].len();
    let mut i: usize = 0;
    while i < n
        invariant
            i <= n,
            m@.len() > 0,
            n == m@[0]@.len(),
            forall|j: int| 0 <= j < m@.len() ==> m@[0]@.len() <= (#[trigger] m@[j])@.len(),
            r@.len() == i,
            forall|k: int| 0 <= k < i ==> (#[trigger] r@[k])@ == columns(rows(m@))[k],
        decreases n - i,
    {
        let mut column: Vec<T> = Vec::new();
        let mut j: usize = 0;
        while j < m.len()
            invariant
                j <= m@.len(),
                i < n,
                n == m@[0]@.len(),
                forall|j: int| 0 <= j < m@.len() ==> m@[0]@.len() <= (#[trigger] m@[j])@.len(),
                column@.len() == j,
                forall|k: int| 0 <= k < j ==> #[trigger] column@[k] == m@[k]@[i as int],
            decreases m@.len() - j,
        {
            assert(m@[0]@.len() <= m@[j as int]@.len());
            column.push(m[j][i]);
            j = j + 1;
        }
        assert(column@ =~= columns(rows(m@))[i as int]);
        r.push(column);
        i = i + 1;
    }
    assert(rows(r@) =~= columns(rows(m@)));
    r
}

/// Columns of columns are the rows again, if all rows have the length of the first.
pub proof fn columns_of_columns<T>(m: Seq<Seq<T>>)
    requires
        m.len() > 0,
        m[0].len() > 0,
        forall|j: int| 0 <= j < m.len() ==> (#[trigger] m[j]).len() == m[0].len(),
    ensures
        columns(columns(m)) == m,
{
    let c = columns(m);
    assert(c[0].len() == m.len());
    assert forall|j: int| 0 <= j < m.len() implies columns(c)[j] == m[j] by {
        assert(columns(c)[j] =~= m[j]);
    }
    assert(columns(c) =~= m);
}

/// The columns of a table have its elements with row and column exchanged.
pub proof fn columns_exchange_indexes<T>(m: Seq<Seq<T>>, i: int, j: int)
    requires
        0 < m.len(),
        0 <= i < m[0].len(),
        0 <= j < m.len(),
    ensures
        columns(m).len() == m[0].len(),
        columns(m)[i].len() == m.len(),
        columns(m)[i][j] == m[j][i],
{
}

} // verus!
