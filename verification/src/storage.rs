//! Storage for wire values with a budget of reads for each value.
//!
//! The total number of reads of a wire is known before it is stored; the credits
//! of a stored value are the reads that remain. The last read hands the value out
//! and frees its place.

use slab::Slab;
use vstd::prelude::*;
use vstd::std_specs::convert::{FromSpec, IntoSpec};

verus! {

/// The reads that remain of a stored value.
pub type Credits = u16;

#[verifier::external_type_specification]
#[verifier::external_body]
#[verifier::reject_recursive_types(T)]
pub struct ExSlab<T>(slab::Slab<T>);

/// What a slab holds: the value under each key in use.
pub uninterp spec fn slab_contents(s: Slab<u16>) -> Map<int, u16>;

/// The keys of a slab that were freed and are not in use again, the one freed last
/// at the end.
pub uninterp spec fn slab_vacant(s: Slab<u16>) -> Seq<int>;

/// Calls `slab::Slab::with_capacity`: the slab holds nothing and no key was freed. An
/// entry takes no more than 16 bytes, and a vector no more than `isize::MAX`.
#[verifier::external_body]
fn slab_with_capacity(capacity: usize) -> (r: Slab<u16>)
    requires
        16 * capacity <= isize::MAX,
    ensures
        slab_contents(r).dom() == Set::<int>::empty(),
        slab_vacant(r).len() == 0,
{
    Slab::with_capacity(capacity)
}

/// Calls `slab::Slab::insert`: the value is stored under the key that was freed
/// last, or, if there is none, under the next key after those in use. Keys are
/// positions in a vector, whose length is at most `isize::MAX`.
#[verifier::external_body]
fn slab_insert(s: &mut Slab<u16>, value: u16) -> (r: usize)
    ensures
        r < isize::MAX,
        slab_contents(*final(s)) == slab_contents(*old(s)).insert(r as int, value),
        slab_vacant(*old(s)).len() > 0 ==> r == slab_vacant(*old(s)).last() && slab_vacant(
            *final(s),
        ) == slab_vacant(*old(s)).drop_last(),
        slab_vacant(*old(s)).len() == 0 ==> r == slab_contents(*old(s)).dom().len() && slab_vacant(
            *final(s),
        ) == slab_vacant(*old(s)),
{
    s.insert(value)
}

/// Calls `slab::Slab::remove` on a key in use: the key is freed.
#[verifier::external_body]
fn slab_remove(s: &mut Slab<u16>, key: usize) -> (r: u16)
    requires
        slab_contents(*old(s)).dom().contains(key as int),
    ensures
        r == slab_contents(*old(s))[key as int],
        slab_contents(*final(s)) == slab_contents(*old(s)).remove(key as int),
        slab_vacant(*final(s)) == slab_vacant(*old(s)).push(key as int),
{
    s.remove(key)
}

/// Calls `slab::Slab::get`: the value under a key, nothing if the key is not in
/// use.
#[verifier::external_body]
fn slab_get(s: &Slab<u16>, key: usize) -> (r: Option<u16>)
    ensures
        r == (if slab_contents(*s).dom().contains(key as int) {
            Some(slab_contents(*s)[key as int])
        } else {
            None
        }),
{
    s.get(key).copied()
}

/// Calls `slab::Slab::get_mut` on a key in use and writes through the reference.
#[verifier::external_body]
fn slab_put(s: &mut Slab<u16>, key: usize, value: u16)
    requires
        slab_contents(*old(s)).dom().contains(key as int),
    ensures
        slab_contents(*final(s)) == slab_contents(*old(s)).insert(key as int, value),
        slab_vacant(*final(s)) == slab_vacant(*old(s)),
{
    *s.get_mut(key).unwrap() = value;
}

/// Calls `slab::Slab::len`: the number of keys in use.
#[verifier::external_body]
fn slab_len(s: &Slab<u16>) -> (r: usize)
    ensures
        r == slab_contents(*s).dom().len(),
{
    s.len()
}

/// Calls `slab::Slab::capacity`: the number of values for which there is room,
/// which is at least the number of keys in use. How much more it is depends on the
/// allocator.
#[verifier::external_body]
fn slab_capacity(s: &Slab<u16>) -> (r: usize)
    ensures
        r >= slab_contents(*s).dom().len(),
{
    s.capacity()
}

/// Takes the value out of place `i` and leaves nothing there.
fn take_at<T>(data: &mut Vec<Option<T>>, i: usize) -> (r: Option<T>)
    requires
        i < old(data)@.len(),
    ensures
        r == old(data)@[i as int],
        final(data)@ == old(data)@.update(i as int, None),
{
    let mut taken: Option<T> = None;
    core::mem::swap(&mut data[i], &mut taken);
    taken
}

/// Why an operation on the storage failed.
#[derive(Clone, Copy, Debug, PartialEq, Eq, Structural)]
pub enum Error {
    /// Nothing is stored at this place.
    NotFound { key: usize },
    /// The credits would exceed the largest number of credits.
    OverflowCredits,
}

/// A value that was read: borrowed while reads remain, owned at the last read.
#[derive(Debug, PartialEq, Eq)]
pub enum Data<'l, T> {
    Borrowed(&'l T),
    Owned(T),
}

/// The value that was read.
pub open spec fn read_value<T>(d: Data<T>) -> T {
    match d {
        Data::Borrowed(b) => *b,
        Data::Owned(o) => o,
    }
}

impl<'l, T: Clone> Data<'l, T> {
    /// The value itself, or a clone of it if it is borrowed.
    pub fn to_owned(self) -> (r: T)
        ensures
            match self {
                Data::Owned(owned) => r == owned,
                Data::Borrowed(b) => call_ensures(T::clone, (b,), r),
            },
    {
        match self {
            Data::Owned(owned) => owned,
            Data::Borrowed(b) => b.clone(),
        }
    }
}

/// The value that was read, copied if it is borrowed.
pub(crate) fn copied<T: Copy>(d: Data<T>) -> (r: T)
    ensures
        r == read_value(d),
{
    match d {
        Data::Owned(owned) => owned,
        Data::Borrowed(b) => *b,
    }
}

/// Values with credits under keys. The key of a place is `index_offset` more than
/// its number.
pub struct Storage<K, T> {
    pub credits: Slab<u16>,
    pub data: Vec<Option<T>>,
    pub index_offset: usize,
    pub marker: core::marker::PhantomData<K>,
}

/// What a storage holds: the credits and the value at each place in use, and the
/// places that were freed and are not in use, the one freed last at the end.
pub struct StoreView<T> {
    pub entries: Map<int, (u16, T)>,
    pub vacant: Seq<int>,
}

impl<T> StoreView<T> {
    /// Whether place `i` is in use.
    pub open spec fn holds(self, i: int) -> bool {
        self.entries.dom().contains(i)
    }

    /// The value at place `i`.
    pub open spec fn value(self, i: int) -> T {
        self.entries[i].1
    }

    /// The credits of place `i`.
    pub open spec fn credits(self, i: int) -> u16 {
        self.entries[i].0
    }

    /// After one read of place `i`: one credit less, or the place freed if it was
    /// the last.
    pub open spec fn after_get(self, i: int) -> StoreView<T> {
        if !self.holds(i) {
            self
        } else if self.credits(i) == 1 {
            StoreView { entries: self.entries.remove(i), vacant: self.vacant.push(i) }
        } else {
            StoreView {
                entries: self.entries.insert(i, ((self.credits(i) - 1) as u16, self.value(i))),
                vacant: self.vacant,
            }
        }
    }

    /// After the value at place `i` was changed to `v`.
    pub open spec fn after_set(self, i: int, v: T) -> StoreView<T> {
        StoreView {
            entries: self.entries.insert(i, (self.credits(i), v)),
            vacant: self.vacant,
        }
    }

    /// After `c` credits were added to place `i`.
    pub open spec fn after_add(self, i: int, c: u16) -> StoreView<T> {
        StoreView {
            entries: self.entries.insert(i, ((self.credits(i) + c) as u16, self.value(i))),
            vacant: self.vacant,
        }
    }

    /// The place that the next value gets: the one freed last, or the next after
    /// those in use.
    pub open spec fn next_place(self) -> int {
        if self.vacant.len() > 0 {
            self.vacant.last()
        } else {
            self.entries.dom().len() as int
        }
    }

    /// After `v` was stored with `c` credits.
    pub open spec fn after_allocate(self, v: T, c: u16) -> StoreView<T> {
        StoreView {
            entries: self.entries.insert(self.next_place(), (c, v)),
            vacant: if self.vacant.len() > 0 {
                self.vacant.drop_last()
            } else {
                self.vacant
            },
        }
    }
}

impl<K, T> View for Storage<K, T> {
    type V = StoreView<T>;

    open spec fn view(&self) -> StoreView<T> {
        StoreView {
            entries: Map::new(
                |i: int| slab_contents(self.credits).dom().contains(i),
                |i: int| (slab_contents(self.credits)[i], self.data@[i]->0),
            ),
            vacant: slab_vacant(self.credits),
        }
    }
}

/// Whether the conversions between keys and numbers are functions.
pub open spec fn key_type<K: From<usize> + Into<usize>>() -> bool {
    <K as FromSpec<usize>>::obeys_from_spec() && <K as IntoSpec<usize>>::obeys_into_spec()
}

/// The place that a key names, counted from the offset.
pub open spec fn place<K: From<usize> + Into<usize>, T>(st: Storage<K, T>, key: K) -> int {
    key.into_spec() - st.index_offset
}

impl<K, T> Storage<K, T> {
    /// Every place is in use or vacant, not both; a place in use has a value and
    /// at least one credit.
    pub open spec fn wf(self) -> bool {
        let used = slab_contents(self.credits);
        let free = slab_vacant(self.credits);
        &&& used.dom().finite()
        &&& self.data@.len() == used.dom().len() + free.len()
        &&& self.index_offset <= isize::MAX
        &&& forall|i: int| #[trigger]
            used.dom().contains(i) ==> 0 <= i < self.data@.len() && i < isize::MAX
                && self.data@[i] is Some && used[i] > 0
        &&& forall|j: int|
            0 <= j < free.len() ==> 0 <= #[trigger] free[j] < self.data@.len()
                && !used.dom().contains(free[j])
        &&& forall|j: int, k: int| 0 <= j < k < free.len() ==> #[trigger] free[j] != #[trigger] free[k]
        &&& forall|i: int|
            0 <= i < self.data@.len() && !used.dom().contains(i) ==> (#[trigger] self.data@[i]) is None
    }
}

impl<K: From<usize> + Into<usize>, T: Default> Storage<K, T> {
    /// An empty storage with room for `capacity` values. Its first key is two.
    pub fn new(capacity: usize) -> (r: Self)
        requires
            16 * capacity <= isize::MAX,
        ensures
            r.wf(),
            r.index_offset == 2,
            r@.entries == Map::<int, (u16, T)>::empty(),
            r@.vacant == Seq::<int>::empty(),
    {
        let r = Storage {
            credits: slab_with_capacity(capacity),
            data: Vec::new(),
            index_offset: 2,
            marker: core::marker::PhantomData,
        };
        assert(r@.entries =~= Map::<int, (u16, T)>::empty());
        assert(r@.vacant =~= Seq::<int>::empty());
        r
    }

    /// The number of values stored.
    pub fn len(&self) -> (r: usize)
        requires
            self.wf(),
        ensures
            r == self@.entries.dom().len(),
    {
        assert(self@.entries.dom() =~= slab_contents(self.credits).dom());
        slab_len(&self.credits)
    }

    pub fn is_empty(&self) -> (r: bool)
        requires
            self.wf(),
        ensures
            r == (self@.entries.dom().len() == 0),
    {
        self.len() == 0
    }

    /// The number of values for which there is room.
    pub fn capacity(&self) -> (r: usize)
        requires
            self.wf(),
        ensures
            r >= self@.entries.dom().len(),
    {
        assert(self@.entries.dom() =~= slab_contents(self.credits).dom());
        slab_capacity(&self.credits)
    }

    fn to_index(&self, key: K) -> (r: usize)
        requires
            key_type::<K>(),
            key.into_spec() >= self.index_offset,
        ensures
            r == place(*self, key),
    {
        let index: usize = key.into();
        index - self.index_offset
    }

    /// Whether a value is stored under a key. No credit is used.
    pub fn contains(&self, key: K) -> (r: bool)
        requires
            key_type::<K>(),
            key.into_spec() >= self.index_offset,
        ensures
            r == self@.holds(place(*self, key)),
    {
        let index: usize = self.to_index(key);
        slab_get(&self.credits, index).is_some()
    }

    /// Stores a value with credits and gives its key. With no credits nothing is
    /// stored and the key is that of the largest number.
    pub fn allocate(&mut self, data: T, credits: Credits) -> (r: K)
        requires
            old(self).wf(),
            key_type::<K>(),
        ensures
            final(self).wf(),
            final(self).index_offset == old(self).index_offset,
            credits == 0 ==> r == K::from_spec(usize::MAX) && final(self)@ == old(self)@,
            credits > 0 ==> {
                let i = old(self)@.next_place();
                &&& 0 <= i < isize::MAX
                &&& r == K::from_spec((i + old(self).index_offset) as usize)
                &&& !old(self)@.holds(i)
                &&& final(self)@ == old(self)@.after_allocate(data, credits)
            },
    {
        assert(self@.entries.dom() =~= slab_contents(self.credits).dom());
        if credits == 0 {
            return K::from(usize::MAX);
        }
        let ghost before = *self;
        let ghost used0 = slab_contents(self.credits);
        let ghost free0 = slab_vacant(self.credits);
        proof {
            if free0.len() == 0 {
                all_places_used(*self);
            } else {
                assert(free0[free0.len() - 1] == free0.last());
            }
        }
        let index: usize = slab_insert(&mut self.credits, credits);
        if index < self.data.len() {
            self.data[index] = Some(data);
        } else {
            self.data.push(Some(data));
        }
        proof {
            assert(self@.entries =~= before@.entries.insert(index as int, (credits, data)));
        }
        K::from(index + self.index_offset)
    }

    /// Adds to the credits of a stored value.
    pub fn add_credits(&mut self, key: K, credits: Credits) -> (r: Result<(), Error>)
        requires
            old(self).wf(),
            key_type::<K>(),
            key.into_spec() >= old(self).index_offset,
        ensures
            final(self).wf(),
            final(self).index_offset == old(self).index_offset,
            ({
                let i = place(*old(self), key);
                if !old(self)@.holds(i) {
                    r == Err::<(), Error>(Error::NotFound { key: i as usize }) && final(self)@
                        == old(self)@
                } else if old(self)@.credits(i) + credits > u16::MAX {
                    r == Err::<(), Error>(Error::OverflowCredits) && final(self)@ == old(self)@
                } else {
                    r == Ok::<(), Error>(()) && final(self)@ == old(self)@.after_add(i, credits)
                }
            }),
    {
        let ghost before = *self;
        let index: usize = self.to_index(key);
        match slab_get(&self.credits, index) {
            None => Err(Error::NotFound { key: index }),
            Some(have) => {
                if have > Credits::MAX - credits {
                    Err(Error::OverflowCredits)
                } else {
                    slab_put(&mut self.credits, index, have + credits);
                    proof {
                        assert(slab_contents(self.credits).dom() =~= slab_contents(
                            before.credits,
                        ).dom());
                        assert(self@.entries =~= before@.after_add(index as int, credits).entries);
                    }
                    Ok(())
                }
            },
        }
    }

    /// Reads a value and uses one credit. The last credit hands the value out and
    /// frees its place.
    pub fn get<'s>(&'s mut self, key: K) -> (r: Result<Data<'s, T>, Error>)
        requires
            old(self).wf(),
            key_type::<K>(),
            key.into_spec() >= old(self).index_offset,
        ensures
            final(self).wf(),
            final(self).index_offset == old(self).index_offset,
            final(self)@ == old(self)@.after_get(place(*old(self), key)),
            ({
                let i = place(*old(self), key);
                if !old(self)@.holds(i) {
                    r matches Err(e) && e == (Error::NotFound { key: i as usize })
                } else if old(self)@.credits(i) == 1 {
                    r matches Ok(Data::Owned(v)) && v == old(self)@.value(i)
                } else {
                    r matches Ok(Data::Borrowed(v)) && *v == old(self)@.value(i)
                }
            }),
    {
        let ghost before = *self;
        let index: usize = self.to_index(key);
        match slab_get(&self.credits, index) {
            None => Err(Error::NotFound { key: index }),
            Some(have) => {
                if have == 1 {
                    let _ = slab_remove(&mut self.credits, index);
                    let taken = take_at(&mut self.data, index);
                    proof {
                        assert(self@.entries =~= before@.entries.remove(index as int));
                    }
                    match taken {
                        Some(v) => Ok(Data::Owned(v)),
                        None => Err(Error::NotFound { key: index }),
                    }
                } else {
                    slab_put(&mut self.credits, index, have - 1);
                    proof {
                        assert(slab_contents(self.credits).dom() =~= slab_contents(
                            before.credits,
                        ).dom());
                        assert(self@.entries =~= before@.after_get(index as int).entries);
                    }
                    match &self.data[index] {
                        Some(v) => Ok(Data::Borrowed(v)),
                        None => Err(Error::NotFound { key: index }),
                    }
                }
            },
        }
    }

    /// Changes a stored value in place. Its credits stay.
    pub fn set<F: FnOnce(&mut T)>(&mut self, key: K, func: F) -> (r: Result<(), Error>)
        requires
            old(self).wf(),
            key_type::<K>(),
            key.into_spec() >= old(self).index_offset,
            forall|x: &mut T| call_requires(func, (x,)),
        ensures
            final(self).wf(),
            final(self).index_offset == old(self).index_offset,
            ({
                let i = place(*old(self), key);
                if !old(self)@.holds(i) {
                    &&& r == Err::<(), Error>(Error::NotFound { key: i as usize })
                    &&& final(self)@ == old(self)@
                } else {
                    &&& r == Ok::<(), Error>(())
                    &&& exists|x: &mut T|
                        *x == old(self)@.value(i) && #[trigger] call_ensures(func, (x,), ())
                            && final(self)@ == old(self)@.after_set(i, *final(x))
                }
            }),
    {
        let ghost before = *self;
        let index: usize = self.to_index(key);
        match slab_get(&self.credits, index) {
            None => Err(Error::NotFound { key: index }),
            Some(have) => {
                match &mut self.data[index] {
                    Some(v) => {
                        func(v);
                    },
                    None => (),
                }
                proof {
                    let x = choose|x: &mut T|
                        *x == before.data@[index as int]->0 && #[trigger] call_ensures(
                            func,
                            (x,),
                            (),
                        ) && self.data@[index as int] == Some(*final(x));
                    assert(self@.entries =~= before@.after_set(index as int, *final(x)).entries);
                }
                Ok(())
            },
        }
    }

    /// The keys, credits and values stored, in the order of their places.
    pub fn to_iter(self) -> (r: Vec<(K, Credits, T)>)
        requires
            self.wf(),
            key_type::<K>(),
        ensures
            r@ == entry_list(self, self.data@.len()),
    {
        let mut r: Vec<(K, Credits, T)> = Vec::new();
        let mut st = self;
        let n: usize = st.data.len();
        let mut i: usize = 0;
        while i < n
            invariant
                i <= n,
                n == self.data@.len(),
                self.wf(),
                key_type::<K>(),
                st.credits == self.credits,
                st.index_offset == self.index_offset,
                st.data@.len() == n,
                forall|j: int| i <= j < n ==> #[trigger] st.data@[j] == self.data@[j],
                r@ == entry_list(self, i as nat),
            decreases n - i,
        {
            match slab_get(&st.credits, i) {
                Some(credits) => {
                    let taken = take_at(&mut st.data, i);
                    match taken {
                        Some(v) => {
                            r.push((K::from(i + st.index_offset), credits, v));
                        },
                        None => (),
                    }
                },
                None => (),
            }
            i = i + 1;
        }
        r
    }
}

/// The keys, credits and values at the first `n` places.
pub open spec fn entry_list<K: From<usize> + Into<usize>, T>(st: Storage<K, T>, n: nat) -> Seq<
    (K, Credits, T),
>
    decreases n,
{
    if n == 0 {
        seq![]
    } else {
        let i = n - 1;
        let before = entry_list(st, i as nat);
        if st@.holds(i) {
            before.push(
                (
                    K::from_spec((i + st.index_offset) as usize),
                    st@.credits(i),
                    st@.value(i),
                ),
            )
        } else {
            before
        }
    }
}

/// Without vacant places, the places in use are the first ones.
proof fn all_places_used<K, T>(st: Storage<K, T>)
    requires
        st.wf(),
        st@.vacant.len() == 0,
    ensures
        !slab_contents(st.credits).dom().contains(st.data@.len() as int),
        st.data@.len() == slab_contents(st.credits).dom().len(),
{
}

/// After `n` reads of place `i`.
pub open spec fn after_reads<T>(st: StoreView<T>, i: int, n: nat) -> StoreView<T>
    decreases n,
{
    if n == 0 {
        st
    } else {
        after_reads(st, i, (n - 1) as nat).after_get(i)
    }
}

/// A value stored with `n` credits can be read exactly `n` times: every read but
/// the last uses one credit and leaves the value and all others as they are, and
/// after the last read the place is free.
pub proof fn reads_use_credits<T>(st: StoreView<T>, i: int, n: nat)
    requires
        st.holds(i),
        n <= st.credits(i),
        st.credits(i) > 0,
    ensures
        n < st.credits(i) ==> after_reads(st, i, n).entries == st.entries.insert(
            i,
            ((st.credits(i) - n) as u16, st.value(i)),
        ) && after_reads(st, i, n).vacant == st.vacant,
        n == st.credits(i) ==> after_reads(st, i, n).entries == st.entries.remove(i)
            && after_reads(st, i, n).vacant == st.vacant.push(i),
    decreases n,
{
    if n == 0 {
        assert(st.entries.insert(i, (st.credits(i), st.value(i))) =~= st.entries);
    } else {
        reads_use_credits(st, i, (n - 1) as nat);
        let before = after_reads(st, i, (n - 1) as nat);
        if n < st.credits(i) {
            assert(before.after_get(i).entries =~= st.entries.insert(
                i,
                ((st.credits(i) - n) as u16, st.value(i)),
            ));
        } else {
            assert(before.after_get(i).entries =~= st.entries.remove(i));
        }
    }
}

/// Adding credits and then reading as often gives back what was stored.
pub proof fn added_credits_are_read_back<T>(st: StoreView<T>, i: int, c: u16)
    requires
        st.holds(i),
        st.credits(i) > 0,
        st.credits(i) + c <= u16::MAX,
    ensures
        after_reads(st.after_add(i, c), i, c as nat).entries == st.entries,
        after_reads(st.after_add(i, c), i, c as nat).vacant == st.vacant,
{
    reads_use_credits(st.after_add(i, c), i, c as nat);
    assert(after_reads(st.after_add(i, c), i, c as nat).entries =~= st.entries);
}

/// The storage uses places again: a value stored right after a place was freed
/// gets that place.
pub proof fn freed_place_is_used_next<T>(st: StoreView<T>, i: int, v: T, c: u16)
    requires
        st.holds(i),
        st.credits(i) == 1,
    ensures
        st.after_get(i).next_place() == i,
        st.after_get(i).after_allocate(v, c).entries == st.entries.insert(i, (c, v)),
        st.after_get(i).after_allocate(v, c).vacant == st.vacant,
{
    assert(st.after_get(i).after_allocate(v, c).entries =~= st.entries.insert(i, (c, v)));
    assert(st.after_get(i).after_allocate(v, c).vacant =~= st.vacant);
}

/// A value that is written is there, with the credits that its place had, and every other
/// place is as it was; credits that are added change neither the value nor another place.
pub proof fn written_value_is_there<T>(st: StoreView<T>, i: int, j: int, v: T, c: u16)
    requires
        st.holds(i),
        st.credits(i) + c <= u16::MAX,
        i != j,
    ensures
        st.after_set(i, v).holds(i),
        st.after_set(i, v).value(i) == v,
        st.after_set(i, v).credits(i) == st.credits(i),
        st.after_set(i, v).holds(j) == st.holds(j),
        st.holds(j) ==> st.after_set(i, v).entries[j] == st.entries[j],
        st.after_add(i, c).value(i) == st.value(i),
        st.after_add(i, c).credits(i) == st.credits(i) + c,
        st.holds(j) ==> st.after_add(i, c).entries[j] == st.entries[j],
        st.after_set(i, v).vacant == st.vacant,
        st.after_add(i, c).vacant == st.vacant,
{
}

/// A value that is stored gets the place freed last, or the next after those in use, with
/// its credits, and every other place is as it was.
pub proof fn stored_value_has_place<T>(st: StoreView<T>, j: int, v: T, c: u16)
    ensures
        st.vacant.len() > 0 ==> st.next_place() == st.vacant.last(),
        st.vacant.len() == 0 ==> st.next_place() == st.entries.dom().len(),
        st.after_allocate(v, c).holds(st.next_place()),
        st.after_allocate(v, c).value(st.next_place()) == v,
        st.after_allocate(v, c).credits(st.next_place()) == c,
        j != st.next_place() ==> st.after_allocate(v, c).holds(j) == st.holds(j),
        j != st.next_place() && st.holds(j) ==> st.after_allocate(v, c).entries[j] == st.entries[j],
{
}

/// The list of what is stored has an entry for every place in use, under the place's key.
pub proof fn listed_entries_are_stored<K: From<usize> + Into<usize>, T>(
    st: Storage<K, T>,
    n: nat,
    i: int,
)
    requires
        0 <= i < n,
    ensures
        st@.holds(i) ==> entry_list(st, n).contains(
            (K::from_spec((i + st.index_offset) as usize), st@.credits(i), st@.value(i)),
        ),
        entry_list(st, n).len() <= n,
    decreases n,
{
    let before = entry_list(st, (n - 1) as nat);
    if i < n - 1 {
        listed_entries_are_stored(st, (n - 1) as nat, i);
        if st@.holds(i) {
            let entry = (K::from_spec((i + st.index_offset) as usize), st@.credits(i), st@.value(i));
            let k = choose|k: int| 0 <= k < before.len() && before[k] == entry;
            assert(entry_list(st, n)[k] == entry);
        }
    } else {
        if n > 1 {
            listed_entries_are_stored(st, (n - 1) as nat, 0);
        }
        if st@.holds(i) {
            assert(entry_list(st, n)[before.len() as int] == entry_list(st, n).last());
        }
    }
}

} // verus!
