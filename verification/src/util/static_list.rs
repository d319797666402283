//! A list that works before the heap does.
//!
//! A [`StaticList`] starts out in an array of `N` slots and needs no
//! allocation. Once a heap is there, it moves over to growable storage and
//! stays there.

use std::collections::VecDeque;
use vstd::prelude::*;

verus! {

/// The list is in its array and all `N` slots are taken.
#[derive(Clone, Copy, Debug, PartialEq, Eq, Structural)]
pub struct ArrayFullError;

impl ArrayFullError {
    /// The message that goes with the error.
    pub fn message(&self) -> (s: &'static str)
        ensures
            s@ == "array is full"@,
    {
        "array is full"
    }
}

/// A list of `T` that lives in `N` array slots or on the heap.
pub enum StaticList<T, const N: usize> {
    /// Inline storage: the items fill the first slots, in order.
    Array([Option<T>; N]),
    /// Heap storage, without a bound.
    Heap(VecDeque<T>),
}

/// Number of slots at the front of `slots` that hold an item.
pub open spec fn filled<T>(slots: Seq<Option<T>>) -> int
    decreases slots.len(),
{
    if slots.len() == 0 || slots[0] is None {
        0
    } else {
        1 + filled(slots.subrange(1, slots.len() as int))
    }
}

/// The items fill the first slots: behind the first empty slot all slots are
/// empty.
pub open spec fn compact<T>(slots: Seq<Option<T>>) -> bool {
    forall|i: int, j: int|
        0 <= i <= j < slots.len() && (#[trigger] slots[i]) is None ==> (#[trigger] slots[j])
            is None
}

/// `filled` counts the slots in front of the first empty one.
pub proof fn lemma_filled<T>(slots: Seq<Option<T>>)
    ensures
        0 <= filled(slots) <= slots.len(),
        forall|i: int| 0 <= i < filled(slots) ==> (#[trigger] slots[i]) is Some,
        filled(slots) < slots.len() ==> slots[filled(slots)] is None,
    decreases slots.len(),
{
    if slots.len() > 0 && slots[0] is Some {
        let rest = slots.subrange(1, slots.len() as int);
        lemma_filled(rest);
        assert forall|i: int| 0 <= i < filled(slots) implies (#[trigger] slots[i]) is Some by {
            if i > 0 {
                assert(slots[i] == rest[i - 1]);
            }
        }
    }
}

/// A count of leading items that ends at an empty slot, or at the end, is
/// the number of filled slots.
pub proof fn lemma_filled_is<T>(slots: Seq<Option<T>>, n: int)
    requires
        0 <= n <= slots.len(),
        forall|i: int| 0 <= i < n ==> (#[trigger] slots[i]) is Some,
        n < slots.len() ==> slots[n] is None,
    ensures
        filled(slots) == n,
{
    lemma_filled(slots);
    let f = filled(slots);
    if f < n {
        assert(slots[f] is Some);
    } else if n < f {
        assert(slots[n] is Some);
    }
}

impl<T: Copy, const N: usize> View for StaticList<T, N> {
    type V = Seq<T>;

    /// The items of the list, first to last.
    open spec fn view(&self) -> Seq<T> {
        match self {
            StaticList::Array(arr) => Seq::new(filled(arr@) as nat, |i: int| arr@[i].unwrap()),
            StaticList::Heap(list) => list@,
        }
    }
}

impl<T: Copy, const N: usize> StaticList<T, N> {
    /// In the array the items fill the first slots.
    pub open spec fn wf(&self) -> bool {
        match self {
            StaticList::Array(arr) => compact(arr@),
            StaticList::Heap(_) => true,
        }
    }

    /// Whether the list lives on the heap.
    pub open spec fn on_heap(&self) -> bool {
        self is Heap
    }

    /// The slots of the array; none once the list lives on the heap.
    pub open spec fn slots(&self) -> Seq<Option<T>> {
        match self {
            StaticList::Array(arr) => arr@,
            StaticList::Heap(_) => Seq::empty(),
        }
    }

    /// An empty list in its array.
    pub fn new() -> (list: StaticList<T, N>)
        ensures
            list.wf(),
            !list.on_heap(),
            list@ == Seq::<T>::empty(),
    {
        let arr: [Option<T>; N] = [None;N];
        proof {
            if N > 0 {
                assert(arr@[0] is None);
            }
            lemma_filled_is(arr@, 0);
            assert(Seq::new(0, |i: int| arr@[i].unwrap()) =~= Seq::<T>::empty());
        }
        StaticList::Array(arr)
    }

    /// Number of items in the list.
    pub fn len(&self) -> (n: usize)
        requires
            self.wf(),
        ensures
            n == self@.len(),
    {
        match self {
            StaticList::Array(arr) => {
                let mut n: usize = 0;
                while n < N && arr[n].is_some()
                    invariant
                        0 <= n <= N,
                        arr@.len() == N,
                        forall|i: int| 0 <= i < n ==> (#[trigger] arr@[i]) is Some,
                    decreases N - n,
                {
                    n += 1;
                }
                proof {
                    lemma_filled_is(arr@, n as int);
                }
                n
            },
            StaticList::Heap(list) => list.len(),
        }
    }

    /// Puts `value` behind the last item. In the array this fails once all
    /// `N` slots are taken, and the list stays as it is.
    pub fn push_back(&mut self, value: T) -> (res: Result<(), ArrayFullError>)
        requires
            old(self).wf(),
        ensures
            final(self).wf(),
            final(self).on_heap() == old(self).on_heap(),
            res is Ok <==> old(self).on_heap() || old(self)@.len() < N,
            res is Ok ==> final(self)@ == old(self)@.push(value),
            res is Err ==> *final(self) == *old(self),
    {
        let n = self.len();
        match self {
            StaticList::Array(arr) => {
                if n < N {
                    let ghost before = arr@;
                    arr[n] = Some(value);
                    proof {
                        lemma_filled(before);
                        if n + 1 < N {
                            assert(before[n as int] is None);
                            assert(before[n + 1] is None);
                        }
                        lemma_filled_is(arr@, n + 1);
                        assert(Seq::new((n + 1) as nat, |i: int| arr@[i].unwrap()) =~= Seq::new(
                            n as nat,
                            |i: int| before[i].unwrap(),
                        ).push(value));
                    }
                    Ok(())
                } else {
                    Err(ArrayFullError)
                }
            },
            StaticList::Heap(list) => {
                list.push_back(value);
                Ok(())
            },
        }
    }

    /// Puts `value` before the first item. In the array this fails once all
    /// `N` slots are taken, and the list stays as it is.
    pub fn push_front(&mut self, value: T) -> (res: Result<(), ArrayFullError>)
        requires
            old(self).wf(),
        ensures
            final(self).wf(),
            final(self).on_heap() == old(self).on_heap(),
            res is Ok <==> old(self).on_heap() || old(self)@.len() < N,
            res is Ok ==> final(self)@ == seq![value] + old(self)@,
            res is Err ==> *final(self) == *old(self),
    {
        let n = self.len();
        match self {
            StaticList::Array(arr) => {
                if n < N {
                    let ghost before = arr@;
                    proof {
                        lemma_filled(before);
                    }
                    let mut i: usize = n;
                    while i > 0
                        invariant
                            0 <= i <= n < N,
                            arr@.len() == N,
                            before.len() == N,
                            forall|j: int| 0 <= j <= i ==> arr@[j] == before[j],
                            forall|j: int| i < j <= n ==> arr@[j] == before[j - 1],
                            forall|j: int| n < j < N ==> arr@[j] == before[j],
                        decreases i,
                    {
                        arr[i] = arr[i - 1];
                        i -= 1;
                    }
                    arr[0] = Some(value);
                    proof {
                        assert forall|j: int| 0 <= j < n + 1 implies (#[trigger] arr@[j])
                            is Some by {
                            if j > 0 {
                                assert(before[j - 1] is Some);
                            }
                        }
                        if n + 1 < N {
                            assert(before[n as int] is None);
                            assert(before[n + 1] is None);
                        }
                        lemma_filled_is(arr@, n + 1);
                        assert forall|a: int, b: int|
                            0 <= a <= b < N && (#[trigger] arr@[a]) is None implies (
                        #[trigger] arr@[b]) is None by {
                            assert(a > n);
                            assert(before[n as int] is None);
                            assert(before[b] is None);
                        }
                        assert(Seq::new((n + 1) as nat, |i: int| arr@[i].unwrap()) =~= seq![value]
                            + Seq::new(n as nat, |i: int| before[i].unwrap()));
                    }
                    Ok(())
                } else {
                    Err(ArrayFullError)
                }
            },
            StaticList::Heap(list) => {
                list.push_front(value);
                assert(list@ =~= seq![value] + old(self)@);
                Ok(())
            },
        }
    }

    /// Moves the list from its array to the heap; the items and their order
    /// stay. A list that is on the heap already is left alone.
    pub fn convert_to_heap_allocated(&mut self)
        requires
            old(self).wf(),
        ensures
            final(self).wf(),
            final(self).on_heap(),
            final(self)@ == old(self)@,
    {
        let items = self.iter();
        match self {
            StaticList::Array(_) => {
                let mut list: VecDeque<T> = VecDeque::new();
                let mut i: usize = 0;
                while i < items.len()
                    invariant
                        0 <= i <= items@.len(),
                        list@ == items@.take(i as int),
                    decreases items@.len() - i,
                {
                    list.push_back(items[i]);
                    assert(items@.take(i + 1) =~= items@.take(i as int).push(items@[i as int]));
                    i += 1;
                }
                assert(items@.take(items@.len() as int) =~= items@);
                *self = StaticList::Heap(list);
            },
            StaticList::Heap(_) => {},
        }
    }

    /// The items of the list, first to last.
    pub fn iter(&self) -> (items: Vec<T>)
        requires
            self.wf(),
        ensures
            items@ == self@,
    {
        let n = self.len();
        let mut items: Vec<T> = Vec::new();
        let mut i: usize = 0;
        proof {
            if let StaticList::Array(arr) = self {
                lemma_filled(arr@);
            }
        }
        while i < n
            invariant
                0 <= i <= n,
                n == self@.len(),
                self.wf(),
                !self.on_heap() ==> n <= N && forall|j: int|
                    0 <= j < n ==> (#[trigger] self.slots()[j]) is Some,
                items@ == self@.take(i as int),
            decreases n - i,
        {
            let item = match self {
                StaticList::Array(arr) => arr[i].unwrap(),
                StaticList::Heap(list) => list[i],
            };
            items.push(item);
            assert(self@.take(i + 1) =~= self@.take(i as int).push(self@[i as int]));
            i += 1;
        }
        assert(self@.take(n as int) =~= self@);
        items
    }

    /// Replaces each item by what `update` makes of it, first to last.
    pub fn iter_mut<F: Fn(T) -> T>(&mut self, update: F)
        requires
            old(self).wf(),
            forall|i: int| 0 <= i < old(self)@.len() ==> call_requires(update, (old(self)@[i],)),
        ensures
            final(self).wf(),
            final(self).on_heap() == old(self).on_heap(),
            final(self)@.len() == old(self)@.len(),
            forall|i: int|
                0 <= i < old(self)@.len() ==> call_ensures(
                    update,
                    (old(self)@[i],),
                    #[trigger] final(self)@[i],
                ),
    {
        let n = self.len();
        let ghost before = self@;
        let ghost heap = self.on_heap();
        let mut i: usize = 0;
        proof {
            if let StaticList::Array(arr) = self {
                lemma_filled(arr@);
            }
        }
        while i < n
            invariant
                0 <= i <= n,
                n == before.len(),
                self.wf(),
                self.on_heap() == heap,
                self@.len() == n,
                !heap ==> n <= N && filled(self.slots()) == n,
                forall|j: int| 0 <= j < n ==> call_requires(update, (before[j],)),
                forall|j: int| 0 <= j < i ==> call_ensures(update, (before[j],), #[trigger] self@[j]),
                forall|j: int| i <= j < n ==> self@[j] == before[j],
            decreases n - i,
        {
            let ghost view0 = self@;
            assert(view0[i as int] == before[i as int]);
            assert(call_requires(update, (before[i as int],)));
            match self {
                StaticList::Array(arr) => {
                    let ghost slots = arr@;
                    proof {
                        lemma_filled(slots);
                    }
                    let item = arr[i].unwrap();
                    assert(item == view0[i as int]);
                    let changed = update(item);
                    arr[i] = Some(changed);
                    proof {
                        assert forall|j: int| 0 <= j < n implies (#[trigger] arr@[j]) is Some by {
                            if j != i {
                                assert(slots[j] is Some);
                            }
                        }
                        if n < N {
                            assert(slots[n as int] is None);
                        }
                        lemma_filled_is(arr@, n as int);
                        assert forall|a: int, b: int|
                            0 <= a <= b < N && (#[trigger] arr@[a]) is None implies (
                        #[trigger] arr@[b]) is None by {
                            assert(slots[a] is None);
                            assert(slots[b] is None);
                        }
                        assert(Seq::new(n as nat, |k: int| arr@[k].unwrap()) =~= view0.update(
                            i as int,
                            changed,
                        ));
                    }
                },
                StaticList::Heap(list) => {
                    let item = list[i];
                    assert(item == view0[i as int]);
                    let changed = update(item);
                    let _ = list.remove(i);
                    list.insert(i, changed);
                    assert(list@ =~= view0.update(i as int, changed));
                },
            }
            assert(self@ == view0.update(i as int, self@[i as int]));
            i += 1;
        }
    }
}

} // verus!
