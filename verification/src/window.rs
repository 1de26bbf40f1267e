//! A bounded window over the most recent samples of a series.

use std::collections::VecDeque;
use vstd::prelude::*;

verus! {

/// The most samples that a window holds.
pub const MAX_POINTS: usize = 300;

/// The content of a window after one more sample: the sample comes last, and
/// a full window drops its oldest sample first.
pub open spec fn pushed<T>(w: Seq<T>, item: T) -> Seq<T> {
    if w.len() >= MAX_POINTS {
        w.skip(1).push(item)
    } else {
        w.push(item)
    }
}

/// The content of a window that started as `w` after the samples `items`,
/// pushed in order.
pub open spec fn pushed_all<T>(w: Seq<T>, items: Seq<T>) -> Seq<T>
    decreases items.len(),
{
    if items.len() == 0 {
        w
    } else {
        pushed(pushed_all(w, items.drop_last()), items.last())
    }
}

/// The last samples of `items`, at most [`MAX_POINTS`] of them.
pub open spec fn latest<T>(items: Seq<T>) -> Seq<T> {
    if items.len() > MAX_POINTS {
        items.skip(items.len() - MAX_POINTS)
    } else {
        items
    }
}

/// A window never grows beyond its bound.
pub proof fn lemma_pushed_bounded<T>(w: Seq<T>, item: T)
    requires
        w.len() <= MAX_POINTS,
    ensures
        pushed(w, item).len() <= MAX_POINTS,
        pushed(w, item).len() == if w.len() == MAX_POINTS {
            w.len()
        } else {
            w.len() + 1
        },
        pushed(w, item).last() == item,
{
}

/// Pushing any number of samples into an empty window leaves it holding the
/// latest of them in the order in which they came: once more samples were
/// pushed than the window holds, it has exactly [`MAX_POINTS`] samples and the
/// oldest are gone.
pub proof fn lemma_window_keeps_latest<T>(items: Seq<T>)
    ensures
        pushed_all(Seq::<T>::empty(), items) == latest(items),
        latest(items).len() == if items.len() > MAX_POINTS {
            MAX_POINTS as nat
        } else {
            items.len()
        },
        forall|i: int|
            0 <= i < latest(items).len() ==> latest(items)[i] == items[items.len() - latest(
                items,
            ).len() + i],
    decreases items.len(),
{
    if items.len() == 0 {
    } else {
        let before = items.drop_last();
        lemma_window_keeps_latest(before);
        let w = latest(before);
        assert(pushed(w, items.last()) =~= latest(items));
    }
}

/// A window over the most recent samples of a series, oldest first.
pub struct Window<T> {
    items: VecDeque<T>,
}

impl<T> View for Window<T> {
    type V = Seq<T>;

    closed spec fn view(&self) -> Seq<T> {
        self.items@
    }
}

impl<T> Window<T> {
    #[verifier::type_invariant]
    spec fn bounded(&self) -> bool {
        self.items@.len() <= MAX_POINTS
    }

    /// An empty window.
    pub fn new() -> (out: Window<T>)
        ensures
            out@ == Seq::<T>::empty(),
    {
        Window { items: VecDeque::new() }
    }

    /// The number of samples in the window, which is never above the bound.
    pub fn len(&self) -> (out: usize)
        ensures
            out == self@.len(),
            out <= MAX_POINTS,
    {
        proof {
            use_type_invariant(self);
        }
        self.items.len()
    }

    /// Adds a sample behind the others; a full window drops its oldest one.
    pub fn push(&mut self, item: T)
        ensures
            final(self)@ == pushed(old(self)@, item),
            old(self)@.len() <= MAX_POINTS,
            final(self)@.len() <= MAX_POINTS,
    {
        proof {
            use_type_invariant(&*self);
        }
        let mut taken = Window { items: VecDeque::new() };
        core::mem::swap(self, &mut taken);
        let mut items = taken.items;
        if items.len() >= MAX_POINTS {
            items.pop_front();
        }
        items.push_back(item);
        *self = Window { items };
    }

    /// The sample at place `i`, counted from the oldest.
    pub fn get(&self, i: usize) -> (out: &T)
        requires
            i < self@.len(),
        ensures
            *out == self@[i as int],
    {
        &self.items[i]
    }
}

impl<T: Copy> Window<T> {
    /// The samples of the window, oldest first.
    pub fn to_vec(&self) -> (out: Vec<T>)
        ensures
            out@ == self@,
    {
        let mut out: Vec<T> = Vec::new();
        let mut i: usize = 0;
        while i < self.items.len()
            invariant
                i <= self.items@.len(),
                out@ == self.items@.take(i as int),
            decreases self.items@.len() - i,
        {
            out.push(self.items[i]);
            i += 1;
        }
        assert(self.items@.take(self.items@.len() as int) =~= self.items@);
        out
    }
}

} // verus!
