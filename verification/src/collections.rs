//! The plain arithmetic of libvala's list views: the length a list reports,
//! the bounds check on an element read, and the cursor that walks a list.

use vstd::prelude::*;

verus! {

/// The length of a collection whose libvala size is `size`: libvala reports
/// sizes as a signed `gint`, and a negative size stands for an empty
/// collection.
pub open spec fn size_len(size: int) -> nat {
    if size < 0 {
        0
    } else {
        size as nat
    }
}

/// A collection is empty exactly when the size libvala reports is at most
/// zero.
pub proof fn lemma_empty_iff_size_not_positive(size: int)
    ensures
        (size_len(size) == 0) == (size <= 0),
{
}

/// The length of a collection whose libvala size is `size`. libvala reports
/// sizes as a signed `gint`; a negative size stands for an empty collection.
pub fn clamp_size(size: i32) -> (r: usize)
    ensures
        r == size_len(size as int),
{
    if size < 0 {
        0
    } else {
        size as usize
    }
}

/// The `gint` index libvala's list getter takes for element `index` of a
/// list of `len` elements, or `None` when `index` is out of bounds.
pub fn checked_index(index: usize, len: usize) -> (r: Option<i32>)
    requires
        len <= i32::MAX,
    ensures
        r == if index < len {
            Some(index as i32)
        } else {
            None::<i32>
        },
{
    if index >= len {
        None
    } else {
        Some(index as i32)
    }
}

/// How many elements a cursor at `index` over `len` elements still yields.
pub open spec fn remaining(index: nat, len: nat) -> nat {
    if index < len {
        (len - index) as nat
    } else {
        0
    }
}

/// One step of a cursor at `index` over `len` elements: the index it hands
/// out, if any, and the cursor after the step.
pub open spec fn cursor_step(v: (nat, nat)) -> (Option<nat>, (nat, nat)) {
    if v.0 < v.1 {
        (Some(v.0), ((v.0 + 1) as nat, v.1))
    } else {
        (None, v)
    }
}

/// What `k` successive steps of a cursor starting at `v` hand out, in order.
pub open spec fn cursor_walk(v: (nat, nat), k: nat) -> Seq<Option<nat>>
    decreases k,
{
    if k == 0 {
        Seq::empty()
    } else {
        let (first, next) = cursor_step(v);
        seq![first] + cursor_walk(next, (k - 1) as nat)
    }
}

/// Walking a fresh cursor over `n` elements hands out the indices `0` to
/// `n - 1` in order, each once, and nothing after them: its first `k` steps
/// give `Some(i)` at step `i < n` and `None` at every later step.
pub proof fn lemma_cursor_walk(n: nat, k: nat)
    ensures
        cursor_walk((0nat, n), k) == Seq::new(
            k,
            |i: int|
                if i < n {
                    Some(i as nat)
                } else {
                    None::<nat>
                },
        ),
{
    lemma_cursor_walk_from(0, n, k);
}

proof fn lemma_cursor_walk_from(start: nat, n: nat, k: nat)
    ensures
        cursor_walk((start, n), k) == Seq::new(
            k,
            |i: int|
                if start + i < n {
                    Some((start + i) as nat)
                } else {
                    None::<nat>
                },
        ),
    decreases k,
{
    if k > 0 {
        let (first, next) = cursor_step((start, n));
        if start < n {
            lemma_cursor_walk_from(start + 1, n, (k - 1) as nat);
        } else {
            lemma_cursor_walk_from(start, n, (k - 1) as nat);
        }
        assert(cursor_walk((start, n), k) =~= Seq::new(
            k,
            |i: int|
                if start + i < n {
                    Some((start + i) as nat)
                } else {
                    None::<nat>
                },
        ));
    } else {
        assert(cursor_walk((start, n), k) =~= Seq::new(
            k,
            |i: int|
                if start + i < n {
                    Some((start + i) as nat)
                } else {
                    None::<nat>
                },
        ));
    }
}

/// The index a step hands out, as a natural number.
pub open spec fn index_of_step(r: Option<usize>) -> Option<nat> {
    match r {
        Some(i) => Some(i as nat),
        None => None,
    }
}

/// A position in a list of known length: the indices of the elements that an
/// iteration over the list still reads, in order.
pub struct ListCursor {
    index: usize,
    len: usize,
}

impl View for ListCursor {
    /// The next index and the length.
    type V = (nat, nat);

    closed spec fn view(&self) -> (nat, nat) {
        (self.index as nat, self.len as nat)
    }
}

impl ListCursor {
    /// A cursor before the first of `len` elements.
    pub fn new(len: usize) -> (r: ListCursor)
        ensures
            r@ == (0nat, len as nat),
    {
        ListCursor { index: 0, len }
    }

    /// The index of the next element to read, advancing past it, or `None`
    /// once every element has been read.
    pub fn next_index(&mut self) -> (r: Option<usize>)
        ensures
            (index_of_step(r), final(self)@) == cursor_step(old(self)@),
            remaining(final(self)@.0, final(self)@.1) == if r is Some {
                remaining(old(self)@.0, old(self)@.1) - 1
            } else {
                0
            },
    {
        if self.index >= self.len {
            return None;
        }
        let i = self.index;
        self.index = i + 1;
        Some(i)
    }

    /// The exact number of elements still to be read, as both bounds of a
    /// size hint.
    pub fn size_hint(&self) -> (r: (usize, Option<usize>))
        ensures
            r.0 == remaining(self@.0, self@.1),
            r.1 == Some(r.0),
    {
        let rest = self.len.saturating_sub(self.index);
        (rest, Some(rest))
    }
}

} // verus!
