use vstd::prelude::*;
use crate::geometry::{lemma_row_major_bound, Dimensions, VERTEX_CNT};

verus! {

/// Per-cell data over the rectangle of a `Dimensions`, stored densely in
/// row-major order; cells outside the rectangle hold nothing.
pub struct CellMap<V> {
    min_x: i32,
    max_x: i32,
    min_y: i32,
    max_y: i32,
    slots: Vec<Option<V>>,
}

impl<V> CellMap<V> {
    /// The slots cover the rectangle exactly.
    pub closed spec fn wf(self) -> bool {
        &&& self.min_x <= self.max_x
        &&& self.min_y <= self.max_y
        &&& self.slots.len() == (self.max_x - self.min_x + 1) * (self.max_y - self.min_y + 1)
    }

    pub closed spec fn in_rect(self, x: int, y: int) -> bool {
        self.min_x <= x <= self.max_x && self.min_y <= y <= self.max_y
    }

    closed spec fn slot(self, x: int, y: int) -> int {
        (y - self.min_y) * (self.max_x - self.min_x + 1) + (x - self.min_x)
    }

    /// What the map holds for cell `(x, y)`.
    pub closed spec fn lookup(self, x: int, y: int) -> Option<V> {
        if self.in_rect(x, y) {
            self.slots@[self.slot(x, y)]
        } else {
            None
        }
    }

    /// The rectangle the map can hold cells of.
    pub closed spec fn rect(self) -> (int, int, int, int) {
        (self.min_x as int, self.max_x as int, self.min_y as int, self.max_y as int)
    }

    proof fn lemma_slot(self, x: int, y: int)
        requires
            self.wf(),
            self.in_rect(x, y),
        ensures
            0 <= self.slot(x, y) < self.slots.len(),
            self.max_x - self.min_x + 1 <= self.slots.len(),
            0 <= (y - self.min_y) * (self.max_x - self.min_x + 1) <= self.slot(x, y),
    {
        let w = self.max_x - self.min_x + 1;
        let h = self.max_y - self.min_y + 1;
        assert(w <= w * h && 0 <= (y - self.min_y) * w) by (nonlinear_arith)
            requires
                w >= 1,
                h >= 1,
                y - self.min_y >= 0,
        ;
        lemma_row_major_bound(
            self.max_x - self.min_x + 1,
            self.max_y - self.min_y + 1,
            y - self.min_y,
            x - self.min_x,
        );
    }

    fn slot_index(&self, x: i32, y: i32) -> (i: usize)
        requires
            self.wf(),
            self.in_rect(x as int, y as int),
        ensures
            i == self.slot(x as int, y as int),
            i < self.slots.len(),
    {
        proof {
            self.lemma_slot(x as int, y as int);
        }
        let w = (self.max_x as i64 - self.min_x as i64 + 1) as usize;
        (y as i64 - self.min_y as i64) as usize * w + (x as i64 - self.min_x as i64) as usize
    }

    /// An empty map over the rectangle of `dims`.
    pub fn new(dims: &Dimensions) -> (m: Self)
        requires
            dims.wf(),
        ensures
            m.wf(),
            m.rect() == (dims.min_x as int, dims.max_x as int, dims.min_y as int, dims.max_y as int),
            forall|x: int, y: int| #[trigger] m.lookup(x, y) is None,
            forall|x: int, y: int| m.in_rect(x, y) <==> dims.contains(x, y),
    {
        proof {
            dims.lemma_sizes(VERTEX_CNT as int);
        }
        let n = dims.width() * dims.height();
        let mut slots: Vec<Option<V>> = Vec::with_capacity(n);
        let mut i: usize = 0;
        while i < n
            invariant
                i <= n,
                slots.len() == i,
                forall|k: int| 0 <= k < i ==> slots@[k] is None,
            decreases n - i,
        {
            slots.push(None);
            i = i + 1;
        }
        let m = CellMap {
            min_x: dims.min_x,
            max_x: dims.max_x,
            min_y: dims.min_y,
            max_y: dims.max_y,
            slots,
        };
        proof {
            assert forall|x: int, y: int| #[trigger] m.lookup(x, y) is None by {
                if m.in_rect(x, y) {
                    m.lemma_slot(x, y);
                }
            }
        }
        m
    }

    /// Stores `value` for cell `(x, y)`. Returns false, and leaves the map as
    /// it was, when the cell lies outside the map's rectangle.
    pub fn insert(&mut self, x: i32, y: i32, value: V) -> (stored: bool)
        requires
            old(self).wf(),
        ensures
            final(self).wf(),
            stored == old(self).in_rect(x as int, y as int),
            final(self).rect() == old(self).rect(),
            forall|a: int, b: int| final(self).in_rect(a, b) == old(self).in_rect(a, b),
            stored ==> final(self).lookup(x as int, y as int) == Some(value),
            forall|a: int, b: int|
                (a, b) != (x as int, y as int) ==> #[trigger] final(self).lookup(a, b) == old(
                    self,
                ).lookup(a, b),
            !stored ==> final(self).lookup(x as int, y as int) == old(self).lookup(x as int, y as int),
    {
        if x < self.min_x || x > self.max_x || y < self.min_y || y > self.max_y {
            return false;
        }
        proof {
            self.lemma_slot(x as int, y as int);
        }
        let i = self.slot_index(x, y);
        let ghost before = *self;
        self.slots.set(i, Some(value));
        proof {
            assert forall|a: int, b: int| (a, b) != (x as int, y as int) implies #[trigger] self.lookup(
                a,
                b,
            ) == before.lookup(a, b) by {
                if self.in_rect(a, b) {
                    self.lemma_slot(a, b);
                    let w = self.max_x - self.min_x + 1;
                    if self.slot(a, b) == self.slot(x as int, y as int) {
                        lemma_row_major_slot_injective(w, b - self.min_y, a - self.min_x, y - self.min_y, x - self.min_x);
                    }
                }
            }
        }
        true
    }

    /// What the map holds for cell `(x, y)`; `None` outside its rectangle.
    pub fn get(&self, x: i32, y: i32) -> (r: Option<&V>)
        requires
            self.wf(),
        ensures
            match r {
                Some(v) => self.lookup(x as int, y as int) == Some(*v),
                None => self.lookup(x as int, y as int) is None,
            },
    {
        if x < self.min_x || x > self.max_x || y < self.min_y || y > self.max_y {
            return None;
        }
        proof {
            self.lemma_slot(x as int, y as int);
        }
        let i = self.slot_index(x, y);
        match &self.slots[i] {
            Some(v) => Some(v),
            None => None,
        }
    }
}

/// Two row-major positions inside rows of width `w` are equal only when
/// their rows and columns are.
proof fn lemma_row_major_slot_injective(w: int, q1: int, r1: int, q2: int, r2: int)
    requires
        0 <= r1 < w,
        0 <= r2 < w,
        0 <= q1,
        0 <= q2,
        q1 * w + r1 == q2 * w + r2,
    ensures
        q1 == q2,
        r1 == r2,
{
    crate::geometry::lemma_row_major(q1 * w + r1, w, q1, r1);
    crate::geometry::lemma_row_major(q2 * w + r2, w, q2, r2);
}

} // verus!
