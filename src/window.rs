use vstd::prelude::*;

verus! {

/// The samples of `h` that the tracker reports on: the last `far` samples,
/// without the last `near` of them.
pub open spec fn window(h: Seq<i64>, far: nat, near: nat) -> Seq<i64> {
    let lo = if h.len() >= far { h.len() - far } else { 0int };
    let hi = if h.len() >= near { h.len() - near } else { 0int };
    h.subrange(lo, hi)
}

/// `r` is the largest value of `w`, or 0 when `w` is empty.
pub open spec fn is_window_max(w: Seq<i64>, r: i64) -> bool {
    &&& w.len() == 0 ==> r == 0
    &&& w.len() > 0 ==> (w.contains(r) && forall|k: int| 0 <= k < w.len() ==> w[k] <= r)
}

/// `r` is the smallest value of `w`, or 0 when `w` is empty.
pub open spec fn is_window_min(w: Seq<i64>, r: i64) -> bool {
    &&& w.len() == 0 ==> r == 0
    &&& w.len() > 0 ==> (w.contains(r) && forall|k: int| 0 <= k < w.len() ==> r <= w[k])
}

/// The largest value of `w`, or 0 when `w` is empty.
pub open spec fn window_max(w: Seq<i64>) -> i64 {
    choose|r: i64| is_window_max(w, r)
}

/// The smallest value of `w`, or 0 when `w` is empty.
pub open spec fn window_min(w: Seq<i64>) -> i64 {
    choose|r: i64| is_window_min(w, r)
}

/// A reported maximum is the maximum.
pub proof fn lemma_window_max_unique(w: Seq<i64>, r: i64)
    requires
        is_window_max(w, r),
    ensures
        window_max(w) == r,
{
    let c = window_max(w);
    assert(is_window_max(w, c));
    if w.len() > 0 {
        let i = choose|i: int| 0 <= i < w.len() && w[i] == r;
        let j = choose|j: int| 0 <= j < w.len() && w[j] == c;
        assert(w[i] <= c);
        assert(w[j] <= r);
    }
}

/// A reported minimum is the minimum.
pub proof fn lemma_window_min_unique(w: Seq<i64>, r: i64)
    requires
        is_window_min(w, r),
    ensures
        window_min(w) == r,
{
    let c = window_min(w);
    assert(is_window_min(w, c));
    if w.len() > 0 {
        let i = choose|i: int| 0 <= i < w.len() && w[i] == r;
        let j = choose|j: int| 0 <= j < w.len() && w[j] == c;
        assert(c <= w[i]);
        assert(r <= w[j]);
    }
}

/// What a tracker over `far` and `near` reports after the samples `h`: 0
/// until `far` samples are in, then the largest value of the window.
pub open spec fn tracked_max(h: Seq<i64>, far: nat, near: nat) -> i64 {
    if h.len() < far { 0 } else { window_max(window(h, far, near)) }
}

/// As `tracked_max`, with the smallest value.
pub open spec fn tracked_min(h: Seq<i64>, far: nat, near: nat) -> i64 {
    if h.len() < far { 0 } else { window_min(window(h, far, near)) }
}

/// How many inserts ago slot `s` of a ring of `size` slots was written, when
/// the latest insert went to slot `curr`.
pub open spec fn age(curr: int, size: int, s: int) -> int {
    if s <= curr {
        curr - s
    } else {
        curr + size - s
    }
}

/// Slot `s` holds a sample of the window: written at least `near` and fewer
/// than `seen` inserts ago.
pub open spec fn in_ring_window(curr: int, size: int, near: int, seen: int, s: int) -> bool {
    near <= age(curr, size, s) < seen
}

/// The slot written `a` inserts ago.
pub open spec fn slot_of_age(curr: int, size: int, a: int) -> int {
    if a <= curr {
        curr - a
    } else {
        curr + size - a
    }
}

proof fn lemma_slot_of_age(curr: int, size: int, a: int)
    requires
        0 <= curr < size,
        0 <= a < size,
    ensures
        0 <= slot_of_age(curr, size, a) < size,
        age(curr, size, slot_of_age(curr, size, a)) == a,
{
}

/// Each filled slot holds the sample written `age` inserts ago.
pub open spec fn ring_holds(v: Seq<i64>, h: Seq<i64>, curr: int, size: int, seen: int) -> bool {
    forall|s: int| 0 <= s < size && #[trigger] age(curr, size, s) < seen
        ==> v[s] == h[h.len() - 1 - age(curr, size, s)]
}

/// Slot `m` holds a largest sample of the window.
pub open spec fn max_at(v: Seq<i64>, curr: int, size: int, near: int, seen: int, m: int) -> bool {
    &&& in_ring_window(curr, size, near, seen, m)
    &&& forall|s: int| 0 <= s < size && #[trigger] in_ring_window(curr, size, near, seen, s)
        ==> v[s] <= v[m]
}

/// Slot `m` holds a smallest sample of the window.
pub open spec fn min_at(v: Seq<i64>, curr: int, size: int, near: int, seen: int, m: int) -> bool {
    &&& in_ring_window(curr, size, near, seen, m)
    &&& forall|s: int| 0 <= s < size && #[trigger] in_ring_window(curr, size, near, seen, s)
        ==> v[m] <= v[s]
}

pub open spec fn next_slot(curr: int, size: int) -> int {
    if curr + 1 == size { 0 } else { curr + 1 }
}

pub open spec fn next_seen(seen: int, size: int) -> int {
    if seen < size { seen + 1 } else { seen }
}

proof fn lemma_ring_push(v: Seq<i64>, h: Seq<i64>, curr: int, size: int, seen: int, x: i64)
    requires
        v.len() == size,
        0 <= curr < size,
        0 <= seen <= size,
        seen <= h.len(),
        ring_holds(v, h, curr, size, seen),
    ensures
        ring_holds(
            v.update(next_slot(curr, size), x),
            h.push(x),
            next_slot(curr, size),
            size,
            next_seen(seen, size),
        ),
{
    let nc = next_slot(curr, size);
    assert forall|s: int| 0 <= s < size && #[trigger] age(nc, size, s) < next_seen(seen, size)
        implies v.update(nc, x)[s] == h.push(x)[h.push(x).len() - 1 - age(nc, size, s)] by {
        lemma_age_step(curr, size, s);
        if s != nc {
            assert(age(curr, size, s) < seen);
        }
    }
}

/// Moving the ring on by one keeps a largest slot that was not overwritten
/// above every sample of the new window but the one that just entered it.
proof fn lemma_keep_extreme(v: Seq<i64>, curr: int, size: int, near: int, seen: int, m: int, x: i64, is_max: bool)
    requires
        v.len() == size,
        0 <= curr < size,
        0 <= near < seen <= size,
        0 <= m < size,
        m != next_slot(curr, size),
        is_max ==> max_at(v, curr, size, near, seen, m),
        !is_max ==> min_at(v, curr, size, near, seen, m),
    ensures
        ({
            let nc = next_slot(curr, size);
            let ns = next_seen(seen, size);
            let w = v.update(nc, x);
            &&& in_ring_window(nc, size, near, ns, m)
            &&& forall|s: int| 0 <= s < size && #[trigger] in_ring_window(nc, size, near, ns, s)
                && age(nc, size, s) != near ==> (if is_max { w[s] <= w[m] } else { w[m] <= w[s] })
        }),
{
    let nc = next_slot(curr, size);
    let ns = next_seen(seen, size);
    lemma_age_step(curr, size, m);
    assert forall|s: int| 0 <= s < size && #[trigger] in_ring_window(nc, size, near, ns, s)
        && age(nc, size, s) != near implies (if is_max { v.update(nc, x)[s] <= v.update(nc, x)[m] } else { v.update(nc, x)[m] <= v.update(nc, x)[s] }) by {
        lemma_age_step(curr, size, s);
        if s == nc {
            assert(age(nc, size, s) == 0);
        }
        assert(in_ring_window(curr, size, near, seen, s));
    }
}

proof fn lemma_age_step(curr: int, size: int, s: int)
    requires
        0 <= curr < size,
        0 <= s < size,
    ensures
        0 <= age(curr, size, s) < size,
        ({
            let nc = if curr + 1 == size { 0 } else { curr + 1 };
            &&& s == nc ==> age(nc, size, s) == 0
            &&& s != nc ==> age(nc, size, s) == age(curr, size, s) + 1
        }),
{
}


proof fn lemma_report(v: Seq<i64>, h: Seq<i64>, curr: int, size: int, near: int, seen: int, m: int, r: i64, is_max: bool)
    requires
        v.len() == size,
        0 <= curr < size,
        0 <= near < size,
        0 <= m < size,
        seen == if h.len() < size { h.len() as int } else { size },
        ring_holds(v, h, curr, size, seen),
        seen <= near ==> r == 0,
        seen > near ==> r == v[m],
        seen > near && is_max ==> max_at(v, curr, size, near, seen, m),
        seen > near && !is_max ==> min_at(v, curr, size, near, seen, m),
    ensures
        is_max ==> is_window_max(window(h, size as nat, near as nat), r),
        !is_max ==> is_window_min(window(h, size as nat, near as nat), r),
{
    let n = h.len() as int;
    let w = window(h, size as nat, near as nat);
    let lo = n - seen;
    if seen > near {
        assert(w =~= h.subrange(lo, n - near));
        let am = age(curr, size, m);
        assert(w[seen - 1 - am] == r);
        assert forall|k: int| 0 <= k < w.len() implies (if is_max { w[k] <= r } else { r <= w[k] }) by {
            let a = seen - 1 - k;
            lemma_slot_of_age(curr, size, a);
            let s = slot_of_age(curr, size, a);
            assert(in_ring_window(curr, size, near, seen, s));
        }
    } else {
        assert(w.len() == 0);
    }
}

/// Largest value among the last `far_n` samples that are not among the last
/// `near_n`, kept in a ring buffer with a cached index of the largest slot.
pub struct MaxmimumInRange {
    size: usize,
    near: usize,
    vec: Vec<i64>,
    curr_index: usize,
    seen: usize,
    max_index: usize,
    hist: Ghost<Seq<i64>>,
}

impl MaxmimumInRange {
    /// Every sample inserted so far, oldest first.
    pub closed spec fn history(&self) -> Seq<i64> {
        self.hist@
    }

    pub closed spec fn far(&self) -> nat {
        self.size as nat
    }

    pub closed spec fn near(&self) -> nat {
        self.near as nat
    }

    pub closed spec fn wf(&self) -> bool {
        &&& self.size == self.vec@.len()
        &&& self.near < self.size
        &&& self.curr_index < self.size
        &&& self.max_index < self.size
        &&& self.seen as int == if self.hist@.len() < self.size { self.hist@.len() as int } else { self.size as int }
        &&& ring_holds(self.vec@, self.hist@, self.curr_index as int, self.size as int, self.seen as int)
        &&& self.seen > self.near ==> max_at(self.vec@, self.curr_index as int, self.size as int, self.near as int, self.seen as int, self.max_index as int)
    }

    /// A tracker over the window that ends `near_n` samples back and starts
    /// `far_n` samples back.
    pub fn new(far_n: u64, near_n: u64) -> (r: Self)
        requires
            near_n < far_n,
            far_n <= usize::MAX,
        ensures
            r.wf(),
            r.far() == far_n,
            r.near() == near_n,
            r.history() == Seq::<i64>::empty(),
    {
        let size = far_n as usize;
        MaxmimumInRange {
            size,
            near: near_n as usize,
            vec: vec![0i64; size],
            curr_index: size - 1,
            seen: 0,
            max_index: 0,
            hist: Ghost(Seq::empty()),
        }
    }

    /// Slot of a largest sample of a non-empty window.
    fn find_max_index(&self) -> (r: usize)
        requires
            self.size == self.vec@.len(),
            self.near < self.seen <= self.size,
            self.curr_index < self.size,
        ensures
            r < self.size,
            max_at(self.vec@, self.curr_index as int, self.size as int, self.near as int, self.seen as int, r as int),
    {
        let curr = self.curr_index;
        let size = self.size;
        let near = self.near;
        let seen = self.seen;
        let mut best: usize = if curr >= near { curr - near } else { size - (near - curr) };
        proof {
            lemma_slot_of_age(curr as int, size as int, near as int);
        }
        let mut s: usize = 0;
        while s < size
            invariant
                size == self.vec@.len(),
                near < seen <= size,
                curr < size,
                curr == self.curr_index,
                size == self.size,
                near == self.near,
                seen == self.seen,
                s <= size,
                best < size,
                in_ring_window(curr as int, size as int, near as int, seen as int, best as int),
                forall|t: int| 0 <= t < s && #[trigger] in_ring_window(curr as int, size as int, near as int, seen as int, t)
                    ==> self.vec@[t] <= self.vec@[best as int],
            decreases size - s,
        {
            let a: usize = if s <= curr { curr - s } else { size - (s - curr) };
            if near <= a && a < seen && self.vec[s] > self.vec[best] {
                best = s;
            }
            s = s + 1;
        }
        best
    }

    /// Inserts `input` and reports the largest value in the window; 0 until
    /// the buffer has been filled once.
    pub fn next(&mut self, input: i64) -> (r: i64)
        requires
            old(self).wf(),
        ensures
            final(self).wf(),
            final(self).far() == old(self).far(),
            final(self).near() == old(self).near(),
            final(self).history() == old(self).history().push(input),
            final(self).history().len() < final(self).far() ==> r == 0,
            final(self).history().len() >= final(self).far() ==> is_window_max(
                window(final(self).history(), final(self).far(), final(self).near()),
                r,
            ),
    {
        proof {
            lemma_ring_push(self.vec@, self.hist@, self.curr_index as int, self.size as int, self.seen as int, input);
        }
        let size = self.size;
        let near = self.near;
        let old_seen = self.seen;
        let nc: usize = if self.curr_index + 1 == size { 0 } else { self.curr_index + 1 };
        let overwritten = self.max_index == nc;
        proof {
            if old_seen > near && !overwritten {
                lemma_keep_extreme(self.vec@, self.curr_index as int, size as int, near as int, old_seen as int, self.max_index as int, input, true);
            }
        }
        self.curr_index = nc;
        self.vec.set(nc, input);
        if self.seen < size {
            self.seen = self.seen + 1;
        }
        self.hist = Ghost(self.hist@.push(input));
        if self.seen <= near {
            proof {
                lemma_report(self.vec@, self.hist@, nc as int, size as int, near as int, self.seen as int, self.max_index as int, 0, true);
            }
            return 0;
        }
        let slow: usize = if nc >= near { nc - near } else { size - (near - nc) };
        proof {
            lemma_slot_of_age(nc as int, size as int, near as int);
        }
        if old_seen <= near || overwritten {
            self.max_index = self.find_max_index();
        } else if self.vec[slow] > self.vec[self.max_index] {
            self.max_index = slow;
        }
        let r = if self.seen < size { 0 } else { self.vec[self.max_index] };
        proof {
            if self.seen == size {
                lemma_report(self.vec@, self.hist@, nc as int, size as int, near as int, self.seen as int, self.max_index as int, r, true);
            }
        }
        r
    }
}

/// Smallest value among the last `far_n` samples that are not among the last
/// `near_n`, kept in a ring buffer with a cached index of the smallest slot.
pub struct MinimumInRange {
    size: usize,
    near: usize,
    vec: Vec<i64>,
    curr_index: usize,
    seen: usize,
    min_index: usize,
    hist: Ghost<Seq<i64>>,
}

impl MinimumInRange {
    /// Every sample inserted so far, oldest first.
    pub closed spec fn history(&self) -> Seq<i64> {
        self.hist@
    }

    pub closed spec fn far(&self) -> nat {
        self.size as nat
    }

    pub closed spec fn near(&self) -> nat {
        self.near as nat
    }

    pub closed spec fn wf(&self) -> bool {
        &&& self.size == self.vec@.len()
        &&& self.near < self.size
        &&& self.curr_index < self.size
        &&& self.min_index < self.size
        &&& self.seen as int == if self.hist@.len() < self.size { self.hist@.len() as int } else { self.size as int }
        &&& ring_holds(self.vec@, self.hist@, self.curr_index as int, self.size as int, self.seen as int)
        &&& self.seen > self.near ==> min_at(self.vec@, self.curr_index as int, self.size as int, self.near as int, self.seen as int, self.min_index as int)
    }

    /// A tracker over the window that ends `near_n` samples back and starts
    /// `far_n` samples back.
    pub fn new(far_n: u64, near_n: u64) -> (r: Self)
        requires
            near_n < far_n,
            far_n <= usize::MAX,
        ensures
            r.wf(),
            r.far() == far_n,
            r.near() == near_n,
            r.history() == Seq::<i64>::empty(),
    {
        let size = far_n as usize;
        MinimumInRange {
            size,
            near: near_n as usize,
            vec: vec![0i64; size],
            curr_index: size - 1,
            seen: 0,
            min_index: 0,
            hist: Ghost(Seq::empty()),
        }
    }

    /// Slot of a smallest sample of a non-empty window.
    fn find_min_index(&self) -> (r: usize)
        requires
            self.size == self.vec@.len(),
            self.near < self.seen <= self.size,
            self.curr_index < self.size,
        ensures
            r < self.size,
            min_at(self.vec@, self.curr_index as int, self.size as int, self.near as int, self.seen as int, r as int),
    {
        let curr = self.curr_index;
        let size = self.size;
        let near = self.near;
        let seen = self.seen;
        let mut best: usize = if curr >= near { curr - near } else { size - (near - curr) };
        proof {
            lemma_slot_of_age(curr as int, size as int, near as int);
        }
        let mut s: usize = 0;
        while s < size
            invariant
                size == self.vec@.len(),
                near < seen <= size,
                curr < size,
                curr == self.curr_index,
                size == self.size,
                near == self.near,
                seen == self.seen,
                s <= size,
                best < size,
                in_ring_window(curr as int, size as int, near as int, seen as int, best as int),
                forall|t: int| 0 <= t < s && #[trigger] in_ring_window(curr as int, size as int, near as int, seen as int, t)
                    ==> self.vec@[best as int] <= self.vec@[t],
            decreases size - s,
        {
            let a: usize = if s <= curr { curr - s } else { size - (s - curr) };
            if near <= a && a < seen && self.vec[s] < self.vec[best] {
                best = s;
            }
            s = s + 1;
        }
        best
    }

    /// Inserts `input` and reports the smallest value in the window; 0 until
    /// the buffer has been filled once.
    pub fn next(&mut self, input: i64) -> (r: i64)
        requires
            old(self).wf(),
        ensures
            final(self).wf(),
            final(self).far() == old(self).far(),
            final(self).near() == old(self).near(),
            final(self).history() == old(self).history().push(input),
            final(self).history().len() < final(self).far() ==> r == 0,
            final(self).history().len() >= final(self).far() ==> is_window_min(
                window(final(self).history(), final(self).far(), final(self).near()),
                r,
            ),
    {
        proof {
            lemma_ring_push(self.vec@, self.hist@, self.curr_index as int, self.size as int, self.seen as int, input);
        }
        let size = self.size;
        let near = self.near;
        let old_seen = self.seen;
        let nc: usize = if self.curr_index + 1 == size { 0 } else { self.curr_index + 1 };
        let overwritten = self.min_index == nc;
        proof {
            if old_seen > near && !overwritten {
                lemma_keep_extreme(self.vec@, self.curr_index as int, size as int, near as int, old_seen as int, self.min_index as int, input, false);
            }
        }
        self.curr_index = nc;
        self.vec.set(nc, input);
        if self.seen < size {
            self.seen = self.seen + 1;
        }
        self.hist = Ghost(self.hist@.push(input));
        if self.seen <= near {
            proof {
                lemma_report(self.vec@, self.hist@, nc as int, size as int, near as int, self.seen as int, self.min_index as int, 0, false);
            }
            return 0;
        }
        let slow: usize = if nc >= near { nc - near } else { size - (near - nc) };
        proof {
            lemma_slot_of_age(nc as int, size as int, near as int);
        }
        if old_seen <= near || overwritten {
            self.min_index = self.find_min_index();
        } else if self.vec[slow] < self.vec[self.min_index] {
            self.min_index = slow;
        }
        let r = if self.seen < size { 0 } else { self.vec[self.min_index] };
        proof {
            if self.seen == size {
                lemma_report(self.vec@, self.hist@, nc as int, size as int, near as int, self.seen as int, self.min_index as int, r, false);
            }
        }
        r
    }
}

} // verus!
