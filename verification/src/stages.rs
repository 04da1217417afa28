//! The decisions that the stages of a streaming pipeline take on each item: batching
//! (`chunk`), sliding windows (`window`), limits (`take`) and fan-out to a branch (`tee`,
//! `broadcast`). The stages' tasks receive items, ask these state machines what to do, and
//! perform the sends.

use vstd::prelude::*;
use std::collections::VecDeque;
use vstd::std_specs::vecdeque::VecDequeAdditionalSpecFns;

verus! {

// ---------------------------------------------------------------------------
// chunk
// ---------------------------------------------------------------------------

/// What one item does to a batch of `size`: it joins the pending items, and where they
/// then number `size`, they leave as one batch and a new batch begins.
pub open spec fn chunk_step<T>(size: nat, pending: Seq<T>, item: T) -> (Seq<T>, Option<Seq<T>>) {
    let p = pending.push(item);
    if p.len() == size {
        (Seq::empty(), Some(p))
    } else {
        (p, None)
    }
}

/// The batches sent and the items still pending after feeding `xs`, from an empty batch.
pub open spec fn chunk_run<T>(size: nat, xs: Seq<T>) -> (Seq<Seq<T>>, Seq<T>)
    decreases xs.len(),
{
    if xs.len() == 0 {
        (Seq::empty(), Seq::empty())
    } else {
        let (sent, pending) = chunk_run(size, xs.drop_last());
        let (next, out) = chunk_step(size, pending, xs.last());
        match out {
            Some(batch) => (sent.push(batch), next),
            None => (sent, next),
        }
    }
}

/// Gathers items into batches of exactly `size` (the `chunk` stage's state).
pub struct Chunker<T> {
    size: usize,
    pending: Vec<T>,
}

impl<T> Chunker<T> {
    /// The batch size.
    pub closed spec fn size(&self) -> nat {
        self.size as nat
    }

    /// The items gathered for the next batch.
    pub closed spec fn pending(&self) -> Seq<T> {
        self.pending@
    }

    /// An empty batch of the given size.
    pub fn new(size: usize) -> (c: Self)
        ensures
            c.size() == size,
            c.pending() == Seq::<T>::empty(),
    {
        Chunker { size, pending: Vec::new() }
    }

    /// Adds an item; returns the batch where it completes one.
    pub fn push(&mut self, item: T) -> (out: Option<Vec<T>>)
        ensures
            final(self).size() == old(self).size(),
            (final(self).pending(), match out {
                Some(b) => Some(b@),
                None => None,
            }) == chunk_step(old(self).size(), old(self).pending(), item),
    {
        self.pending.push(item);
        if self.pending.len() == self.size {
            let mut full: Vec<T> = Vec::new();
            std::mem::swap(&mut full, &mut self.pending);
            Some(full)
        } else {
            None
        }
    }
}

/// Batching: every batch sent holds exactly `size` consecutive items, in order; the
/// batches and the pending items together are the input; fewer than `size` items are left
/// pending (they are dropped when the stream ends).
pub proof fn chunk_law<T>(size: nat, xs: Seq<T>)
    requires
        size > 0,
    ensures
        ({
            let (sent, pending) = chunk_run(size, xs);
            &&& sent.len() * size + pending.len() == xs.len()
            &&& pending.len() < size
            &&& pending == xs.subrange((sent.len() * size) as int, xs.len() as int)
            &&& forall|i: int|
                0 <= i < sent.len() ==> #[trigger] sent[i] == xs.subrange(
                    i * size,
                    (i + 1) * size,
                )
        }),
    decreases xs.len(),
{
    if xs.len() > 0 {
        let ys = xs.drop_last();
        chunk_law(size, ys);
        let (sent, pending) = chunk_run(size, ys);
        let k = sent.len();
        assert(ys.subrange((k * size) as int, ys.len() as int).push(xs.last()) =~= xs.subrange(
            (k * size) as int,
            xs.len() as int,
        ));
        assert forall|i: int| 0 <= i < k implies #[trigger] xs.subrange(i * size, (i + 1) * size)
            =~= ys.subrange(i * size, (i + 1) * size) by {
            assert(i * size <= (i + 1) * size <= k * size) by (nonlinear_arith)
                requires
                    0 <= i < k,
                    size > 0,
            ;
        }
        assert((k + 1) * size == k * size + size) by (nonlinear_arith);
    }
}

// ---------------------------------------------------------------------------
// window
// ---------------------------------------------------------------------------

/// What one item does to a window of `size`: it joins at the back, and where the window
/// then holds more than `size` items, the oldest leaves.
pub open spec fn window_step<T>(size: nat, items: Seq<T>, item: T) -> Seq<T> {
    let w = items.push(item);
    if w.len() > size {
        w.drop_first()
    } else {
        w
    }
}

/// The window after feeding `xs` to an empty one.
pub open spec fn window_run<T>(size: nat, xs: Seq<T>) -> Seq<T>
    decreases xs.len(),
{
    if xs.len() == 0 {
        Seq::empty()
    } else {
        window_step(size, window_run(size, xs.drop_last()), xs.last())
    }
}

/// The last `size` items seen (the `window` stage's ring buffer).
pub struct Window<T> {
    size: usize,
    items: VecDeque<T>,
}

impl<T> Window<T> {
    /// The window size.
    pub closed spec fn size(&self) -> nat {
        self.size as nat
    }

    /// The items in the window, oldest first.
    pub closed spec fn items(&self) -> Seq<T> {
        self.items@
    }

    /// An empty window of the given size.
    pub fn new(size: usize) -> (w: Self)
        ensures
            w.size() == size,
            w.items() == Seq::<T>::empty(),
    {
        Window { size, items: VecDeque::new() }
    }

    /// Adds an item, dropping the oldest where the window overflows; returns a copy of the
    /// window, which the stage sends on.
    pub fn push(&mut self, item: T) -> (out: VecDeque<T>)
        where
            T: Clone,
        ensures
            final(self).size() == old(self).size(),
            final(self).items() == window_step(old(self).size(), old(self).items(), item),
            out@.len() == final(self).items().len(),
            forall|i: int| 0 <= i < out@.len() ==> cloned::<T>(final(self).items()[i], out@[i]),
    {
        self.items.push_back(item);
        if self.items.len() > self.size {
            self.items.pop_front();
        }
        let out = self.items.clone();
        proof {
            assert forall|i: int| 0 <= i < out@.len() implies cloned::<T>(
                self.items@[i],
                out@[i],
            ) by {
                assert(cloned::<T>(self.items[i], out[i]));
            }
        }
        out
    }
}

/// Windows: after any input, the window holds exactly its last `size` items, oldest first
/// (all of them while fewer have arrived).
pub proof fn window_law<T>(size: nat, xs: Seq<T>)
    ensures
        window_run(size, xs) == xs.subrange(
            if xs.len() > size {
                xs.len() - size
            } else {
                0
            },
            xs.len() as int,
        ),
    decreases xs.len(),
{
    if xs.len() > 0 {
        let ys = xs.drop_last();
        window_law(size, ys);
        let start: int = if ys.len() > size {
            ys.len() - size
        } else {
            0
        };
        let w = ys.subrange(start, ys.len() as int).push(xs.last());
        assert(w =~= xs.subrange(start, xs.len() as int));
        if w.len() > size {
            assert(w.drop_first() =~= xs.subrange(start + 1, xs.len() as int));
        }
    }
}

// ---------------------------------------------------------------------------
// take
// ---------------------------------------------------------------------------

/// Counts the items a `take(limit)` stage has passed on.
pub struct Limiter {
    limit: usize,
    count: usize,
}

impl Limiter {
    /// The limit.
    pub closed spec fn limit(&self) -> nat {
        self.limit as nat
    }

    /// The items passed on so far.
    pub closed spec fn count(&self) -> nat {
        self.count as nat
    }

    /// A stage that passes on at most `limit` items.
    pub fn new(limit: usize) -> (l: Self)
        ensures
            l.limit() == limit,
            l.count() == 0,
    {
        Limiter { limit, count: 0 }
    }

    /// Whether the stage is wired at all: with a limit of 0 it is not, and its output closes
    /// at once.
    pub fn wires(&self) -> (r: bool)
        ensures
            r == (self.limit() != 0),
    {
        self.limit != 0
    }

    /// Whether `limit` items have passed, so that no further item may.
    pub fn reached(&self) -> (r: bool)
        ensures
            r == limit_reached(self.limit(), self.count()),
    {
        self.count >= self.limit
    }

    /// Records one item passed on; returns whether the stage stops now, which it does once
    /// `limit` items have passed.
    pub fn passed(&mut self) -> (stop: bool)
        requires
            old(self).count() < old(self).limit(),
        ensures
            final(self).limit() == old(self).limit(),
            (final(self).count(), stop) == limit_step(old(self).limit(), old(self).count()),
    {
        self.count = self.count + 1;
        self.count >= self.limit
    }
}

/// Whether a `take(limit)` stage that has passed `count` items lets no further item pass.
pub open spec fn limit_reached(limit: nat, count: nat) -> bool {
    count >= limit
}

/// What passing one more item does to a `take(limit)` stage that has passed `count`: the
/// new count, and whether the stage stops now.
pub open spec fn limit_step(limit: nat, count: nat) -> (nat, bool) {
    (count + 1, count + 1 >= limit)
}

/// The items that a `take(limit)` stage that has passed `count` items passes on from
/// `xs`, where every send succeeds: it checks `reached`, passes the item on, records it
/// with `passed`, and goes on unless that says stop (the loop of the stage's task).
pub open spec fn take_from<T>(limit: nat, count: nat, xs: Seq<T>) -> Seq<T>
    decreases xs.len(),
{
    if xs.len() == 0 || limit_reached(limit, count) {
        Seq::empty()
    } else {
        let (next, stop) = limit_step(limit, count);
        if stop {
            seq![xs[0]]
        } else {
            seq![xs[0]] + take_from(limit, next, xs.drop_first())
        }
    }
}

/// The items that a `take(limit)` stage passes on from `xs`, where every send succeeds.
pub open spec fn take_run<T>(limit: nat, xs: Seq<T>) -> Seq<T> {
    if limit == 0 {
        Seq::empty()
    } else {
        take_from(limit, 0, xs)
    }
}

proof fn lemma_take_from<T>(limit: nat, count: nat, xs: Seq<T>)
    requires
        count < limit,
    ensures
        take_from(limit, count, xs) == xs.take(
            if xs.len() < limit - count {
                xs.len() as int
            } else {
                limit - count
            },
        ),
    decreases xs.len(),
{
    if xs.len() > 0 {
        if count + 1 < limit {
            lemma_take_from(limit, count + 1, xs.drop_first());
            let n = if xs.len() < limit - count {
                xs.len() as int
            } else {
                limit - count
            };
            assert(seq![xs[0]] + xs.drop_first().take(n - 1) =~= xs.take(n));
        } else {
            assert(seq![xs[0]] =~= xs.take(1));
        }
    }
}

/// Limits: a `take(limit)` stage passes on exactly the first `limit` items (all of them
/// where fewer arrive), and nothing with a limit of 0.
pub proof fn take_law<T>(limit: nat, xs: Seq<T>)
    ensures
        take_run(limit, xs) == xs.take(
            if xs.len() < limit {
                xs.len() as int
            } else {
                limit as int
            },
        ),
{
    if limit > 0 {
        lemma_take_from(limit, 0, xs);
    } else {
        assert(xs.take(0) =~= Seq::<T>::empty());
    }
}

// ---------------------------------------------------------------------------
// tee and broadcast
// ---------------------------------------------------------------------------

/// An output of a fan-out stage.
#[derive(Debug, PartialEq, Eq, Clone, Copy, Structural)]
pub enum Outlet {
    /// The main pipeline.
    Main,
    /// The branch pipeline.
    Branch,
}

/// The state of a fan-out stage: `tee` (the branch hears only what the main pipeline
/// accepted, and the stage stops with the main pipeline) or `broadcast` (each output
/// gets every item while it is open, and the stage runs while either is open).
#[derive(Debug, PartialEq, Eq, Clone, Copy, Structural)]
pub struct Fanout {
    /// `tee` where true, `broadcast` where false.
    pub tee: bool,
    /// The main output still accepts items.
    pub main_open: bool,
    /// The branch output still accepts items.
    pub branch_open: bool,
}

/// The output that an item goes to first, if any.
pub open spec fn fan_first(s: Fanout) -> Option<Outlet> {
    if s.tee {
        if s.main_open {
            Some(Outlet::Main)
        } else {
            None
        }
    } else if s.branch_open {
        Some(Outlet::Branch)
    } else if s.main_open {
        Some(Outlet::Main)
    } else {
        None
    }
}

/// The state after a send to `o` that succeeded or failed (`ok`), and the output that
/// the same item goes to next, if any.
pub open spec fn fan_sent(s: Fanout, o: Outlet, ok: bool) -> (Fanout, Option<Outlet>) {
    if s.tee {
        match o {
            Outlet::Main => if ok {
                (s, Some(Outlet::Branch))
            } else {
                (Fanout { main_open: false, ..s }, None)
            },
            Outlet::Branch => (s, None),
        }
    } else {
        match o {
            Outlet::Branch => {
                let t = Fanout { branch_open: ok, ..s };
                (t, if t.main_open {
                    Some(Outlet::Main)
                } else {
                    None
                })
            },
            Outlet::Main => (Fanout { main_open: ok, ..s }, None),
        }
    }
}

/// Whether the stage pulls another item from upstream.
pub open spec fn fan_pulls(s: Fanout) -> bool {
    if s.tee {
        s.main_open
    } else {
        s.main_open || s.branch_open
    }
}

impl Fanout {
    /// A `tee` stage, both outputs open.
    pub fn tee() -> (s: Self)
        ensures
            s == (Fanout { tee: true, main_open: true, branch_open: true }),
    {
        Fanout { tee: true, main_open: true, branch_open: true }
    }

    /// A `broadcast` stage, both outputs open.
    pub fn broadcast() -> (s: Self)
        ensures
            s == (Fanout { tee: false, main_open: true, branch_open: true }),
    {
        Fanout { tee: false, main_open: true, branch_open: true }
    }

    /// The output that the next item goes to first, if any.
    pub fn first(&self) -> (o: Option<Outlet>)
        ensures
            o == fan_first(*self),
    {
        if self.tee {
            if self.main_open {
                Some(Outlet::Main)
            } else {
                None
            }
        } else if self.branch_open {
            Some(Outlet::Branch)
        } else if self.main_open {
            Some(Outlet::Main)
        } else {
            None
        }
    }

    /// Records the outcome of a send to `o`; returns the output the same item goes to next.
    pub fn sent(&mut self, o: Outlet, ok: bool) -> (next: Option<Outlet>)
        ensures
            (*final(self), next) == fan_sent(*old(self), o, ok),
    {
        if self.tee {
            match o {
                Outlet::Main => if ok {
                    Some(Outlet::Branch)
                } else {
                    self.main_open = false;
                    None
                },
                Outlet::Branch => None,
            }
        } else {
            match o {
                Outlet::Branch => {
                    self.branch_open = ok;
                    if self.main_open {
                        Some(Outlet::Main)
                    } else {
                        None
                    }
                },
                Outlet::Main => {
                    self.main_open = ok;
                    None
                },
            }
        }
    }

    /// Whether the stage pulls another item from upstream.
    pub fn pulls(&self) -> (r: bool)
        ensures
            r == fan_pulls(*self),
    {
        if self.tee {
            self.main_open
        } else {
            self.main_open || self.branch_open
        }
    }
}

/// The deliveries of one item, number `k`, where the main output accepts the items
/// numbered below `m` and the branch those below `b` (a closed channel stays closed):
/// the state after it, whether main got it, whether the branch got it.
pub open spec fn fan_item(s: Fanout, k: nat, m: nat, b: nat) -> (Fanout, bool, bool) {
    match fan_first(s) {
        None => (s, false, false),
        Some(o1) => {
            let ok1 = match o1 {
                Outlet::Main => k < m,
                Outlet::Branch => k < b,
            };
            let (s1, next) = fan_sent(s, o1, ok1);
            match next {
                None => (s1, o1 == Outlet::Main && ok1, o1 == Outlet::Branch && ok1),
                Some(o2) => {
                    let ok2 = match o2 {
                        Outlet::Main => k < m,
                        Outlet::Branch => k < b,
                    };
                    let (s2, _) = fan_sent(s1, o2, ok2);
                    (
                        s2,
                        (o1 == Outlet::Main && ok1) || (o2 == Outlet::Main && ok2),
                        (o1 == Outlet::Branch && ok1) || (o2 == Outlet::Branch && ok2),
                    )
                },
            }
        },
    }
}

/// A fan-out stage fed `n` items from item number `k` on: how many items it pulls, and how
/// many reach the main output and the branch.
pub open spec fn fan_run(s: Fanout, k: nat, n: nat, m: nat, b: nat) -> (nat, nat, nat)
    decreases n,
{
    if n == 0 {
        (0, 0, 0)
    } else {
        let (s1, to_main, to_branch) = fan_item(s, k, m, b);
        let (pulled, mains, branches) = if fan_pulls(s1) {
            fan_run(s1, k + 1, (n - 1) as nat, m, b)
        } else {
            (0, 0, 0)
        };
        (
            pulled + 1,
            mains + if to_main {
                1nat
            } else {
                0
            },
            branches + if to_branch {
                1nat
            } else {
                0
            },
        )
    }
}

pub open spec fn min(a: nat, b: nat) -> nat {
    if a < b {
        a
    } else {
        b
    }
}

proof fn lemma_independent_run(k: nat, n: nat, m: nat, b: nat)
    requires
        k <= m || k <= b,
    ensures
        ({
            let s = Fanout { tee: false, main_open: k <= m, branch_open: k <= b };
            let (pulled, mains, branches) = fan_run(s, k, n, m, b);
            &&& mains == min(n, (if m > k { m - k } else { 0 }) as nat)
            &&& branches == min(n, (if b > k { b - k } else { 0 }) as nat)
            &&& pulled == min(n, ((if m > b { m } else { b }) + 1 - k) as nat)
        }),
    decreases n,
{
    if n > 0 {
        let s = Fanout { tee: false, main_open: k <= m, branch_open: k <= b };
        let (s1, tm, tb) = fan_item(s, k, m, b);
        assert(s1 == Fanout { tee: false, main_open: k < m, branch_open: k < b });
        if k < m || k < b {
            lemma_independent_run(k + 1, (n - 1) as nat, m, b);
        }
    }
}

/// Broadcast: where the main output accepts the first `m` items and the branch the first
/// `b` (each closes after that for good), a broadcast stage fed `n` items delivers the
/// first `min(n, m)` to the main output and the first `min(n, b)` to the branch, and keeps
/// pulling from upstream until both outputs have closed: it pulls `min(n, max(m, b) + 1)`
/// items.
pub proof fn independent_fanout_law(n: nat, m: nat, b: nat)
    ensures
        fan_run(Fanout { tee: false, main_open: true, branch_open: true }, 0, n, m, b) == (
            min(n, (if m > b { m } else { b }) + 1),
            min(n, m),
            min(n, b),
        ),
{
    lemma_independent_run(0, n, m, b);
}

proof fn lemma_tee_run(k: nat, n: nat, m: nat, b: nat)
    requires
        k <= m,
    ensures
        ({
            let s = Fanout { tee: true, main_open: true, branch_open: true };
            let (pulled, mains, branches) = fan_run(s, k, n, m, b);
            &&& mains == min(n, (m - k) as nat)
            &&& branches == min(min(n, (m - k) as nat), (if b > k { b - k } else { 0 }) as nat)
            &&& pulled == min(n, (m + 1 - k) as nat)
        }),
    decreases n,
{
    if n > 0 && k < m {
        lemma_tee_run(k + 1, (n - 1) as nat, m, b);
    }
}

/// Tee: where the main output accepts the first `m` items (and closes after that for good)
/// and the branch the first `b`, a tee stage fed `n` items delivers the first `min(n, m)`
/// to the main output, offers the branch only items the main output accepted (so it
/// gets the first `min(n, m, b)`), and stops pulling once the main output has closed: it
/// pulls `min(n, m + 1)` items.
pub proof fn tee_law(n: nat, m: nat, b: nat)
    ensures
        fan_run(Fanout { tee: true, main_open: true, branch_open: true }, 0, n, m, b) == (
            min(n, m + 1),
            min(n, m),
            min(min(n, m), b),
        ),
{
    lemma_tee_run(0, n, m, b);
}

} // verus!
