use vstd::prelude::*;
use vstd::arithmetic::div_mod::lemma_fundamental_div_mod;
use vstd::arithmetic::div_mod::lemma_fundamental_div_mod_converse;
use vstd::arithmetic::div_mod::lemma_small_mod;

verus! {

/// A circular buffer of fixed capacity `CAP` that keeps the `CAP` most
/// recently pushed values and overwrites the oldest one once full.
///
/// `cursor` is the index of the next slot to write; `wrapped` records
/// whether the cursor has completed at least one full lap, i.e. whether
/// every slot has been written at least once.
#[derive(Clone)]
pub struct BumpBuf<N, const CAP: usize> {
    storage: Vec<N>,
    cursor: usize,
    wrapped: bool,
}

impl<N: Default + Copy, const CAP: usize> BumpBuf<N, CAP> {
    /// The physical slots, in storage order.
    pub closed spec fn slots(self) -> Seq<N> {
        self.storage@
    }

    /// The index of the next slot to be written.
    pub closed spec fn spec_cursor(self) -> int {
        self.cursor as int
    }

    /// Whether the buffer has been filled at least once.
    pub closed spec fn spec_wrapped(self) -> bool {
        self.wrapped
    }

    /// Structural invariant: the storage holds exactly `CAP >= 2` slots and
    /// the cursor is a valid index into it.
    pub open spec fn wf(self) -> bool {
        &&& self.slots().len() == CAP
        &&& CAP >= 2
        &&& 0 <= self.spec_cursor() < CAP
    }

    /// The retained samples in logical order, oldest first, newest last.
    ///
    /// Before the first wrap only the slots below the cursor have been
    /// written; afterwards the slot at the cursor is the oldest and the
    /// ordering wraps around the end of the storage.
    pub open spec fn contents(self) -> Seq<N> {
        if self.spec_wrapped() {
            self.slots().skip(self.spec_cursor()) + self.slots().take(self.spec_cursor())
        } else {
            self.slots().take(self.spec_cursor())
        }
    }

    /// The suffix of `vals` that a capacity-`CAP` buffer retains after the
    /// whole of `vals` has been pushed, in order, into it when fresh.
    pub open spec fn window(vals: Seq<N>) -> Seq<N> {
        if vals.len() <= CAP {
            vals
        } else {
            vals.skip(vals.len() - CAP)
        }
    }

    /// The buffer is in the state reached by pushing `vals`, in order, into
    /// a freshly constructed buffer: the cursor counts pushes modulo `CAP`,
    /// the buffer has wrapped exactly when at least `CAP` pushes have
    /// happened, and the retained samples are the last `CAP` (or fewer)
    /// pushed values.
    pub open spec fn tracks(self, vals: Seq<N>) -> bool {
        &&& self.wf()
        &&& self.spec_wrapped() == (vals.len() >= CAP)
        &&& self.spec_cursor() == vals.len() as int % (CAP as int)
        &&& self.contents() == Self::window(vals)
    }

    /// Builds an empty buffer with every slot default-initialized.
    ///
    /// Capacities of 0 or 1 make the "previous sample" accessors
    /// degenerate, so they are rejected here, at construction.
    pub fn new() -> (r: Self)
        requires
            CAP >= 2,
        ensures
            r.wf(),
            r.spec_cursor() == 0,
            !r.spec_wrapped(),
            r.contents() == Seq::<N>::empty(),
            r.tracks(Seq::<N>::empty()),
            forall|i: int| 0 <= i < CAP ==> call_ensures(N::default, (), #[trigger] r.slots()[i]),
    {
        let fill = N::default();
        let mut storage: Vec<N> = Vec::new();
        while storage.len() < CAP
            invariant
                storage@.len() <= CAP,
                forall|i: int| 0 <= i < storage@.len() ==> #[trigger] storage@[i] == fill,
            decreases CAP - storage.len(),
        {
            storage.push(fill);
        }
        let r = BumpBuf { storage, cursor: 0, wrapped: false };
        proof {
            assert(r.contents() =~= Seq::<N>::empty());
            lemma_small_mod(0, CAP as nat);
        }
        r
    }

    /// Adds `val` at the front of the buffer, evicting the oldest retained
    /// sample once the buffer is full.  Always succeeds.
    pub fn push(&mut self, val: N)
        requires
            old(self).wf(),
        ensures
            final(self).wf(),
            final(self).slots() == old(self).slots().update(old(self).spec_cursor(), val),
            final(self).spec_cursor() == (old(self).spec_cursor() + 1) % (CAP as int),
            final(self).spec_wrapped() == (old(self).spec_wrapped() || old(self).spec_cursor()
                == CAP - 1),
            old(self).contents().len() < CAP ==> final(self).contents() == old(
                self,
            ).contents().push(val),
            old(self).contents().len() == CAP ==> final(self).contents() == old(
                self,
            ).contents().skip(1).push(val),
            forall|vals: Seq<N>|
                #[trigger] old(self).tracks(vals) ==> final(self).tracks(vals.push(val)),
    {
        let idx = self.cursor;
        self.storage[idx] = val;
        self.cursor = idx + 1;
        if self.cursor == CAP {
            self.cursor = 0;
            self.wrapped = true;
        }
        proof {
            let c = old(self).spec_cursor();
            let cap = CAP as int;
            if c + 1 < cap {
                lemma_small_mod((c + 1) as nat, CAP as nat);
            } else {
                assert(cap == 1 * cap + 0);
                lemma_fundamental_div_mod_converse(cap, cap, 1, 0);
            }
            self.lemma_push_shape(*old(self), val);
            assert forall|vals: Seq<N>| #[trigger]
                old(self).tracks(vals) implies self.tracks(vals.push(val)) by {
                self.lemma_push_tracks(*old(self), val, vals);
            }
        }
    }

    /// The most recent push completed a full lap: it landed in the last
    /// slot, so a whole batch of `CAP` samples has just been gathered.
    pub open spec fn spec_just_wrapped(self) -> bool {
        self.spec_cursor() == 0 && self.spec_wrapped()
    }

    /// The retained sample `k` steps back in time: offset 0 is the most
    /// recent sample, each further offset one push earlier, and offsets
    /// beyond the retained window give nothing.
    pub open spec fn spec_at(self, k: int) -> Option<N> {
        if 0 <= k < self.contents().len() {
            Some(self.contents()[self.contents().len() - 1 - k])
        } else {
            None
        }
    }

    /// Returns the number of samples currently retained: the push count
    /// until the buffer first fills, and `CAP` from then on.
    pub fn valid_len(&self) -> (r: usize)
        requires
            self.wf(),
        ensures
            r == self.contents().len(),
    {
        if self.wrapped {
            CAP
        } else {
            self.cursor
        }
    }

    /// Returns the capacity of the buffer: the length of the underlying
    /// storage, constant for the buffer's lifetime.
    pub fn len(&self) -> (r: usize)
        ensures
            r == CAP,
    {
        CAP
    }

    /// Returns the most recently pushed sample.  Before the first push it
    /// returns whatever the last slot holds, i.e. its default value.
    pub fn recent(&self) -> (r: N)
        requires
            self.wf(),
        ensures
            r == if self.spec_cursor() == 0 {
                self.slots()[CAP - 1]
            } else {
                self.slots()[self.spec_cursor() - 1]
            },
            self.contents().len() > 0 ==> r == self.contents().last(),
    {
        let idx = if self.cursor == 0 {
            CAP - 1
        } else {
            self.cursor - 1
        };
        self.storage[idx]
    }

    /// Returns the oldest retained sample.  Before the first push it
    /// returns whatever slot 0 holds, i.e. its default value.
    pub fn last(&self) -> (r: N)
        requires
            self.wf(),
        ensures
            r == if self.spec_wrapped() {
                self.slots()[self.spec_cursor()]
            } else {
                self.slots()[0]
            },
            self.contents().len() > 0 ==> r == self.contents().first(),
    {
        let idx = if self.wrapped {
            self.cursor
        } else {
            0
        };
        self.storage[idx]
    }

    /// Returns the second most recently pushed sample.  While fewer than
    /// two samples have been pushed it returns the default value left in
    /// the slot it reads.
    pub fn prev(&self) -> (r: N)
        requires
            self.wf(),
        ensures
            r == if self.spec_cursor() == 0 {
                self.slots()[CAP - 2]
            } else if self.spec_cursor() == 1 {
                self.slots()[CAP - 1]
            } else {
                self.slots()[self.spec_cursor() - 2]
            },
            self.contents().len() >= 2 ==> r == self.contents()[self.contents().len() - 2],
    {
        let idx = if self.cursor == 0 {
            CAP - 2
        } else if self.cursor == 1 {
            CAP - 1
        } else {
            self.cursor - 2
        };
        self.storage[idx]
    }

    /// Returns true exactly when the most recent push was the one that
    /// completed a lap, i.e. it wrote the last slot of the storage.
    pub fn end_of_internal(&self) -> (r: bool)
        ensures
            r == self.spec_just_wrapped(),
    {
        self.cursor == 0 && self.wrapped
    }

    /// Returns the retained sample `offset` steps back from the most
    /// recent one, or `None` when `offset` reaches past the retained
    /// window.  Offset 0 is the most recent sample.
    pub fn at(&self, offset: usize) -> (r: Option<N>)
        requires
            self.wf(),
        ensures
            r == self.spec_at(offset as int),
    {
        let avail = self.valid_len();
        if offset >= avail {
            None
        } else {
            let base = if self.cursor == 0 {
                CAP - 1
            } else {
                self.cursor - 1
            };
            let idx = if offset <= base {
                base - offset
            } else {
                CAP - (offset - base)
            };
            Some(self.storage[idx])
        }
    }

    /// The offset lookup generalizes the named accessors: offset 0 is the
    /// most recent sample, offset 1 the previous one, and the largest
    /// valid offset (the span of the window) the oldest.
    pub proof fn lemma_at_generalizes_accessors(self)
        requires
            self.wf(),
        ensures
            self.contents().len() > 0 ==> self.spec_at(0) == Some(self.contents().last()),
            self.contents().len() >= 2 ==> self.spec_at(1) == Some(
                self.contents()[self.contents().len() - 2],
            ),
            self.contents().len() > 0 ==> self.spec_at(self.contents().len() - 1) == Some(
                self.contents().first(),
            ),
    {
    }

    /// Law: while fewer than `CAP` values have been pushed the buffer has
    /// not wrapped and retains every pushed value in push order; in
    /// particular the oldest retained sample is the first pushed value and
    /// the most recent one is the last.
    pub proof fn lemma_filling_keeps_all(self, vals: Seq<N>)
        requires
            self.tracks(vals),
            vals.len() < CAP,
        ensures
            !self.spec_wrapped(),
            self.contents() == vals,
            vals.len() > 0 ==> self.contents().first() == vals.first(),
            vals.len() > 0 ==> self.contents().last() == vals.last(),
    {
    }

    /// Law: once at least `CAP` values have been pushed the buffer has
    /// wrapped and retains exactly the last `CAP` pushed values in push
    /// order; the oldest retained sample is the value pushed `CAP - 1`
    /// pushes before the most recent one.
    pub proof fn lemma_wrapped_keeps_window(self, vals: Seq<N>)
        requires
            self.tracks(vals),
            vals.len() >= CAP,
        ensures
            self.spec_wrapped(),
            self.contents() == vals.skip(vals.len() - CAP),
            self.contents().len() == CAP,
            self.contents().first() == vals[vals.len() - CAP],
            self.contents().last() == vals.last(),
    {
    }

    /// Law: one retained sample per push until the buffer fills, `CAP`
    /// afterwards; iterating therefore yields `min(push count, CAP)`
    /// items.
    pub proof fn lemma_window_length(self, vals: Seq<N>)
        requires
            self.tracks(vals),
        ensures
            self.contents().len() == if vals.len() <= CAP {
                vals.len() as int
            } else {
                CAP as int
            },
    {
    }

    /// Law: the "just wrapped" flag is raised exactly by pushes numbered
    /// `CAP`, `2·CAP`, and so on: it holds iff at least one value has been
    /// pushed and the push count is a multiple of `CAP`.
    pub proof fn lemma_just_wrapped_at_multiples(self, vals: Seq<N>)
        requires
            self.tracks(vals),
        ensures
            self.spec_just_wrapped() <==> (vals.len() > 0 && vals.len() as int % (CAP as int)
                == 0),
    {
        if vals.len() < CAP {
            lemma_small_mod(vals.len(), CAP as nat);
        }
    }

    /// Returns a fresh iterator over the retained samples, oldest first,
    /// reflecting the buffer's state at the time of the call.  The
    /// iterator copies the window eagerly, so later pushes do not affect
    /// an iterator already obtained.
    pub fn iter(&self) -> (r: BumpBufIterator<N>)
        requires
            self.wf(),
        ensures
            r.wf(),
            r.remaining() == self.contents(),
    {
        let ghost c = self.spec_cursor();
        let mut items: Vec<N> = Vec::new();
        if self.wrapped {
            let mut i = self.cursor;
            proof {
                assert(items@ =~= self.slots().subrange(c, c));
            }
            while i < CAP
                invariant
                    self.wf(),
                    c == self.spec_cursor(),
                    c <= i <= CAP,
                    items@ == self.slots().subrange(c, i as int),
                decreases CAP - i,
            {
                items.push(self.storage[i]);
                i = i + 1;
                proof {
                    assert(items@ =~= self.slots().subrange(c, i as int));
                }
            }
        }
        let ghost head = items@;
        let mut j: usize = 0;
        proof {
            assert(items@ =~= head + self.slots().take(0));
        }
        while j < self.cursor
            invariant
                self.wf(),
                c == self.spec_cursor(),
                0 <= j <= c,
                items@ == head + self.slots().take(j as int),
            decreases c - j,
        {
            items.push(self.storage[j]);
            j = j + 1;
            proof {
                assert(items@ =~= head + self.slots().take(j as int));
            }
        }
        let r = BumpBufIterator { items, pos: 0 };
        proof {
            assert(r.remaining() =~= r.spec_items());
            assert(r.spec_items() =~= self.contents());
        }
        r
    }

    /// The slot-level effect of one push implies the logical-order effect:
    /// a still-filling buffer gains `val` at the end, a full one also drops
    /// its oldest sample.
    proof fn lemma_push_shape(self, pre: Self, val: N)
        requires
            pre.wf(),
            self.slots() == pre.slots().update(pre.spec_cursor(), val),
            self.spec_cursor() == if pre.spec_cursor() + 1 == CAP {
                0int
            } else {
                pre.spec_cursor() + 1
            },
            self.spec_wrapped() == (pre.spec_wrapped() || pre.spec_cursor() + 1 == CAP),
        ensures
            self.wf(),
            pre.contents().len() < CAP ==> self.contents() == pre.contents().push(val),
            pre.contents().len() == CAP ==> self.contents() == pre.contents().skip(1).push(val),
    {
        if !pre.spec_wrapped() {
            assert(self.contents() =~= pre.contents().push(val));
        } else {
            assert(pre.contents().len() == CAP);
            assert(self.contents() =~= pre.contents().skip(1).push(val));
        }
    }

    /// One push keeps the push-history model: a buffer that tracks the
    /// history `vals` tracks `vals.push(val)` afterwards.
    proof fn lemma_push_tracks(self, pre: Self, val: N, vals: Seq<N>)
        requires
            pre.tracks(vals),
            self.wf(),
            self.spec_cursor() == if pre.spec_cursor() + 1 == CAP {
                0int
            } else {
                pre.spec_cursor() + 1
            },
            self.spec_wrapped() == (pre.spec_wrapped() || pre.spec_cursor() + 1 == CAP),
            vals.len() < CAP ==> self.contents() == pre.contents().push(val),
            vals.len() >= CAP ==> self.contents() == pre.contents().skip(1).push(val),
        ensures
            self.tracks(vals.push(val)),
    {
        let n = vals.len() as int;
        let cap = CAP as int;
        let c = pre.spec_cursor();
        lemma_fundamental_div_mod(n, cap);
        if c + 1 < CAP {
            lemma_fundamental_div_mod_converse(n + 1, cap, n / cap, c + 1);
        } else {
            assert(n + 1 == (n / cap + 1) * cap + 0) by (nonlinear_arith)
                requires
                    n == cap * (n / cap) + c,
                    c + 1 == cap,
            ;
            lemma_fundamental_div_mod_converse(n + 1, cap, n / cap + 1, 0);
        }
        if n < CAP {
            lemma_small_mod(n as nat, CAP as nat);
            assert(Self::window(vals.push(val)) =~= vals.push(val));
            assert(self.contents() == vals.push(val));
        } else {
            assert(pre.contents() == vals.skip(n - cap));
            assert(self.contents() =~= Self::window(vals.push(val)));
        }
    }
}

/// A snapshot iterator over a buffer's retained samples, oldest first.
///
/// It holds its own copy of the logical window, taken when it was
/// created, so the buffer may keep being pushed to without affecting an
/// iterator already in progress.
pub struct BumpBufIterator<N> {
    items: Vec<N>,
    pos: usize,
}

impl<N: Copy> BumpBufIterator<N> {
    /// The snapshot of the window the iterator walks, oldest first.
    pub closed spec fn spec_items(self) -> Seq<N> {
        self.items@
    }

    /// How many items have been yielded already.
    pub closed spec fn spec_pos(self) -> int {
        self.pos as int
    }

    /// The yield position never runs past the snapshot.
    pub open spec fn wf(self) -> bool {
        0 <= self.spec_pos() <= self.spec_items().len()
    }

    /// The items not yet yielded, in the order they will come out.
    pub open spec fn remaining(self) -> Seq<N> {
        self.spec_items().skip(self.spec_pos())
    }

    /// Yields the next retained sample, oldest first, or `None` once the
    /// whole window has been yielded.
    pub fn next(&mut self) -> (r: Option<N>)
        requires
            old(self).wf(),
        ensures
            final(self).wf(),
            old(self).remaining().len() == 0 ==> r is None && *final(self) == *old(self),
            old(self).remaining().len() > 0 ==> r == Some(old(self).remaining().first())
                && final(self).remaining() == old(self).remaining().skip(1),
    {
        if self.pos < self.items.len() {
            let v = self.items[self.pos];
            self.pos = self.pos + 1;
            proof {
                assert(self.remaining() =~= old(self).remaining().skip(1));
            }
            Some(v)
        } else {
            None
        }
    }
}

} // verus!
