//! The analyser's bookkeeping: the last samples in order, and where one band
//! ends and the next begins.

use vstd::prelude::*;

use crate::bits::Single;

verus! {

/// How many samples a transform looks at.
pub const FFT_SIZE: usize = 2048;

/// Bands in each frame.
pub const BAND_COUNT: usize = 20;

/// The most recent samples, at most [`FFT_SIZE`], in a ring.
pub struct History {
    ring: Vec<Single>,
    pos: usize,
    filled: usize,
}

/// The last `n` elements.
pub open spec fn last_of(s: Seq<Single>, n: int) -> Seq<Single> {
    if s.len() <= n {
        s
    } else {
        s.skip(s.len() - n)
    }
}

impl View for History {
    type V = Seq<Single>;

    closed spec fn view(&self) -> Seq<Single> {
        if self.filled < FFT_SIZE {
            self.ring@.take(self.filled as int)
        } else {
            self.ring@.skip(self.pos as int) + self.ring@.take(self.pos as int)
        }
    }
}

impl History {
    pub closed spec fn wf(&self) -> bool {
        &&& self.ring@.len() == FFT_SIZE
        &&& self.pos < FFT_SIZE
        &&& self.filled <= FFT_SIZE
        &&& self.filled < FFT_SIZE ==> self.pos == self.filled
    }

    /// No samples yet.
    pub fn new() -> (h: Self)
        ensures
            h.wf(),
            h@ == Seq::<Single>::empty(),
    {
        let mut ring: Vec<Single> = Vec::new();
        let mut i: usize = 0;
        while i < FFT_SIZE
            invariant
                i <= FFT_SIZE,
                ring@.len() == i,
            decreases FFT_SIZE - i,
        {
            ring.push(Single::zero());
            i += 1;
        }
        let h = History { ring, pos: 0, filled: 0 };
        assert(h@ =~= Seq::empty());
        h
    }

    /// Adds a sample; the oldest falls out of a full history.
    pub fn push(&mut self, sample: Single)
        requires
            old(self).wf(),
        ensures
            final(self).wf(),
            final(self)@ == last_of(old(self)@.push(sample), FFT_SIZE as int),
    {
        let ghost before = self@;
        let ghost old_ring = self.ring@;
        let ghost old_pos = self.pos;
        self.ring.set(self.pos, sample);
        if self.pos + 1 == FFT_SIZE {
            self.pos = 0;
        } else {
            self.pos = self.pos + 1;
        }
        if self.filled < FFT_SIZE {
            self.filled = self.filled + 1;
        }
        assert(self@ =~= last_of(before.push(sample), FFT_SIZE as int));
    }

    /// Whether there are enough samples for a transform.
    pub fn is_full(&self) -> (full: bool)
        requires
            self.wf(),
        ensures
            full == (self@.len() == FFT_SIZE),
    {
        self.filled == FFT_SIZE
    }

    /// Forgets everything, after a seek or a track change.
    pub fn reset(&mut self)
        requires
            old(self).wf(),
        ensures
            final(self).wf(),
            final(self)@ == Seq::<Single>::empty(),
    {
        self.pos = 0;
        self.filled = 0;
        assert(self@ =~= Seq::empty());
    }

    /// The samples, oldest first.
    pub fn ordered(&self) -> (out: Vec<Single>)
        requires
            self.wf(),
        ensures
            out@ == self@,
    {
        let mut out: Vec<Single> = Vec::new();
        let start: usize = if self.filled < FFT_SIZE {
            0
        } else {
            self.pos
        };
        let mut i: usize = 0;
        while i < self.filled
            invariant
                self.wf(),
                i <= self.filled,
                start == if self.filled < FFT_SIZE {
                    0
                } else {
                    self.pos
                },
                out@ == self@.take(i as int),
            decreases self.filled - i,
        {
            let at: usize = if start + i < FFT_SIZE {
                start + i
            } else {
                start + i - FFT_SIZE
            };
            assert(self@.take(i + 1) =~= self@.take(i as int).push(self.ring@[at as int]));
            out.push(self.ring[at]);
            i += 1;
        }
        assert(self@.take(self.filled as int) =~= self@);
        out
    }
}

/// The edges with every one above the one before it: those that are not are
/// moved to just above.
pub open spec fn spread(edges: Seq<usize>) -> Seq<int>
    decreases edges.len(),
{
    if edges.len() == 0 {
        Seq::empty()
    } else {
        let before = spread(edges.drop_last());
        let edge = edges.last() as int;
        if before.len() > 0 && edge <= before.last() {
            before.push(before.last() + 1)
        } else {
            before.push(edge)
        }
    }
}

/// Spread edges rise strictly, so every band has a width, and none has moved
/// down.
pub proof fn lemma_spread_rises(edges: Seq<usize>)
    ensures
        spread(edges).len() == edges.len(),
        forall|i: int, j: int|
            0 <= i < j < edges.len() ==> #[trigger] spread(edges)[i] < #[trigger] spread(edges)[j],
        forall|i: int| 0 <= i < edges.len() ==> edges[i] <= #[trigger] spread(edges)[i],
    decreases edges.len(),
{
    if edges.len() > 0 {
        lemma_spread_rises(edges.drop_last());
        assert forall|i: int, j: int| 0 <= i < j < edges.len() implies #[trigger] spread(edges)[i]
            < #[trigger] spread(edges)[j] by {
            let before = spread(edges.drop_last());
            if j == edges.len() - 1 {
                assert(before[i] <= before.last());
            } else {
                assert(before[i] < before[j]);
            }
        }
        assert forall|i: int| 0 <= i < edges.len() implies edges[i] <= #[trigger] spread(
            edges,
        )[i] by {
            if i < edges.len() - 1 {
                assert(edges.drop_last()[i] <= spread(edges.drop_last())[i]);
            }
        }
    }
}

/// Edges that rise already stay where they are; an edge that does not rise above
/// the one before it comes to stand right above it, and no edge moves for any
/// other reason.
pub proof fn lemma_spread_moves_little(edges: Seq<usize>, edge: usize)
    ensures
        edges.len() == 0 ==> spread(edges.push(edge)) == seq![edge as int],
        edges.len() > 0 && edge > spread(edges).last() ==> spread(edges.push(edge)) == spread(
            edges,
        ).push(edge as int),
        edges.len() > 0 && edge <= spread(edges).last() ==> spread(edges.push(edge)) == spread(
            edges,
        ).push(spread(edges).last() + 1),
{
    assert(edges.push(edge).drop_last() =~= edges);
    lemma_spread_rises(edges);
    if edges.len() == 0 {
        assert(spread(edges.push(edge)) =~= seq![edge as int]);
    }
}

/// The history is the last 2048 samples: all while there are no more, in the
/// order in which they came.
pub proof fn lemma_last_of(s: Seq<Single>, sample: Single)
    ensures
        s.len() < 2048 ==> last_of(s.push(sample), 2048) == s.push(sample),
        s.len() == 2048 ==> last_of(s.push(sample), 2048) == s.skip(1).push(sample),
        FFT_SIZE == 2048,
{
    if s.len() == 2048 {
        assert(s.push(sample).skip(1) =~= s.skip(1).push(sample));
    }
}

/// Makes the band edges strictly increasing.
pub fn spread_edges(edges: &mut Vec<usize>)
    requires
        forall|i: int|
            0 <= i < old(edges)@.len() ==> #[trigger] old(edges)@[i] + old(edges)@.len()
                <= usize::MAX,
    ensures
        final(edges)@.len() == old(edges)@.len(),
        forall|i: int|
            0 <= i < old(edges)@.len() ==> #[trigger] final(edges)@[i] == spread(old(edges)@)[i],
{
    let ghost start = edges@;
    let mut i: usize = 1;
    if edges.len() == 0 {
        return;
    }
    proof {
        reveal_with_fuel(spread, 2);
        assert(start.take(1).drop_last() =~= Seq::empty());
        assert(spread(start.take(1)) =~= seq![start[0] as int]);
    }
    while i < edges.len()
        invariant
            1 <= i <= edges@.len(),
            edges@.len() == start.len(),
            forall|k: int| 0 <= k < start.len() ==> #[trigger] start[k] + start.len() <= usize::MAX,
            spread(start.take(i as int)).len() == i,
            forall|k: int| 0 <= k < i ==> #[trigger] edges@[k] == spread(start.take(i as int))[k],
            forall|k: int| i <= k < start.len() ==> #[trigger] edges@[k] == start[k],
            edges@[i - 1] + start.len() <= usize::MAX + i,
        decreases edges@.len() - i,
    {
        let ghost before = spread(start.take(i as int));
        assert(start.take(i + 1).drop_last() =~= start.take(i as int));
        assert(before.last() == edges@[i - 1]);
        if edges[i] <= edges[i - 1] {
            let raised: usize = edges[i - 1] + 1;
            edges.set(i, raised);
        }
        assert(spread(start.take(i + 1)).drop_last() =~= before);
        i += 1;
    }
    assert(start.take(start.len() as int) =~= start);
}

} // verus!
