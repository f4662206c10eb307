//! Chunks of samples: cutting a stream of bytes into chunks, and running
//! over chunks with an overlap of half a chunk.
//!
//! Both are driven by the caller, who owns the source: it hands in what it
//! read and takes out the chunks that are complete. Samples are not computed
//! with here, only moved, so a sample is any `Copy` value; raw samples are
//! 32-bit words as they lie in the stream, least significant byte first.

use vstd::prelude::*;

verus! {

/// Half of `b`, from the middle on, followed by the first half of `c`.
pub open spec fn straddle<T>(b: Seq<T>, c: Seq<T>) -> Seq<T> {
    b.skip(b.len() as int / 2) + c.take(c.len() as int / 2)
}

/// What comes out for the chunks `chunks`: each chunk, and between each
/// two the chunk that straddles them.
pub open spec fn overlapped<T>(chunks: Seq<Seq<T>>) -> Seq<Seq<T>> {
    Seq::new(
        if chunks.len() == 0 {
            0
        } else {
            (2 * chunks.len() - 1) as nat
        },
        |i: int|
            if i % 2 == 0 {
                chunks[i / 2]
            } else {
                straddle(chunks[i / 2], chunks[i / 2 + 1])
            },
    )
}

/// Where an overlapping run stands.
#[derive(Debug, Clone, Copy, PartialEq, Eq)]
pub enum Phase {
    /// Nothing was taken in yet.
    First,
    /// The chunk held was given out; the straddling chunk is next.
    Overlap,
    /// The straddling chunk was given out; the chunk held is next.
    Whole,
}

/// A run over chunks of `size` samples that gives out, between each two
/// chunks, the chunk that straddles them.
pub struct OverlappingSamplesIter<T> {
    pub size: usize,
    pub held: Vec<T>,
    pub phase: Phase,
}

impl<T: Copy> OverlappingSamplesIter<T> {
    /// The chunk held has the right size, once there is one.
    pub open spec fn is_valid(&self) -> bool {
        &&& self.size % 2 == 0
        &&& self.phase != Phase::First ==> self.held@.len() == self.size
    }

    /// Whether the next step takes a chunk in.
    pub open spec fn takes_input(&self) -> bool {
        self.phase != Phase::Whole
    }

    /// A run over chunks of `size` samples, which must be an even number.
    pub fn new(size: usize) -> (run: Self)
        requires
            size % 2 == 0,
        ensures
            run.is_valid(),
            run.size == size,
            run.phase == Phase::First,
    {
        OverlappingSamplesIter { size, held: Vec::new(), phase: Phase::First }
    }

    /// Whether the next step takes a chunk in. Where it does not, the
    /// source is left alone.
    pub fn wants_input(&self) -> (wanted: bool)
        ensures
            wanted == self.takes_input(),
    {
        match self.phase {
            Phase::Whole => false,
            _ => true,
        }
    }

    /// One step of the run. `pulled` is the next chunk of the source, or
    /// `None` where the source is at its end or the step takes no input.
    ///
    /// The first chunk comes out as it is. After that the run alternates:
    /// the chunk that straddles the chunk held and the one pulled, then the
    /// one pulled itself. At the end of the source nothing comes out.
    pub fn next(&mut self, pulled: Option<Vec<T>>) -> (chunk: Option<Vec<T>>)
        requires
            old(self).is_valid(),
            pulled matches Some(c) ==> c@.len() == old(self).size,
            !old(self).takes_input() ==> pulled is None,
        ensures
            final(self).is_valid(),
            final(self).size == old(self).size,
            match (old(self).phase, pulled) {
                (Phase::First, Some(c)) => {
                    &&& chunk matches Some(out)
                    &&& out@ == c@
                    &&& final(self).held@ == c@
                    &&& final(self).phase == Phase::Overlap
                },
                (Phase::Overlap, Some(c)) => {
                    &&& chunk matches Some(out)
                    &&& out@ == straddle(old(self).held@, c@)
                    &&& final(self).held@ == c@
                    &&& final(self).phase == Phase::Whole
                },
                (Phase::Whole, _) => {
                    &&& chunk matches Some(out)
                    &&& out@ == old(self).held@
                    &&& final(self).held@ == old(self).held@
                    &&& final(self).phase == Phase::Overlap
                },
                (_, None) => {
                    &&& chunk is None
                    &&& final(self).held@ == old(self).held@
                    &&& final(self).phase == old(self).phase
                },
            },
    {
        match self.phase {
            Phase::Whole => {
                let out = copy_of(&self.held, 0, self.held.len());
                self.phase = Phase::Overlap;
                proof {
                    assert(self.held@.subrange(0, self.held@.len() as int) =~= self.held@);
                }
                Some(out)
            },
            Phase::First => match pulled {
                None => None,
                Some(c) => {
                    let out = copy_of(&c, 0, c.len());
                    proof {
                        assert(c@.subrange(0, c@.len() as int) =~= c@);
                    }
                    self.held = c;
                    self.phase = Phase::Overlap;
                    Some(out)
                },
            },
            Phase::Overlap => match pulled {
                None => None,
                Some(c) => {
                    let half: usize = self.size / 2;
                    let mut out = copy_of(&self.held, half, self.size);
                    let mut front = copy_of(&c, 0, half);
                    out.append(&mut front);
                    proof {
                        assert(out@ =~= straddle(self.held@, c@));
                    }
                    self.held = c;
                    self.phase = Phase::Whole;
                    Some(out)
                },
            },
        }
    }
}

/// The items `items[from..to]`.
pub(crate) fn copy_of<T: Copy>(items: &Vec<T>, from: usize, to: usize) -> (copy: Vec<T>)
    requires
        from <= to <= items@.len(),
    ensures
        copy@ == items@.subrange(from as int, to as int),
{
    let mut copy: Vec<T> = Vec::new();
    let mut i: usize = from;
    while i < to
        invariant
            from <= i <= to <= items@.len(),
            copy@ == items@.subrange(from as int, i as int),
        decreases to - i,
    {
        copy.push(items[i]);
        proof {
            assert(copy@ =~= items@.subrange(from as int, i + 1));
        }
        i += 1;
    }
    copy
}

/// A run over chunks of `size` samples with an overlap of half a chunk.
pub fn make_overlap_samples<T: Copy>(size: usize) -> (run: OverlappingSamplesIter<T>)
    requires
        size % 2 == 0,
    ensures
        run.is_valid(),
        run.size == size,
        run.phase == Phase::First,
{
    OverlappingSamplesIter::new(size)
}

/// The views of `chunks`.
pub open spec fn views_of<T>(chunks: Seq<Vec<T>>) -> Seq<Seq<T>> {
    Seq::new(chunks.len(), |i: int| chunks[i]@)
}

/// All that an overlapping run gives out for the chunks `chunks`, each of
/// `size` samples: every chunk, and between each two the chunk that
/// straddles them.
pub fn overlap_all<T: Copy>(chunks: &Vec<Vec<T>>, size: usize) -> (out: Vec<Vec<T>>)
    requires
        size % 2 == 0,
        forall|i: int| 0 <= i < chunks@.len() ==> (#[trigger] chunks@[i])@.len() == size,
    ensures
        views_of(out@) == overlapped(views_of(chunks@)),
{
    let mut run: OverlappingSamplesIter<T> = make_overlap_samples(size);
    let mut out: Vec<Vec<T>> = Vec::new();
    let mut taken: usize = 0;
    let ghost all = views_of(chunks@);
    loop
        invariant
            run.is_valid(),
            run.size == size,
            size % 2 == 0,
            all == views_of(chunks@),
            forall|i: int| 0 <= i < chunks@.len() ==> (#[trigger] chunks@[i])@.len() == size,
            taken <= chunks@.len(),
            run.phase == Phase::First <==> taken == 0,
            taken > 0 ==> run.held@ == all[taken - 1],
            out@.len() == (if taken == 0 {
                0
            } else if run.phase == Phase::Whole {
                2 * taken - 2
            } else {
                2 * taken - 1
            }),
            forall|i: int| 0 <= i < out@.len() ==> (#[trigger] out@[i])@ == overlapped(all)[i],
        ensures
            taken == chunks@.len(),
            run.phase != Phase::Whole,
        decreases 2 * (chunks@.len() - taken) + (if run.phase == Phase::Whole {
            1int
        } else {
            0int
        }),
    {
        let pulled = if run.wants_input() {
            if taken < chunks.len() {
                let c = copy_of(&chunks[taken], 0, chunks[taken].len());
                proof {
                    assert(c@ =~= all[taken as int]);
                }
                taken += 1;
                Some(c)
            } else {
                None
            }
        } else {
            None
        };
        match run.next(pulled) {
            Some(chunk) => {
                out.push(chunk);
            },
            None => {
                break ;
            },
        }
    }
    proof {
        assert(views_of(out@) =~= overlapped(all));
    }
    out
}

/// The word whose bytes are `b0`, `b1`, `b2`, `b3`, least significant first.
pub open spec fn word_of_le(b0: u8, b1: u8, b2: u8, b3: u8) -> u32 {
    (b0 as u32) | (b1 as u32) << 8 | (b2 as u32) << 16 | (b3 as u32) << 24
}

/// The byte of `bytes` at `i`, and `0` behind their end.
pub open spec fn byte_or_zero(bytes: Seq<u8>, i: int) -> u8 {
    if 0 <= i < bytes.len() {
        bytes[i]
    } else {
        0
    }
}

/// The `count` raw samples that `bytes` hold, four bytes to a sample, the
/// bytes that are missing at the end taken as `0`.
pub open spec fn raw_samples(bytes: Seq<u8>, count: nat) -> Seq<u32> {
    Seq::new(
        count,
        |k: int|
            word_of_le(
                byte_or_zero(bytes, 4 * k),
                byte_or_zero(bytes, 4 * k + 1),
                byte_or_zero(bytes, 4 * k + 2),
                byte_or_zero(bytes, 4 * k + 3),
            ),
    )
}

/// Gathers the bytes of a stream into chunks of `count` raw samples.
pub struct SampleChunker {
    /// Samples in a chunk.
    pub count: usize,
    /// The bytes of the chunk that is being gathered.
    pub pending: Vec<u8>,
}

impl SampleChunker {
    /// The bytes gathered do not fill a chunk.
    pub open spec fn is_valid(&self) -> bool {
        &&& 4 * self.count <= usize::MAX
        &&& self.count > 0
        &&& self.pending@.len() < 4 * self.count
    }

    /// A chunker for chunks of `count` samples.
    pub fn new(count: usize) -> (chunker: Self)
        requires
            0 < count,
            4 * count <= usize::MAX,
        ensures
            chunker.is_valid(),
            chunker.count == count,
            chunker.pending@.len() == 0,
    {
        SampleChunker { count, pending: Vec::new() }
    }

    /// How many bytes the chunk being gathered still takes; never `0`.
    pub fn room(&self) -> (n: usize)
        requires
            self.is_valid(),
        ensures
            n == 4 * self.count - self.pending@.len(),
            n > 0,
    {
        4 * self.count - self.pending.len()
    }

    /// Takes in bytes that were read, no more than there is room for. Where
    /// they complete the chunk, the chunk comes out.
    pub fn feed(&mut self, bytes: &[u8]) -> (chunk: Option<Vec<u32>>)
        requires
            old(self).is_valid(),
            bytes@.len() <= 4 * old(self).count - old(self).pending@.len(),
        ensures
            final(self).is_valid(),
            final(self).count == old(self).count,
            if old(self).pending@.len() + bytes@.len() == 4 * old(self).count {
                &&& chunk matches Some(samples)
                &&& samples@ == raw_samples(old(self).pending@ + bytes@, old(self).count as nat)
                &&& final(self).pending@.len() == 0
            } else {
                &&& chunk is None
                &&& final(self).pending@ == old(self).pending@ + bytes@
            },
    {
        let mut i: usize = 0;
        while i < bytes.len()
            invariant
                i <= bytes@.len(),
                self.count == old(self).count,
                4 * self.count <= usize::MAX,
                self.count > 0,
                bytes@.len() <= 4 * old(self).count - old(self).pending@.len(),
                self.pending@ == old(self).pending@ + bytes@.take(i as int),
            decreases bytes@.len() - i,
        {
            self.pending.push(bytes[i]);
            proof {
                assert(bytes@.take(i + 1) =~= bytes@.take(i as int).push(bytes@[i as int]));
                assert(self.pending@ =~= old(self).pending@ + bytes@.take(i + 1));
            }
            i += 1;
        }
        proof {
            assert(bytes@.take(i as int) =~= bytes@);
        }
        if self.pending.len() == 4 * self.count {
            let samples = samples_of(&self.pending, self.count);
            self.pending = Vec::new();
            Some(samples)
        } else {
            None
        }
    }

    /// The end of the stream: what was gathered comes out as a last chunk,
    /// filled up with zero bytes; nothing comes out where nothing was
    /// gathered.
    pub fn finish(&mut self) -> (chunk: Option<Vec<u32>>)
        requires
            old(self).is_valid(),
        ensures
            final(self).is_valid(),
            final(self).count == old(self).count,
            final(self).pending@.len() == 0,
            if old(self).pending@.len() == 0 {
                chunk is None
            } else {
                &&& chunk matches Some(samples)
                &&& samples@ == raw_samples(old(self).pending@, old(self).count as nat)
            },
    {
        if self.pending.len() == 0 {
            None
        } else {
            let samples = samples_of(&self.pending, self.count);
            self.pending = Vec::new();
            Some(samples)
        }
    }
}

/// The `count` raw samples that `bytes` hold, missing bytes taken as `0`.
pub fn samples_of(bytes: &Vec<u8>, count: usize) -> (samples: Vec<u32>)
    requires
        4 * count <= usize::MAX,
    ensures
        samples@ == raw_samples(bytes@, count as nat),
{
    let mut samples: Vec<u32> = Vec::new();
    let mut k: usize = 0;
    while k < count
        invariant
            k <= count,
            4 * count <= usize::MAX,
            samples@ == raw_samples(bytes@, k as nat),
        decreases count - k,
    {
        let b0 = byte_at(bytes, 4 * k);
        let b1 = byte_at(bytes, 4 * k + 1);
        let b2 = byte_at(bytes, 4 * k + 2);
        let b3 = byte_at(bytes, 4 * k + 3);
        samples.push((b0 as u32) | (b1 as u32) << 8 | (b2 as u32) << 16 | (b3 as u32) << 24);
        proof {
            assert(samples@ =~= raw_samples(bytes@, (k + 1) as nat));
        }
        k += 1;
    }
    samples
}

/// The byte of `bytes` at `i`, and `0` behind their end.
fn byte_at(bytes: &Vec<u8>, i: usize) -> (b: u8)
    ensures
        b == byte_or_zero(bytes@, i as int),
{
    if i < bytes.len() {
        bytes[i]
    } else {
        0
    }
}

} // verus!
