//! Bytes that wait to be written, and how large a read buffer should be.
//!
//! Bytes that a socket does not take at once wait in two queues, one of which
//! goes first. Where too many wait the owner is told: once at a threshold and
//! again at each doubling of it, until the queues are empty. Read buffers grow
//! with the traffic and shrink with it.

use std::collections::VecDeque;
use vstd::prelude::*;

verus! {

/// Bytes to write, some of which may be through. A datagram knows where it
/// goes.
#[derive(Debug)]
pub struct Chunk {
    pub data: Vec<u8>,
    pub offset: usize,
    pub to: Option<String>,
}

/// What a [`Chunk`] says: the bytes that are left, and where they go.
#[verifier::ext_equal]
pub struct ChunkView {
    pub rest: Seq<u8>,
    pub to: Option<Seq<char>>,
}

impl View for Chunk {
    type V = ChunkView;

    open spec fn view(&self) -> ChunkView {
        ChunkView {
            rest: self.data@.skip(self.offset as int),
            to: match self.to {
                None => None,
                Some(to) => Some(to@),
            },
        }
    }
}

impl Chunk {
    /// No more bytes are through than there are.
    pub open spec fn wf(&self) -> bool {
        self.offset <= self.data@.len()
    }

    /// Bytes of a stream.
    pub fn tcp(data: Vec<u8>) -> (chunk: Chunk)
        ensures
            chunk.wf(),
            chunk@ == (ChunkView { rest: data@, to: None }),
    {
        let chunk = Chunk { data, offset: 0, to: None };
        assert(chunk@.rest =~= data@);
        chunk
    }

    /// A datagram.
    pub fn udp(data: Vec<u8>, to: String) -> (chunk: Chunk)
        ensures
            chunk.wf(),
            chunk@ == (ChunkView { rest: data@, to: Some(to@) }),
    {
        let chunk = Chunk { data, offset: 0, to: Some(to) };
        assert(chunk@.rest =~= data@);
        chunk
    }

    /// The bytes that are left.
    pub fn rest(&self) -> (rest: &[u8])
        requires
            self.wf(),
        ensures
            rest@ == self@.rest,
    {
        vstd::slice::slice_subrange(self.data.as_slice(), self.offset, self.data.len())
    }

    /// Where a datagram goes.
    pub fn to(&self) -> (to: Option<String>)
        ensures
            match to {
                None => self@.to is None,
                Some(to) => self@.to == Some(to@),
            },
    {
        match &self.to {
            None => None,
            Some(to) => Some(to.clone()),
        }
    }
}

/// Bytes in a list of chunks.
pub open spec fn total(chunks: Seq<ChunkView>) -> int
    decreases chunks.len(),
{
    if chunks.len() == 0 {
        0
    } else {
        total(chunks.drop_last()) + chunks.last().rest.len()
    }
}

proof fn lemma_total_first(chunks: Seq<ChunkView>)
    requires
        chunks.len() > 0,
    ensures
        total(chunks) == chunks[0].rest.len() + total(chunks.drop_first()),
    decreases chunks.len(),
{
    if chunks.len() > 1 {
        lemma_total_first(chunks.drop_last());
        assert(chunks.drop_first().drop_last() =~= chunks.drop_last().drop_first());
    } else {
        assert(chunks.drop_first() =~= Seq::empty());
        assert(chunks.drop_last() =~= Seq::empty());
    }
}

proof fn lemma_total_one(chunk: ChunkView)
    ensures
        total(seq![chunk]) == chunk.rest.len(),
{
    assert(seq![chunk].drop_last() =~= Seq::empty());
    assert(total(Seq::<ChunkView>::empty()) == 0);
}

proof fn lemma_total_nonneg(chunks: Seq<ChunkView>)
    ensures
        total(chunks) >= 0,
    decreases chunks.len(),
{
    if chunks.len() > 0 {
        lemma_total_nonneg(chunks.drop_last());
    }
}

/// Bytes that wait to be written. Those in `high` go before those in `low`.
#[derive(Debug)]
pub struct WriteQueue {
    pub high: VecDeque<Chunk>,
    pub low: VecDeque<Chunk>,
    /// Bytes in both queues.
    pub size: usize,
    /// The owner is told next when so many bytes wait; zero before the first
    /// time.
    pub warn_at: usize,
}

/// What a [`WriteQueue`] says.
#[verifier::ext_equal]
pub struct QueueView {
    pub high: Seq<ChunkView>,
    pub low: Seq<ChunkView>,
    pub warn_at: usize,
}

/// Twice a number, or the largest one.
pub open spec fn doubled(size: usize) -> usize {
    if size > usize::MAX / 2 {
        usize::MAX
    } else {
        (size * 2) as usize
    }
}

/// Twice a number, or the largest one.
pub fn double(size: usize) -> (twice: usize)
    ensures
        twice == doubled(size),
{
    if size > usize::MAX / 2 {
        usize::MAX
    } else {
        size * 2
    }
}

impl QueueView {
    /// Nothing waits.
    pub open spec fn empty() -> QueueView {
        QueueView { high: Seq::empty(), low: Seq::empty(), warn_at: 0 }
    }

    /// Bytes that wait.
    pub open spec fn size(self) -> int {
        total(self.high) + total(self.low)
    }

    /// Nothing waits.
    pub open spec fn is_empty(self) -> bool {
        self.high.len() == 0 && self.low.len() == 0
    }

    /// A chunk more, and the kilobytes to tell the owner of, if it is time.
    pub open spec fn push(self, chunk: ChunkView, high: bool, threshold: usize) -> (
        QueueView,
        Option<usize>,
    ) {
        let queued = if high {
            QueueView { high: self.high.push(chunk), ..self }
        } else {
            QueueView { low: self.low.push(chunk), ..self }
        };
        let size = self.size() + chunk.rest.len();
        if size < threshold || size < self.warn_at {
            (queued, None)
        } else {
            (
                QueueView {
                    warn_at: if self.warn_at == 0 {
                        doubled(threshold)
                    } else {
                        doubled(self.warn_at)
                    },
                    ..queued
                },
                Some((size / 1024) as usize),
            )
        }
    }

    /// With the next chunk to write in front of the first queue: where that
    /// one is empty, one chunk moves up from the other.
    pub open spec fn raised(self) -> QueueView {
        if self.high.len() == 0 && self.low.len() > 0 {
            QueueView { high: seq![self.low[0]], low: self.low.drop_first(), ..self }
        } else {
            self
        }
    }

    /// With the first `written` bytes of the chunk in front through. A chunk
    /// that is through leaves; when none is left the next pile is told of
    /// from the start again.
    pub open spec fn consumed(self, written: int) -> QueueView {
        let front = self.high[0];
        let high = if written >= front.rest.len() {
            self.high.drop_first()
        } else {
            self.high.update(0, ChunkView { rest: front.rest.skip(written), ..front })
        };
        QueueView {
            high,
            warn_at: if high.len() == 0 && self.low.len() == 0 {
                0
            } else {
                self.warn_at
            },
            ..self
        }
    }
}

impl View for WriteQueue {
    type V = QueueView;

    open spec fn view(&self) -> QueueView {
        QueueView {
            high: self.high@.map_values(|c: Chunk| c@),
            low: self.low@.map_values(|c: Chunk| c@),
            warn_at: self.warn_at,
        }
    }
}

impl Default for WriteQueue {
    /// Nothing waits.
    fn default() -> (queue: WriteQueue)
        ensures
            queue.wf(),
            queue@ == QueueView::empty(),
    {
        let queue = WriteQueue {
            high: VecDeque::new(),
            low: VecDeque::new(),
            size: 0,
            warn_at: 0,
        };
        assert(queue@ =~= QueueView::empty());
        queue
    }
}

impl WriteQueue {
    /// The count is that of the bytes in the queues.
    pub open spec fn wf(&self) -> bool {
        &&& self.size == self@.size()
        &&& forall|i: int| 0 <= i < self.high@.len() ==> (#[trigger] self.high@[i]).wf()
        &&& forall|i: int| 0 <= i < self.low@.len() ==> (#[trigger] self.low@[i]).wf()
    }

    /// Adds a chunk. Where it is time to tell the owner, the kilobytes that
    /// wait are returned.
    pub fn push(&mut self, chunk: Chunk, high: bool, threshold: usize) -> (warning: Option<usize>)
        requires
            old(self).wf(),
            chunk.wf(),
            old(self).size + chunk@.rest.len() <= usize::MAX,
        ensures
            final(self).wf(),
            (final(self)@, warning) == old(self)@.push(chunk@, high, threshold),
    {
        let length: usize = chunk.data.len() - chunk.offset;
        let ghost before = self@;
        let ghost new = chunk@;
        self.size = self.size + length;
        if high {
            self.high.push_back(chunk);
            proof {
                assert(self@.high =~= before.high.push(new));
                assert(before.high.push(new).drop_last() =~= before.high);
            }
        } else {
            self.low.push_back(chunk);
            proof {
                assert(self@.low =~= before.low.push(new));
                assert(before.low.push(new).drop_last() =~= before.low);
            }
        }
        if self.size < threshold || self.size < self.warn_at {
            return None;
        }
        self.warn_at = if self.warn_at == 0 {
            double(threshold)
        } else {
            double(self.warn_at)
        };
        Some(self.size / 1024)
    }

    /// Brings the next chunk to write to the front and returns it.
    pub fn next(&mut self) -> (next: Option<&Chunk>)
        requires
            old(self).wf(),
        ensures
            final(self).wf(),
            final(self)@ == old(self)@.raised(),
            final(self).size == old(self).size,
            match next {
                None => old(self)@.is_empty(),
                Some(chunk) => !old(self)@.is_empty() && chunk@ == old(self)@.raised().high[0]
                    && chunk.wf(),
            },
    {
        let ghost before = self@;
        if self.high.len() == 0 {
            if let Some(chunk) = self.low.pop_front() {
                self.high.push_back(chunk);
                proof {
                    lemma_total_first(before.low);
                    assert(self@.low =~= before.low.drop_first());
                    assert(self@.high =~= seq![before.low[0]]);
                    lemma_total_one(before.low[0]);
                }
            }
        }
        assert(self@ =~= before.raised());
        if self.high.len() == 0 {
            return None;
        }
        assert(self.high@[0]@ == self@.high[0]);
        Some(&self.high[0])
    }

    /// Notes that so many bytes of the chunk in front are through.
    pub fn consume(&mut self, written: usize)
        requires
            old(self).wf(),
            old(self)@.high.len() > 0,
            written <= old(self)@.high[0].rest.len(),
        ensures
            final(self).wf(),
            final(self)@ == old(self)@.consumed(written as int),
    {
        let ghost before = self@;
        proof {
            lemma_total_first(before.high);
            lemma_total_nonneg(before.high.drop_first());
            lemma_total_nonneg(before.low);
        }
        if let Some(chunk) = self.high.pop_front() {
            let mut chunk = chunk;
            assert(chunk@ == before.high[0]);
            assert(self@.high =~= before.high.drop_first());
            self.size = self.size - written;
            let left: usize = chunk.data.len() - chunk.offset;
            if written < left {
                chunk.offset = chunk.offset + written;
                let ghost left = chunk@;
                self.high.push_front(chunk);
                proof {
                    assert(left.rest =~= before.high[0].rest.skip(written as int));
                    assert(self@.high =~= before.high.update(0, left));
                    lemma_total_first(self@.high);
                    assert(self@.high.drop_first() =~= before.high.drop_first());
                }
            }
        }
        if self.is_empty() {
            self.warn_at = 0;
        }
        assert(self@ =~= before.consumed(written as int));
    }

    /// Nothing waits.
    pub fn is_empty(&self) -> (empty: bool)
        ensures
            empty == self@.is_empty(),
    {
        self.high.len() == 0 && self.low.len() == 0
    }

    /// Bytes that wait.
    pub fn size(&self) -> (size: usize)
        requires
            self.wf(),
        ensures
            size == self@.size(),
    {
        self.size
    }
}

/// How large the next read buffer should be.
#[derive(Debug, Clone, Copy, PartialEq, Eq, Structural)]
pub struct ReadSizer {
    pub size: usize,
    /// The size it starts with and does not fall below.
    pub floor: usize,
}

impl ReadSizer {
    /// Starts at the floor.
    pub fn new(floor: usize) -> (sizer: ReadSizer)
        ensures
            sizer == (ReadSizer { size: floor, floor }),
    {
        ReadSizer { size: floor, floor }
    }

    /// The size of the next read buffer.
    pub fn size(&self) -> (size: usize)
        ensures
            size == self.size,
    {
        self.size
    }

    /// A full buffer doubles the next one, one filled to less than half halves
    /// it where it is above the floor.
    pub open spec fn observed(self, read: usize) -> ReadSizer {
        if read == self.size {
            ReadSizer { size: doubled(self.size), ..self }
        } else if self.size > self.floor && read * 2 < self.size {
            ReadSizer { size: self.size / 2, ..self }
        } else {
            self
        }
    }

    /// Notes that so many bytes were read.
    pub fn observe(&mut self, read: usize)
        ensures
            *final(self) == old(self).observed(read),
    {
        if read == self.size {
            self.size = double(self.size);
        } else if self.size > self.floor && (read as u128) * 2 < self.size as u128 {
            self.size = self.size / 2;
        }
    }
}

/// A power of two.
pub open spec fn doublings(floor: int, times: nat) -> int
    decreases times,
{
    if times == 0 {
        floor
    } else {
        doublings(floor, (times - 1) as nat) * 2
    }
}

/// The size is the floor doubled some number of times.
pub open spec fn in_step(sizer: ReadSizer) -> bool {
    exists|times: nat| sizer.size == #[trigger] doublings(sizer.floor as int, times)
}

/// A read buffer that starts at its floor never falls below it: as long as
/// doubling fits the machine, its size is always the floor doubled some number
/// of times.
pub proof fn law_read_buffer_keeps_its_floor(sizer: ReadSizer, read: usize)
    requires
        sizer.floor > 0,
        in_step(sizer),
        sizer.size <= usize::MAX / 2,
    ensures
        in_step(sizer.observed(read)),
        sizer.observed(read).floor == sizer.floor,
        sizer.observed(read).size >= sizer.floor,
{
    let times = choose|times: nat| sizer.size == #[trigger] doublings(sizer.floor as int, times);
    let next = sizer.observed(read);
    lemma_doublings_grow(sizer.floor as int, times);
    if next.size == sizer.size * 2 {
        assert(next.size == doublings(next.floor as int, times + 1));
        lemma_doublings_grow(sizer.floor as int, times + 1);
    } else if next.size == sizer.size {
        assert(next.size == doublings(next.floor as int, times));
    } else {
        assert(times > 0);
        assert(next.size == doublings(next.floor as int, (times - 1) as nat));
        lemma_doublings_grow(sizer.floor as int, (times - 1) as nat);
    }
}

proof fn lemma_doublings_grow(floor: int, times: nat)
    requires
        floor > 0,
    ensures
        doublings(floor, times) >= floor,
    decreases times,
{
    if times > 0 {
        lemma_doublings_grow(floor, (times - 1) as nat);
    }
}

/// The order in which bytes leave: those of the first queue, then those of the
/// second.
pub open spec fn leaving(queue: QueueView) -> Seq<ChunkView> {
    queue.high + queue.low
}

/// Bringing the next chunk to the front changes neither what waits nor its
/// order.
pub proof fn law_raising_keeps_the_order(queue: QueueView)
    ensures
        leaving(queue.raised()) == leaving(queue),
        queue.raised().size() == queue.size(),
{
    if queue.high.len() == 0 && queue.low.len() > 0 {
        assert(leaving(queue.raised()) =~= leaving(queue));
        lemma_total_first(queue.low);
        lemma_total_one(queue.low[0]);
    }
}

/// Writing takes exactly the written bytes off what waits.
pub proof fn law_writing_takes_what_was_written(queue: QueueView, written: int)
    requires
        queue.high.len() > 0,
        0 <= written <= queue.high[0].rest.len(),
    ensures
        queue.consumed(written).size() == queue.size() - written,
{
    lemma_total_first(queue.high);
    let after = queue.consumed(written);
    if written < queue.high[0].rest.len() {
        lemma_total_first(after.high);
        assert(after.high.drop_first() =~= queue.high.drop_first());
    }
}

} // verus!
