//! Batching and chunking of outgoing writes.
//!
//! A connection's write loop encodes each outgoing message and hands the
//! bytes to a [`WriteBatcher`], which answers with the writes and flushes to
//! perform.  Messages up to [`MAX_CHUNK_SIZE`] bytes are collected and
//! written together; a larger one is written at once, in pieces of at most
//! [`MAX_CHUNK_SIZE`] bytes each followed by a flush, after whatever was
//! collected before it.
use crate::chunks::{
    chunk_bounds,
    chunk_ranges,
    concat,
    lemma_chunk_ranges_shape,
    lemma_chunks_cover,
    lemma_concat_append,
    lemma_concat_push,
    ranges_view,
    slices,
};
use vstd::prelude::*;

verus! {

/// Largest message written in one piece, and the size of the pieces a larger
/// message is cut into: 64 KiB.
pub const MAX_CHUNK_SIZE: usize = 65536;

/// Once this many messages are collected, the write loop stops collecting and
/// writes them.
pub const MAX_BATCH_LEN: usize = 10;

/// A batch is flushed when at least this many milliseconds have passed since
/// the last flush.
pub const FLUSH_INTERVAL_MS: u128 = 50;

/// Milliseconds the write loop waits for a message before it writes and
/// flushes what it has collected.
pub const BATCH_WAIT_MS: u64 = 5;

/// Seconds a single write or flush may take.
pub const WRITE_TIMEOUT_SECS: u64 = 5;

/// One operation on the socket.
#[derive(Debug)]
pub enum WriteOp {
    Write(Vec<u8>),
    Flush,
}

/// A socket operation in spec terms.
pub enum WriteStep {
    Write(Seq<u8>),
    Flush,
}

pub open spec fn step_of(op: WriteOp) -> WriteStep {
    match op {
        WriteOp::Write(b) => WriteStep::Write(b@),
        WriteOp::Flush => WriteStep::Flush,
    }
}

pub open spec fn steps_of(ops: Seq<WriteOp>) -> Seq<WriteStep> {
    ops.map_values(|op: WriteOp| step_of(op))
}

/// The bytes that `steps` put on the wire, in order.
pub open spec fn written(steps: Seq<WriteStep>) -> Seq<u8>
    decreases steps.len(),
{
    if steps.len() == 0 {
        Seq::empty()
    } else {
        let head = match steps[0] {
            WriteStep::Write(b) => b,
            WriteStep::Flush => Seq::empty(),
        };
        head + written(steps.drop_first())
    }
}

pub proof fn lemma_written_append(a: Seq<WriteStep>, b: Seq<WriteStep>)
    ensures
        written(a + b) == written(a) + written(b),
    decreases a.len(),
{
    if a.len() == 0 {
        assert(a + b =~= b);
        assert(written(a) + written(b) =~= written(b));
    } else {
        assert((a + b).drop_first() =~= a.drop_first() + b);
        assert((a + b)[0] == a[0]);
        lemma_written_append(a.drop_first(), b);
        assert(written(a + b) =~= written(a) + written(b));
    }
}

proof fn lemma_written_one(x: Seq<u8>)
    ensures
        written(seq![WriteStep::Write(x)]) == x,
        written(seq![WriteStep::Flush]) == Seq::<u8>::empty(),
{
    assert(seq![WriteStep::Write(x)].drop_first() =~= Seq::<WriteStep>::empty());
    assert(seq![WriteStep::Flush].drop_first() =~= Seq::<WriteStep>::empty());
    assert(written(Seq::<WriteStep>::empty()) == Seq::<u8>::empty());
    assert(written(seq![WriteStep::Write(x)]) =~= x);
    assert(written(seq![WriteStep::Flush]) =~= Seq::<u8>::empty());
}

/// Every write in `steps` carries at most [`MAX_CHUNK_SIZE`] bytes.
pub open spec fn writes_bounded(steps: Seq<WriteStep>) -> bool {
    forall|i: int|
        0 <= i < steps.len() ==> (#[trigger] steps[i] matches WriteStep::Write(b) ==> b.len()
            <= MAX_CHUNK_SIZE)
}

/// A write followed by a flush for each range of `data`.
pub open spec fn chunk_steps(data: Seq<u8>, ranges: Seq<(nat, nat)>) -> Seq<WriteStep>
    decreases ranges.len(),
{
    if ranges.len() == 0 {
        Seq::empty()
    } else {
        seq![
            WriteStep::Write(data.subrange(ranges[0].0 as int, ranges[0].1 as int)),
            WriteStep::Flush,
        ] + chunk_steps(data, ranges.drop_first())
    }
}

/// How a message larger than [`MAX_CHUNK_SIZE`] goes out: piece by piece,
/// each piece flushed.
pub open spec fn large_steps(data: Seq<u8>) -> Seq<WriteStep> {
    chunk_steps(data, chunk_ranges(0, data.len(), MAX_CHUNK_SIZE as nat))
}

/// One write for each collected message.
pub open spec fn pending_steps(p: Seq<Seq<u8>>) -> Seq<WriteStep> {
    p.map_values(|b: Seq<u8>| WriteStep::Write(b))
}

/// The collected messages written and flushed, if there are any.
pub open spec fn flush_pending_steps(p: Seq<Seq<u8>>) -> Seq<WriteStep> {
    if p.len() > 0 {
        pending_steps(p).push(WriteStep::Flush)
    } else {
        Seq::empty()
    }
}

/// The operations and the new collection when `data` arrives.
pub open spec fn accept_spec(p: Seq<Seq<u8>>, data: Seq<u8>) -> (Seq<WriteStep>, Seq<Seq<u8>>) {
    if data.len() > MAX_CHUNK_SIZE {
        (flush_pending_steps(p) + large_steps(data), Seq::empty())
    } else {
        (Seq::empty(), p.push(data))
    }
}

/// A collection holds only messages small enough to be written in one piece.
pub open spec fn pending_ok(p: Seq<Seq<u8>>) -> bool {
    forall|i: int| 0 <= i < p.len() ==> (#[trigger] p[i]).len() <= MAX_CHUNK_SIZE
}

proof fn lemma_chunk_steps_written(data: Seq<u8>, ranges: Seq<(nat, nat)>)
    ensures
        written(chunk_steps(data, ranges)) == concat(slices(data, ranges)),
    decreases ranges.len(),
{
    if ranges.len() > 0 {
        let head = seq![
            WriteStep::Write(data.subrange(ranges[0].0 as int, ranges[0].1 as int)),
            WriteStep::Flush,
        ];
        let x = data.subrange(ranges[0].0 as int, ranges[0].1 as int);
        lemma_written_append(head, chunk_steps(data, ranges.drop_first()));
        lemma_chunk_steps_written(data, ranges.drop_first());
        lemma_written_one(x);
        assert(head =~= seq![WriteStep::Write(x)] + seq![WriteStep::Flush]);
        lemma_written_append(seq![WriteStep::Write(x)], seq![WriteStep::Flush]);
        assert(written(head) =~= x);
        assert(slices(data, ranges).drop_first() =~= slices(data, ranges.drop_first()));
    } else {
        assert(slices(data, ranges) =~= Seq::<Seq<u8>>::empty());
    }
}

proof fn lemma_chunk_steps_bounded(data: Seq<u8>, ranges: Seq<(nat, nat)>)
    requires
        forall|i: int|
            0 <= i < ranges.len() ==> (#[trigger] ranges[i]).1 - ranges[i].0 <= MAX_CHUNK_SIZE
                && ranges[i].0 <= ranges[i].1 <= data.len(),
    ensures
        writes_bounded(chunk_steps(data, ranges)),
    decreases ranges.len(),
{
    if ranges.len() > 0 {
        let rest = ranges.drop_first();
        assert forall|i: int| 0 <= i < rest.len() implies (#[trigger] rest[i]).1 - rest[i].0
            <= MAX_CHUNK_SIZE && rest[i].0 <= rest[i].1 <= data.len() by {
            assert(rest[i] == ranges[i + 1]);
        }
        lemma_chunk_steps_bounded(data, rest);
        let all = chunk_steps(data, ranges);
        let tail = chunk_steps(data, rest);
        assert(ranges[0].1 - ranges[0].0 <= MAX_CHUNK_SIZE);
        assert forall|i: int| 0 <= i < all.len() implies (#[trigger] all[i] matches WriteStep::Write(
            b,
        ) ==> b.len() <= MAX_CHUNK_SIZE) by {
            if i >= 2 {
                assert(all[i] == tail[i - 2]);
            }
        }
    }
}

/// A large message's pieces put back together give the message, and none
/// is longer than [`MAX_CHUNK_SIZE`].
pub proof fn lemma_large_steps(data: Seq<u8>)
    ensures
        written(large_steps(data)) == data,
        writes_bounded(large_steps(data)),
{
    let ranges = chunk_ranges(0, data.len(), MAX_CHUNK_SIZE as nat);
    lemma_chunk_steps_written(data, ranges);
    lemma_chunks_cover(data, 0, MAX_CHUNK_SIZE as nat);
    assert(data.subrange(0, data.len() as int) =~= data);
    lemma_chunk_ranges_shape(0, data.len(), MAX_CHUNK_SIZE as nat);
    lemma_chunk_steps_bounded(data, ranges);
}

proof fn lemma_pending_steps(p: Seq<Seq<u8>>)
    ensures
        written(pending_steps(p)) == concat(p),
        pending_ok(p) ==> writes_bounded(pending_steps(p)),
    decreases p.len(),
{
    if p.len() > 0 {
        assert(pending_steps(p).drop_first() =~= pending_steps(p.drop_first()));
        lemma_pending_steps(p.drop_first());
    } else {
        assert(pending_steps(p) =~= Seq::<WriteStep>::empty());
    }
}

proof fn lemma_flush_pending_steps(p: Seq<Seq<u8>>)
    ensures
        written(flush_pending_steps(p)) == concat(p),
        pending_ok(p) ==> writes_bounded(flush_pending_steps(p)),
{
    lemma_pending_steps(p);
    if p.len() > 0 {
        lemma_written_append(pending_steps(p), seq![WriteStep::Flush]);
        assert(pending_steps(p).push(WriteStep::Flush) =~= pending_steps(p) + seq![
            WriteStep::Flush,
        ]);
        lemma_written_one(Seq::empty());
        assert(written(flush_pending_steps(p)) =~= concat(p));
    } else {
        assert(p =~= Seq::<Seq<u8>>::empty());
    }
}

/// Accepting a message loses, repeats and reorders nothing: what it writes,
/// followed by what stays collected, is what was collected followed by the
/// message; and no write is longer than [`MAX_CHUNK_SIZE`].
pub proof fn lemma_accept_conserves(p: Seq<Seq<u8>>, data: Seq<u8>)
    requires
        pending_ok(p),
    ensures
        written(accept_spec(p, data).0) + concat(accept_spec(p, data).1) == concat(p) + data,
        writes_bounded(accept_spec(p, data).0),
        pending_ok(accept_spec(p, data).1),
{
    if data.len() > MAX_CHUNK_SIZE {
        lemma_flush_pending_steps(p);
        lemma_large_steps(data);
        lemma_written_append(flush_pending_steps(p), large_steps(data));
        let steps = flush_pending_steps(p) + large_steps(data);
        assert(concat(Seq::<Seq<u8>>::empty()) == Seq::<u8>::empty());
        assert(written(steps) + Seq::<u8>::empty() =~= written(steps));
        assert forall|i: int| 0 <= i < steps.len() implies (#[trigger] steps[i] matches WriteStep::Write(
            b,
        ) ==> b.len() <= MAX_CHUNK_SIZE) by {
            if i >= flush_pending_steps(p).len() {
                assert(steps[i] == large_steps(data)[i - flush_pending_steps(p).len()]);
            } else {
                assert(steps[i] == flush_pending_steps(p)[i]);
            }
        }
    } else {
        lemma_concat_push(p, data);
        assert(written(Seq::<WriteStep>::empty()) == Seq::<u8>::empty());
        assert(Seq::<u8>::empty() + concat(p.push(data)) =~= concat(p) + data);
        assert forall|i: int| 0 <= i < p.push(data).len() implies (#[trigger] p.push(data)[i]).len()
            <= MAX_CHUNK_SIZE by {
            if i < p.len() {
                assert(p.push(data)[i] == p[i]);
            }
        }
    }
}

/// One command the write loop gives its batcher.
pub enum WriterCommand {
    /// An encoded message arrived.
    Accept(Seq<u8>),
    /// The loop stopped collecting; write what is collected.
    Finish,
    /// No message arrived in time; write and flush what is collected.
    Idle,
}

/// The operations a batcher answers `cmds` with, and what it holds after.
pub open spec fn run_writer(p: Seq<Seq<u8>>, cmds: Seq<WriterCommand>) -> (Seq<WriteStep>, Seq<Seq<u8>>)
    decreases cmds.len(),
{
    if cmds.len() == 0 {
        (Seq::empty(), p)
    } else {
        let (steps, np) = match cmds[0] {
            WriterCommand::Accept(d) => accept_spec(p, d),
            WriterCommand::Finish => (pending_steps(p), Seq::empty()),
            WriterCommand::Idle => (flush_pending_steps(p), Seq::empty()),
        };
        let (more, fp) = run_writer(np, cmds.drop_first());
        (steps + more, fp)
    }
}

/// The messages that `cmds` hand over, in order.
pub open spec fn accepted(cmds: Seq<WriterCommand>) -> Seq<Seq<u8>>
    decreases cmds.len(),
{
    if cmds.len() == 0 {
        Seq::empty()
    } else {
        match cmds[0] {
            WriterCommand::Accept(d) => seq![d] + accepted(cmds.drop_first()),
            _ => accepted(cmds.drop_first()),
        }
    }
}

/// Over any run of the write loop, the bytes put on the wire, followed by
/// the messages still collected, are exactly the messages handed over, in
/// the order they were handed over; and no single write exceeds
/// [`MAX_CHUNK_SIZE`] bytes.
pub proof fn lemma_writes_preserve_order(p: Seq<Seq<u8>>, cmds: Seq<WriterCommand>)
    requires
        pending_ok(p),
    ensures
        written(run_writer(p, cmds).0) + concat(run_writer(p, cmds).1) == concat(p) + concat(
            accepted(cmds),
        ),
        writes_bounded(run_writer(p, cmds).0),
    decreases cmds.len(),
{
    if cmds.len() == 0 {
        assert(concat(accepted(cmds)) == Seq::<u8>::empty());
        assert(written(Seq::<WriteStep>::empty()) == Seq::<u8>::empty());
        assert(Seq::<u8>::empty() + concat(p) =~= concat(p) + Seq::<u8>::empty());
    } else {
        let rest = cmds.drop_first();
        let (steps, np) = match cmds[0] {
            WriterCommand::Accept(d) => accept_spec(p, d),
            WriterCommand::Finish => (pending_steps(p), Seq::empty()),
            WriterCommand::Idle => (flush_pending_steps(p), Seq::empty()),
        };
        let head: Seq<u8> = match cmds[0] {
            WriterCommand::Accept(d) => d,
            _ => Seq::empty(),
        };
        match cmds[0] {
            WriterCommand::Accept(d) => {
                lemma_accept_conserves(p, d);
                lemma_concat_append(seq![d], accepted(rest));
                assert(seq![d].drop_first() =~= Seq::<Seq<u8>>::empty());
                assert(concat(Seq::<Seq<u8>>::empty()) == Seq::<u8>::empty());
                assert(concat(seq![d]) =~= d);
            },
            WriterCommand::Finish => {
                lemma_pending_steps(p);
            },
            WriterCommand::Idle => {
                lemma_flush_pending_steps(p);
            },
        }
        assert(concat(Seq::<Seq<u8>>::empty()) == Seq::<u8>::empty());
        // what this command wrote, plus what it left collected
        assert(written(steps) + concat(np) =~= concat(p) + head);
        assert(pending_ok(np));
        assert(writes_bounded(steps));
        lemma_writes_preserve_order(np, rest);
        let (more, fp) = run_writer(np, rest);
        lemma_written_append(steps, more);
        assert(concat(accepted(cmds)) =~= head + concat(accepted(rest)));
        assert(written(steps + more) + concat(fp) =~= concat(p) + concat(accepted(cmds)));
        let all = steps + more;
        assert forall|i: int| 0 <= i < all.len() implies (#[trigger] all[i] matches WriteStep::Write(
            b,
        ) ==> b.len() <= MAX_CHUNK_SIZE) by {
            if i >= steps.len() {
                assert(all[i] == more[i - steps.len()]);
            } else {
                assert(all[i] == steps[i]);
            }
        }
    }
}

fn copy_range(data: &Vec<u8>, start: usize, end: usize) -> (r: Vec<u8>)
    requires
        start <= end <= data@.len(),
    ensures
        r@ == data@.subrange(start as int, end as int),
{
    let mut r: Vec<u8> = Vec::new();
    let mut i = start;
    while i < end
        invariant
            start <= i <= end <= data@.len(),
            r@ == data@.subrange(start as int, i as int),
        decreases end - i,
    {
        r.push(data[i]);
        i = i + 1;
        assert(r@ =~= data@.subrange(start as int, i as int));
    }
    r
}

/// The pieces of a large message, each followed by a flush.
fn chunk_writes(data: &Vec<u8>) -> (ops: Vec<WriteOp>)
    ensures
        steps_of(ops@) == large_steps(data@),
{
    let bounds = chunk_bounds(data.len(), MAX_CHUNK_SIZE);
    let ghost rv = ranges_view(bounds@);
    proof {
        lemma_chunk_ranges_shape(0, data@.len(), MAX_CHUNK_SIZE as nat);
    }
    let mut ops: Vec<WriteOp> = Vec::new();
    let mut i: usize = 0;
    assert(rv.skip(0) =~= rv);
    assert(steps_of(ops@) =~= Seq::<WriteStep>::empty());
    assert(steps_of(ops@) + chunk_steps(data@, rv.skip(0)) =~= large_steps(data@));
    while i < bounds.len()
        invariant
            i <= bounds@.len(),
            rv == ranges_view(bounds@),
            rv == chunk_ranges(0, data@.len(), MAX_CHUNK_SIZE as nat),
            forall|k: int| 0 <= k < rv.len() ==> (#[trigger] rv[k]).0 <= rv[k].1 <= data@.len(),
            steps_of(ops@) + chunk_steps(data@, rv.skip(i as int)) == large_steps(data@),
        decreases bounds@.len() - i,
    {
        let (s, e) = bounds[i];
        assert(rv[i as int] == (s as nat, e as nat));
        let piece = copy_range(data, s, e);
        let ghost old_ops = steps_of(ops@);
        ops.push(WriteOp::Write(piece));
        ops.push(WriteOp::Flush);
        assert(rv.skip(i as int).drop_first() =~= rv.skip(i + 1));
        assert(rv.skip(i as int)[0] == rv[i as int]);
        assert(steps_of(ops@) =~= old_ops + seq![
            WriteStep::Write(data@.subrange(s as int, e as int)),
            WriteStep::Flush,
        ]);
        i = i + 1;
        assert(steps_of(ops@) + chunk_steps(data@, rv.skip(i as int)) =~= old_ops + chunk_steps(
            data@,
            rv.skip(i - 1),
        ));
    }
    assert(rv.skip(i as int) =~= Seq::<(nat, nat)>::empty());
    assert(steps_of(ops@) + chunk_steps(data@, rv.skip(i as int)) =~= steps_of(ops@));
    ops
}

/// The messages a connection's write loop has collected but not yet written.
pub struct WriteBatcher {
    pending: Vec<Vec<u8>>,
}

impl View for WriteBatcher {
    type V = Seq<Seq<u8>>;

    closed spec fn view(&self) -> Seq<Seq<u8>> {
        self.pending@.map_values(|b: Vec<u8>| b@)
    }
}

impl WriteBatcher {
    /// Only messages small enough for one write are collected.
    pub open spec fn wf(&self) -> bool {
        pending_ok(self@)
    }

    /// A batcher with nothing collected.
    pub fn new() -> (w: Self)
        ensures
            w@ == Seq::<Seq<u8>>::empty(),
            w.wf(),
    {
        let w = WriteBatcher { pending: Vec::new() };
        assert(w@ =~= Seq::<Seq<u8>>::empty());
        w
    }

    /// How many messages are collected.
    pub fn len(&self) -> (n: usize)
        ensures
            n == self@.len(),
    {
        self.pending.len()
    }

    /// Whether enough messages are collected that the loop should stop
    /// collecting and write them.
    pub fn batch_full(&self) -> (b: bool)
        ensures
            b == (self@.len() >= MAX_BATCH_LEN),
    {
        self.pending.len() >= MAX_BATCH_LEN
    }

    /// Whether a batch just written is to be flushed, given the milliseconds
    /// since the last flush.
    pub fn flush_due(elapsed_ms: u128) -> (b: bool)
        ensures
            b == (elapsed_ms >= FLUSH_INTERVAL_MS),
    {
        elapsed_ms >= FLUSH_INTERVAL_MS
    }

    /// Writes for the collected messages, in order, and empties the collection.
    fn take_pending(&mut self) -> (ops: Vec<WriteOp>)
        ensures
            steps_of(ops@) == pending_steps(old(self)@),
            final(self)@ == Seq::<Seq<u8>>::empty(),
    {
        let ghost p0 = self@;
        let mut ops: Vec<WriteOp> = Vec::new();
        let mut i: usize = 0;
        let n0 = self.pending.len();
        assert(p0.len() == n0);
        assert(p0.skip(0) =~= p0);
        assert(p0.take(0) =~= Seq::<Seq<u8>>::empty());
        assert(steps_of(ops@) =~= pending_steps(p0.take(0)));
        while self.pending.len() > 0
            invariant
                i <= p0.len(),
                self.pending@.len() + i == p0.len(),
                p0.len() == n0,
                self@ == p0.skip(i as int),
                steps_of(ops@) == pending_steps(p0.take(i as int)),
            decreases self.pending@.len(),
        {
            let ghost before = self.pending@;
            let ghost v = self@;
            assert(v[0] == before[0]@);
            assert(v[0] == p0[i as int]);
            let b = self.pending.remove(0);
            assert(self.pending@ =~= before.subrange(1, before.len() as int));
            assert(b@ == p0[i as int]);
            assert(self@ =~= v.subrange(1, v.len() as int));
            assert(v.subrange(1, v.len() as int) =~= p0.skip(i + 1));
            let ghost old_ops = steps_of(ops@);
            ops.push(WriteOp::Write(b));
            assert(steps_of(ops@) =~= old_ops.push(WriteStep::Write(p0[i as int])));
            i = i + 1;
            assert(p0.take(i as int) =~= p0.take(i - 1).push(p0[i - 1]));
            assert(pending_steps(p0.take(i as int)) =~= pending_steps(p0.take(i - 1)).push(
                WriteStep::Write(p0[i - 1]),
            ));
            assert(self@ =~= p0.skip(i as int));
        }
        assert(p0.take(i as int) =~= p0);
        ops
    }

    /// A message arrived.  A small one is collected.  A large one is written
    /// at once, in flushed pieces, after the collected messages, which are
    /// written and flushed first.
    pub fn accept(&mut self, data: Vec<u8>) -> (ops: Vec<WriteOp>)
        requires
            old(self).wf(),
        ensures
            (steps_of(ops@), final(self)@) == accept_spec(old(self)@, data@),
            final(self).wf(),
    {
        proof {
            lemma_accept_conserves(self@, data@);
        }
        if data.len() > MAX_CHUNK_SIZE {
            let was_empty = self.pending.len() == 0;
            let mut ops = self.take_pending();
            if !was_empty {
                ops.push(WriteOp::Flush);
            }
            let ghost first = steps_of(ops@);
            let mut large = chunk_writes(&data);
            ops.append(&mut large);
            assert(steps_of(ops@) =~= first + large_steps(data@));
            ops
        } else {
            let ghost p0 = self@;
            self.pending.push(data);
            assert(self@ =~= p0.push(data@));
            Vec::new()
        }
    }

    /// The loop stopped collecting: write the collected messages, in order,
    /// and empty the collection.  Whether a flush follows is for
    /// [`WriteBatcher::flush_due`] to say.
    pub fn finish_batch(&mut self) -> (ops: Vec<WriteOp>)
        ensures
            steps_of(ops@) == pending_steps(old(self)@),
            written(steps_of(ops@)) == concat(old(self)@),
            final(self)@ == Seq::<Seq<u8>>::empty(),
            final(self).wf(),
    {
        proof {
            lemma_pending_steps(self@);
        }
        self.take_pending()
    }

    /// No message arrived in time: write and flush the collected messages, if
    /// there are any, and empty the collection.
    pub fn on_idle(&mut self) -> (ops: Vec<WriteOp>)
        ensures
            steps_of(ops@) == flush_pending_steps(old(self)@),
            written(steps_of(ops@)) == concat(old(self)@),
            final(self)@ == Seq::<Seq<u8>>::empty(),
            final(self).wf(),
    {
        proof {
            lemma_flush_pending_steps(self@);
        }
        let was_empty = self.pending.len() == 0;
        let mut ops = self.take_pending();
        if !was_empty {
            let ghost s = steps_of(ops@);
            ops.push(WriteOp::Flush);
            assert(steps_of(ops@) =~= s.push(WriteStep::Flush));
        }
        ops
    }
}

} // verus!
