//! The rings that carry samples from the capture callback to the transform worker, and spectra
//! from there to the display worker.
//!
//! A ring has one producer and one consumer, which work at the same time on different threads.
//! So each half is described by what went through it: a producer by all the words pushed so
//! far, a consumer by all the words popped so far. Both are the beginning of one stream, which
//! the two halves of a ring share.
use crate::config::{FFT_SIZE, RING_CAPACITY_CPAL_FFT, RING_CAPACITY_FFT_UI};
use ringbuf::traits::{Consumer, Observer, Producer, Split};
use ringbuf::{HeapCons, HeapProd, HeapRb};
use vstd::prelude::*;

verus! {

/// The writing half of a ring of words. The type of the half itself is bounded by traits of
/// ringbuf, so it stands in a private field.
#[verifier::external_body]
pub struct MyProducer {
    inner: HeapProd<u64>,
}

/// The reading half of a ring of words, held in the same way.
#[verifier::external_body]
pub struct MyConsumer {
    inner: HeapCons<u64>,
}

/// All words that have been pushed through a producer, in their order.
pub uninterp spec fn pushed(producer: MyProducer) -> Seq<u64>;

/// All words that are ever pushed into a producer's ring, in their order: what has been pushed is
/// the beginning of it.
pub uninterp spec fn inflow(producer: MyProducer) -> Seq<u64>;

/// The capacity of a producer's ring.
pub uninterp spec fn room(producer: MyProducer) -> nat;

/// All words that have been popped through a consumer, in their order.
pub uninterp spec fn popped(consumer: MyConsumer) -> Seq<u64>;

/// All words that are ever pushed into a consumer's ring, in their order: what has been popped is
/// the beginning of it.
pub uninterp spec fn outflow(consumer: MyConsumer) -> Seq<u64>;

/// The capacity of a consumer's ring.
pub uninterp spec fn depth(consumer: MyConsumer) -> nat;

/// How many words a consumer has seen waiting that it has not popped since. More may have
/// arrived; none of them can leave but through the consumer.
pub uninterp spec fn waiting(consumer: MyConsumer) -> nat;

/// `HeapRb::new` and `Split::split` of ringbuf: a ring of the given capacity, and its two halves,
/// through which nothing has gone. What goes in at the one comes out at the other. `new` panics
/// on a capacity of 0 and where the memory cannot be addressed.
#[verifier::external_body]
fn new_ring(capacity: usize) -> (halves: (MyProducer, MyConsumer))
    requires
        0 < capacity,
        capacity * 8 <= isize::MAX,
    ensures
        pushed(halves.0) == Seq::<u64>::empty(),
        room(halves.0) == capacity,
        popped(halves.1) == Seq::<u64>::empty(),
        depth(halves.1) == capacity,
        waiting(halves.1) == 0,
        inflow(halves.0) == outflow(halves.1),
{
    let (producer, consumer) = HeapRb::<u64>::new(capacity).split();
    (MyProducer { inner: producer }, MyConsumer { inner: consumer })
}

/// `Producer::try_push` of ringbuf: pushes the word, or hands it back when the ring is full.
/// A ring holds no more than was pushed into it, so it can only be full when at least as many
/// words as it has room for have been pushed.
#[verifier::external_body]
fn try_push(producer: &mut MyProducer, word: u64) -> (result: Result<(), u64>)
    ensures
        room(*final(producer)) == room(*old(producer)),
        inflow(*final(producer)) == inflow(*old(producer)),
        pushed(*final(producer)).is_prefix_of(inflow(*final(producer))),
        match result {
            Ok(_) => pushed(*final(producer)) == pushed(*old(producer)).push(word),
            Err(back) => back == word && pushed(*final(producer)) == pushed(*old(producer))
                && pushed(*final(producer)).len() >= room(*final(producer)),
        },
{
    producer.inner.try_push(word)
}

/// `Producer::push_iter` of ringbuf: pushes words from the front of the iterator until it ends
/// or the ring is full, and returns how many. It stops early only when the ring is full, so
/// when at least as many words as it has room for have been pushed. How many fit depends on how
/// far the consumer has come.
#[verifier::external_body]
fn push_iter(producer: &mut MyProducer, words: &[u64]) -> (count: usize)
    ensures
        room(*final(producer)) == room(*old(producer)),
        inflow(*final(producer)) == inflow(*old(producer)),
        pushed(*final(producer)).is_prefix_of(inflow(*final(producer))),
        count <= words@.len(),
        count <= room(*final(producer)),
        pushed(*final(producer)) == pushed(*old(producer)) + words@.take(count as int),
        count < words@.len() ==> pushed(*final(producer)).len() >= room(*final(producer)),
{
    producer.inner.push_iter(words.iter().copied())
}

/// `Producer::push_slice` of ringbuf: pushes words from the front of the slice until it ends or
/// the ring is full, and returns how many. It stops early only when the ring is full, so when
/// at least as many words as it has room for have been pushed. How many fit depends on how far
/// the consumer has come.
#[verifier::external_body]
fn push_slice(producer: &mut MyProducer, words: &[u64]) -> (count: usize)
    ensures
        room(*final(producer)) == room(*old(producer)),
        inflow(*final(producer)) == inflow(*old(producer)),
        pushed(*final(producer)).is_prefix_of(inflow(*final(producer))),
        count <= words@.len(),
        count <= room(*final(producer)),
        pushed(*final(producer)) == pushed(*old(producer)) + words@.take(count as int),
        count < words@.len() ==> pushed(*final(producer)).len() >= room(*final(producer)),
{
    producer.inner.push_slice(words)
}

/// `Observer::occupied_len` of ringbuf: the number of words in the ring, as its consumer sees
/// it. It is never more than the capacity, nor less than what the consumer has seen waiting.
/// How many have arrived since depends on how far the producer has come.
#[verifier::external_body]
fn occupied_len(consumer: &mut MyConsumer) -> (count: usize)
    ensures
        popped(*final(consumer)) == popped(*old(consumer)),
        depth(*final(consumer)) == depth(*old(consumer)),
        outflow(*final(consumer)) == outflow(*old(consumer)),
        popped(*final(consumer)).is_prefix_of(outflow(*final(consumer))),
        waiting(*final(consumer)) == count,
        waiting(*old(consumer)) <= count,
        count <= depth(*final(consumer)),
{
    consumer.inner.occupied_len()
}

/// `Consumer::pop_slice` of ringbuf: pops words into the front of the buffer until it is full or
/// the ring is empty, and returns how many; the rest of the buffer keeps its words. All that
/// the consumer has seen waiting is there. The words are those that were pushed, in their order
/// and without a gap. How many have arrived beyond those seen waiting depends on how far the
/// producer has come.
#[verifier::external_body]
fn pop_slice(consumer: &mut MyConsumer, buffer: &mut Vec<u64>) -> (count: usize)
    ensures
        depth(*final(consumer)) == depth(*old(consumer)),
        outflow(*final(consumer)) == outflow(*old(consumer)),
        popped(*final(consumer)).is_prefix_of(outflow(*final(consumer))),
        final(buffer)@.len() == old(buffer)@.len(),
        count <= old(buffer)@.len(),
        count <= depth(*final(consumer)),
        count < old(buffer)@.len() ==> waiting(*old(consumer)) <= count,
        popped(*final(consumer)) == popped(*old(consumer)) + final(buffer)@.take(count as int),
        forall|i: int|
            count <= i < old(buffer)@.len() ==> #[trigger] final(buffer)@[i] == old(buffer)@[i],
        waiting(*final(consumer)) == if waiting(*old(consumer)) > count {
            (waiting(*old(consumer)) - count) as nat
        } else {
            0
        },
{
    consumer.inner.pop_slice(buffer)
}

/// The halves of both rings: `p_a` and `c_a` carry samples, `p_b` and `c_b` spectra.
pub struct MyRingData {
    pub p_a: MyProducer,
    pub c_a: MyConsumer,
    pub p_b: MyProducer,
    pub c_b: MyConsumer,
}

/// Two rings through which nothing has gone. What goes in at `p_a` comes out at `c_a`, and what
/// goes in at `p_b` comes out at `c_b`.
pub fn create_ring() -> (rings: MyRingData)
    ensures
        pushed(rings.p_a) == Seq::<u64>::empty(),
        popped(rings.c_a) == Seq::<u64>::empty(),
        room(rings.p_a) == RING_CAPACITY_CPAL_FFT,
        depth(rings.c_a) == RING_CAPACITY_CPAL_FFT,
        waiting(rings.c_a) == 0,
        inflow(rings.p_a) == outflow(rings.c_a),
        pushed(rings.p_b) == Seq::<u64>::empty(),
        popped(rings.c_b) == Seq::<u64>::empty(),
        room(rings.p_b) == RING_CAPACITY_FFT_UI,
        depth(rings.c_b) == RING_CAPACITY_FFT_UI,
        waiting(rings.c_b) == 0,
        inflow(rings.p_b) == outflow(rings.c_b),
{
    let (p_a, c_a) = new_ring(RING_CAPACITY_CPAL_FFT);
    let (p_b, c_b) = new_ring(RING_CAPACITY_FFT_UI);
    MyRingData { p_a, c_a, p_b, c_b }
}

/// A consumer reads back what its producer wrote: the words popped are the words pushed, in the
/// same order.
pub proof fn law_read_back(producer: MyProducer, consumer: MyConsumer)
    requires
        inflow(producer) == outflow(consumer),
        pushed(producer).is_prefix_of(inflow(producer)),
        popped(consumer).is_prefix_of(outflow(consumer)),
    ensures
        forall|i: int|
            0 <= i < popped(consumer).len() && i < pushed(producer).len()
                ==> #[trigger] popped(consumer)[i] == pushed(producer)[i],
        popped(consumer).len() <= pushed(producer).len() ==> popped(consumer).is_prefix_of(
            pushed(producer),
        ),
{
    let stream = inflow(producer);
    assert forall|i: int|
        0 <= i < popped(consumer).len() && i < pushed(producer).len() implies #[trigger] popped(
        consumer,
    )[i] == pushed(producer)[i] by {
        assert(popped(consumer)[i] == stream.subrange(0, popped(consumer).len() as int)[i]);
        assert(pushed(producer)[i] == stream.subrange(0, pushed(producer).len() as int)[i]);
    }
}

/// A block of words comes out as it went in: where as many words have been popped before `block`
/// as were pushed before `words`, and both are equally long, they are the same.
pub proof fn law_block_reads_back(
    producer: MyProducer,
    consumer: MyConsumer,
    before: Seq<u64>,
    words: Seq<u64>,
    gone: Seq<u64>,
    block: Seq<u64>,
)
    requires
        inflow(producer) == outflow(consumer),
        pushed(producer).is_prefix_of(inflow(producer)),
        popped(consumer).is_prefix_of(outflow(consumer)),
        pushed(producer) == before + words,
        popped(consumer) == gone + block,
        gone.len() == before.len(),
        block.len() == words.len(),
    ensures
        block == words,
{
    law_read_back(producer, consumer);
    assert forall|i: int| 0 <= i < block.len() implies block[i] == words[i] by {
        assert(block[i] == popped(consumer)[gone.len() + i]);
        assert(words[i] == pushed(producer)[before.len() + i]);
    }
    assert(block =~= words);
}

/// A ring had no room for a word that must not be lost.
#[derive(Clone, Copy, Debug, PartialEq, Eq, Structural)]
pub struct RingFull;

/// A number of zero words: a silent stretch.
pub open spec fn silence(count: nat) -> Seq<u64> {
    Seq::new(count, |i: int| 0u64)
}

/// Pushes `count` zero words, so that the consumer finds something to begin with. It fails at
/// the first word that finds the ring full, which cannot happen before as many words as the ring
/// has room for have been pushed.
pub fn fill_silence(producer: &mut MyProducer, count: usize) -> (result: Result<(), RingFull>)
    ensures
        room(*final(producer)) == room(*old(producer)),
        inflow(*final(producer)) == inflow(*old(producer)),
        pushed(*old(producer)).is_prefix_of(inflow(*old(producer))) ==> pushed(
            *final(producer),
        ).is_prefix_of(inflow(*final(producer))),
        pushed(*old(producer)).len() + count <= room(*old(producer)) ==> result is Ok,
        result is Ok ==> pushed(*final(producer)) == pushed(*old(producer)) + silence(
            count as nat,
        ),
        result is Err ==> pushed(*final(producer)).len() >= room(*final(producer)) && exists|
            done: nat,
        |
            done < count && pushed(*final(producer)) == pushed(*old(producer)) + #[trigger] silence(
                done,
            ),
{
    assert(pushed(*producer) =~= pushed(*producer) + silence(0));
    for i in 0..count
        invariant
            room(*producer) == room(*old(producer)),
            inflow(*producer) == inflow(*old(producer)),
            pushed(*old(producer)).is_prefix_of(inflow(*old(producer))) ==> pushed(
                *producer,
            ).is_prefix_of(inflow(*producer)),
            pushed(*producer) == pushed(*old(producer)) + silence(i as nat),
    {
        match try_push(producer, 0) {
            Ok(_) => {},
            Err(_) => {
                return Err(RingFull);
            },
        }
        assert(pushed(*producer) =~= pushed(*old(producer)) + silence((i + 1) as nat));
    }
    Ok(())
}

/// What a block of words did to a producer: all of it went in, or only a part from its front
/// because the ring was full.
pub open spec fn block_pushed(
    pre: MyProducer,
    post: MyProducer,
    words: Seq<u64>,
    complete: bool,
) -> bool {
    &&& room(post) == room(pre)
    &&& inflow(post) == inflow(pre)
    &&& pushed(post).is_prefix_of(inflow(post))
    &&& if complete {
        pushed(post) == pushed(pre) + words
    } else {
        pushed(post).len() >= room(post) && exists|count: int|
            0 <= count < words.len() && count <= room(post) && pushed(post) == pushed(pre)
                + #[trigger] words.take(count)
    }
}

/// Pushes the samples of one capture callback. Returns whether all of them fitted; those that
/// did not are lost.
pub fn push_samples(producer: &mut MyProducer, words: &[u64]) -> (complete: bool)
    ensures
        block_pushed(*old(producer), *final(producer), words@, complete),
        pushed(*old(producer)).len() + words@.len() <= room(*old(producer)) ==> complete,
{
    let count: usize = push_iter(producer, words);
    assert(words@.take(words@.len() as int) =~= words@);
    !(count < words.len())
}

/// Pushes the spectrum of one transform. Returns whether all of it fitted; what did not is
/// lost.
pub fn push_spectrum(producer: &mut MyProducer, words: &[u64]) -> (complete: bool)
    ensures
        block_pushed(*old(producer), *final(producer), words@, complete),
        pushed(*old(producer)).len() + words@.len() <= room(*old(producer)) ==> complete,
{
    let count: usize = push_slice(producer, words);
    assert(words@.take(words@.len() as int) =~= words@);
    !(count < words.len())
}

/// The samples that one transform takes.
pub fn required_samples(channels: u16) -> (count: usize)
    ensures
        count == FFT_SIZE * channels,
{
    FFT_SIZE * channels as usize
}

/// What a worker does next.
#[derive(Clone, Copy, Debug, PartialEq, Eq, Structural)]
pub enum BlockPoll {
    /// End: the program shuts down.
    Stop,
    /// Sleep a little, and poll again.
    Wait,
    /// Work on the block that has been read.
    Ready,
}

/// What a worker does when `occupied` words wait in its ring: it stops when the program shuts
/// down, whatever is in the ring; else it works when a block of `required` words is there, and
/// waits when it is not.
pub open spec fn step_for(occupied: int, required: int, shutdown: bool) -> BlockPoll {
    if shutdown {
        BlockPoll::Stop
    } else if occupied < required {
        BlockPoll::Wait
    } else {
        BlockPoll::Ready
    }
}

/// What a worker does when `occupied` words wait in its ring and a block has `required` words.
pub fn next_step(occupied: usize, required: usize, shutdown: bool) -> (step: BlockPoll)
    ensures
        step == step_for(occupied as int, required as int, shutdown),
{
    if shutdown {
        BlockPoll::Stop
    } else if occupied < required {
        BlockPoll::Wait
    } else {
        BlockPoll::Ready
    }
}

/// Looks for a full block in the ring, and takes it when it is there and the program goes on. A
/// block is never read in part. How many words are there depends on how far the producer has
/// come.
pub fn poll_block(consumer: &mut MyConsumer, block: &mut Vec<u64>, shutdown: bool) -> (poll:
    BlockPoll)
    ensures
        depth(*final(consumer)) == depth(*old(consumer)),
        outflow(*final(consumer)) == outflow(*old(consumer)),
        popped(*final(consumer)).is_prefix_of(outflow(*final(consumer))),
        final(block)@.len() == old(block)@.len(),
        exists|occupied: int|
            waiting(*old(consumer)) <= occupied <= depth(*old(consumer))
                && poll == #[trigger] step_for(occupied, old(block)@.len() as int, shutdown)
                && waiting(*final(consumer)) == if poll is Ready {
                occupied - old(block)@.len()
            } else {
                occupied
            },
        poll is Wait ==> waiting(*final(consumer)) < old(block)@.len(),
        poll is Stop <==> shutdown,
        poll is Ready ==> popped(*final(consumer)) == popped(*old(consumer)) + final(block)@,
        !(poll is Ready) ==> popped(*final(consumer)) == popped(*old(consumer)) && *final(block)
            == *old(block),
        !shutdown && waiting(*old(consumer)) >= old(block)@.len() ==> poll is Ready,
        !shutdown && old(block)@.len() > depth(*old(consumer)) ==> poll is Wait,
{
    let occupied: usize = occupied_len(consumer);
    let step = next_step(occupied, block.len(), shutdown);
    assert(step == step_for(occupied as int, block@.len() as int, shutdown));
    match step {
        BlockPoll::Ready => {
            let taken: usize = pop_slice(consumer, block);
            assert(block@.take(taken as int) =~= block@);
        },
        _ => {},
    }
    step
}

/// A stretch of silence that was pushed is as long as asked for and all zero, and what was
/// pushed before stays. It fails only where a word found the ring full.
pub proof fn law_silence_is_zero(
    producer: &mut MyProducer,
    count: usize,
    result: Result<(), RingFull>,
)
    requires
        call_ensures(fill_silence, (producer, count), result),
    ensures
        ({
            let before = pushed(*old(producer));
            let after = pushed(*final(producer));
            &&& before.is_prefix_of(after)
            &&& forall|i: int| before.len() <= i < after.len() ==> #[trigger] after[i] == 0
            &&& after.len() <= before.len() + count
            &&& result is Ok <==> after.len() == before.len() + count
            &&& result is Err ==> after.len() >= room(*old(producer))
        }),
{
    let before = pushed(*old(producer));
    let after = pushed(*final(producer));
    if result is Err {
        let done = choose|done: nat|
            done < count && pushed(*final(producer)) == pushed(*old(producer))
                + #[trigger] silence(done);
        assert(after == before + silence(done));
    }
    assert(before =~= after.subrange(0, before.len() as int));
}

/// A block of samples goes in as it is, from its front: all of it, or what there was room for.
pub proof fn law_samples_go_in_from_the_front(
    producer: &mut MyProducer,
    words: &[u64],
    complete: bool,
)
    requires
        call_ensures(push_samples, (producer, words), complete),
    ensures
        goes_in(*old(producer), *final(producer), words@, complete),
{
    lemma_block_goes_in(*old(producer), *final(producer), words@, complete);
}

/// A spectrum goes in as it is, from its front: all of it, or what there was room for.
pub proof fn law_spectrum_goes_in_from_the_front(
    producer: &mut MyProducer,
    words: &[u64],
    complete: bool,
)
    requires
        call_ensures(push_spectrum, (producer, words), complete),
    ensures
        goes_in(*old(producer), *final(producer), words@, complete),
{
    lemma_block_goes_in(*old(producer), *final(producer), words@, complete);
}

/// Whether the words that `post` has beyond `pre` are the front of a block: all of it exactly
/// where it is complete, and else at least as many words as the ring has room for are in.
pub open spec fn goes_in(
    pre: MyProducer,
    post: MyProducer,
    words: Seq<u64>,
    complete: bool,
) -> bool {
    let before = pushed(pre);
    let after = pushed(post);
    &&& before.len() <= after.len() <= before.len() + words.len()
    &&& forall|i: int| 0 <= i < before.len() ==> #[trigger] after[i] == before[i]
    &&& forall|i: int|
        before.len() <= i < after.len() ==> #[trigger] after[i] == words[i - before.len()]
    &&& complete <==> after.len() == before.len() + words.len()
    &&& !complete ==> after.len() >= room(pre)
}

/// What is known of a block that was pushed.
proof fn lemma_block_goes_in(
    pre: MyProducer,
    post: MyProducer,
    words: Seq<u64>,
    complete: bool,
)
    requires
        block_pushed(pre, post, words, complete),
    ensures
        goes_in(pre, post, words, complete),
{
    if !complete {
        let count = choose|count: int|
            0 <= count < words.len() && count <= room(post) && pushed(post) == pushed(pre)
                + #[trigger] words.take(count);
        assert(pushed(post) == pushed(pre) + words.take(count));
    }
}

/// A worker stops exactly on shutdown. Else it gets a block exactly where it is told so: the next
/// words of the stream, in their order. In every other case nothing is read. It is told so exactly
/// where it sees a full block waiting.
pub proof fn law_blocks_come_in_order(
    consumer: &mut MyConsumer,
    block: &mut Vec<u64>,
    shutdown: bool,
    poll: BlockPoll,
)
    requires
        call_ensures(poll_block, (consumer, block, shutdown), poll),
    ensures
        ({
            let before = popped(*old(consumer));
            let after = popped(*final(consumer));
            let stream = outflow(*old(consumer));
            &&& poll is Stop <==> shutdown
            &&& !(poll is Ready) ==> after == before && final(block)@ == old(block)@
            &&& poll is Ready ==> final(block)@.len() == old(block)@.len() && after.len()
                == before.len() + old(block)@.len() <= stream.len() && forall|i: int|
                0 <= i < final(block)@.len() ==> #[trigger] final(block)@[i] == stream[before.len()
                    + i]
            &&& ({
                let left = waiting(*final(consumer));
                let seen = if poll is Ready {
                    left + old(block)@.len()
                } else {
                    left
                };
                &&& waiting(*old(consumer)) <= seen <= depth(*old(consumer))
                &&& poll is Ready <==> !shutdown && old(block)@.len() <= seen
            })
        }),
{
    if poll is Ready {
        let before = popped(*old(consumer));
        let after = popped(*final(consumer));
        let stream = outflow(*old(consumer));
        assert forall|i: int| 0 <= i < final(block)@.len() implies #[trigger] final(block)@[i]
            == stream[before.len() + i] by {
            assert(after[before.len() + i] == final(block)@[i]);
            assert(after[before.len() + i] == stream.subrange(0, after.len() as int)[before.len()
                + i]);
        }
    }
}

/// What is pushed into a new ring comes out at the consumer of that ring: the first block that is
/// read is the front of what was written.
pub proof fn law_new_ring_carries_its_words(
    rings: MyRingData,
    producer: &mut MyProducer,
    words: &[u64],
    consumer: &mut MyConsumer,
    block: &mut Vec<u64>,
    complete: bool,
    poll: BlockPoll,
)
    requires
        call_ensures(create_ring, (), rings),
        *old(producer) == rings.p_a && *old(consumer) == rings.c_a && call_ensures(
            push_samples,
            (producer, words),
            complete,
        ) || *old(producer) == rings.p_b && *old(consumer) == rings.c_b && call_ensures(
            push_spectrum,
            (producer, words),
            complete,
        ),
        words@.len() <= 1024 * 40,
        call_ensures(poll_block, (consumer, block, false), poll),
        old(block)@.len() <= words@.len(),
    ensures
        room(*old(producer)) == 1024 * 40,
        depth(*old(consumer)) == 1024 * 40,
        complete,
        poll is Ready ==> final(block)@ == words@.take(old(block)@.len() as int),
{
    if poll is Ready {
        law_blocks_come_in_order(consumer, block, false, poll);
        lemma_block_goes_in(*old(producer), *final(producer), words@, complete);
        let stream = inflow(*old(producer));
        let after = pushed(*final(producer));
        assert forall|i: int| 0 <= i < final(block)@.len() implies #[trigger] final(block)@[i]
            == words@[i] by {
            assert(after[i] == stream.subrange(0, after.len() as int)[i]);
            assert(after[i] == words@[i - 0]);
            assert(final(block)@[i] == stream[0 + i]);
        }
        assert(final(block)@ =~= words@.take(old(block)@.len() as int));
    }
}

/// A transform takes one full frame of samples for each of its points.
pub proof fn law_required_samples_are_full_frames(channels: u16, count: usize)
    requires
        call_ensures(required_samples, (channels,), count),
    ensures
        count == 1024 * channels,
{
}

/// A worker goes on exactly while the program does, and works exactly when a block is there.
pub proof fn law_steps_of_a_worker(
    occupied: usize,
    required: usize,
    shutdown: bool,
    step: BlockPoll,
)
    requires
        call_ensures(next_step, (occupied, required, shutdown), step),
    ensures
        step is Stop <==> shutdown,
        step is Ready <==> !shutdown && required <= occupied,
        step is Wait <==> !shutdown && occupied < required,
{
}

} // verus!
