//! The batched receiver: what one receive call reported, and the datagrams
//! that are copied out of the buffer pool before the next call overwrites it.

use vstd::prelude::*;
use vstd::slice::{slice_subrange, slice_to_vec};
use crate::decoder::{decode_bytes, MessageView};

verus! {

/// Largest number of datagrams that one receive call may fill.
pub const MAX_DATAGRAMS: usize = 10;

/// Capacity in bytes of one buffer slot.
pub const DATAGRAM_CAPACITY: usize = 1500;

/// What one receive call reported.
#[derive(Debug, Clone, Copy, PartialEq, Eq, Structural)]
pub enum ReceiveOutcome {
    /// The call filled this many slots; zero is a valid result.
    Batch { count: usize },
    /// Nothing was queued: poll again.
    NoData,
    /// A genuine socket error: the receive loop ends.
    Failed,
}

/// What a receive call reported, from the value it returned and from whether
/// the error that it left behind says that nothing was queued.
pub open spec fn classify_spec(returned: i32, would_block: bool) -> ReceiveOutcome {
    if returned >= 0 {
        ReceiveOutcome::Batch { count: returned as usize }
    } else if would_block {
        ReceiveOutcome::NoData
    } else {
        ReceiveOutcome::Failed
    }
}

/// Classifies the result of one receive call.
///
/// A value that is not negative is the number of datagrams received,
/// whatever `would_block` says. A negative value is "no data" where the
/// error says that the call would have blocked, and a failure otherwise.
pub fn classify_receive(returned: i32, would_block: bool) -> (outcome: ReceiveOutcome)
    ensures
        outcome == classify_spec(returned, would_block),
{
    if returned >= 0 {
        ReceiveOutcome::Batch { count: returned as usize }
    } else if would_block {
        ReceiveOutcome::NoData
    } else {
        ReceiveOutcome::Failed
    }
}

/// The contents of the slots of a pool.
pub open spec fn slots_of(pool: Seq<Vec<u8>>) -> Seq<Seq<u8>> {
    Seq::new(pool.len(), |i: int| pool[i]@)
}

/// Every slot of the pool has exactly `capacity` bytes.
pub open spec fn is_pool(slots: Seq<Seq<u8>>, capacity: int) -> bool {
    forall|i: int| 0 <= i < slots.len() ==> (#[trigger] slots[i]).len() == capacity
}

/// A batch of `count` datagrams fits the pool: there are that many slots and
/// that many lengths, and no datagram is longer than its slot.
pub open spec fn batch_fits(slots: Seq<Seq<u8>>, lengths: Seq<usize>, count: int) -> bool {
    &&& 0 <= count <= slots.len()
    &&& count <= lengths.len()
    &&& forall|i: int| 0 <= i < count ==> (#[trigger] lengths[i]) <= slots[i].len()
}

/// The datagrams of a batch: of each of the first `count` slots, the bytes
/// that were received into it.
pub open spec fn batch_of(slots: Seq<Seq<u8>>, lengths: Seq<usize>, count: int) -> Seq<Seq<u8>> {
    Seq::new(count as nat, |i: int| slots[i].take(lengths[i] as int))
}

/// Builds a pool of `slot_count` zeroed slots of `capacity` bytes each.
pub fn new_pool(slot_count: usize, capacity: usize) -> (pool: Vec<Vec<u8>>)
    ensures
        pool@.len() == slot_count,
        is_pool(slots_of(pool@), capacity as int),
        forall|i: int, j: int|
            0 <= i < slot_count && 0 <= j < capacity ==> (#[trigger] slots_of(pool@)[i][j]) == 0,
{
    let mut pool: Vec<Vec<u8>> = Vec::new();
    let mut filled: usize = 0;
    while filled < slot_count
        invariant
            filled <= slot_count,
            pool@.len() == filled,
            is_pool(slots_of(pool@), capacity as int),
            forall|i: int, j: int|
                0 <= i < filled && 0 <= j < capacity ==> (#[trigger] slots_of(pool@)[i][j]) == 0,
        decreases slot_count - filled,
    {
        let mut slot: Vec<u8> = Vec::new();
        let mut size: usize = 0;
        while size < capacity
            invariant
                size <= capacity,
                slot@.len() == size,
                forall|j: int| 0 <= j < size ==> slot@[j] == 0,
            decreases capacity - size,
        {
            slot.push(0u8);
            size += 1;
        }
        let ghost before = pool@;
        pool.push(slot);
        proof {
            assert forall|i: int| 0 <= i < pool@.len() implies (#[trigger] slots_of(pool@)[i]).len()
                == capacity by {
                if i < before.len() {
                    assert(slots_of(pool@)[i] == slots_of(before)[i]);
                }
            }
            assert forall|i: int, j: int|
                0 <= i < filled + 1 && 0 <= j < capacity implies (#[trigger] slots_of(
                pool@,
            )[i][j]) == 0 by {
                if i < before.len() {
                    assert(slots_of(pool@)[i] == slots_of(before)[i]);
                }
            }
        }
        filled += 1;
    }
    pool
}

/// Copies the first `length` bytes out of a slot.
pub fn copy_datagram(slot: &Vec<u8>, length: usize) -> (datagram: Vec<u8>)
    requires
        length <= slot@.len(),
    ensures
        datagram@ == slot@.take(length as int),
{
    slice_to_vec(slice_subrange(slot.as_slice(), 0, length))
}

/// Copies the datagrams of one batch out of the pool, in slot order.
///
/// Returns the datagrams exactly when the batch fits the pool; no datagram is
/// then longer than its slot. The result depends on the arguments alone:
/// nothing of an earlier batch enters it.
pub fn collect_batch(pool: &Vec<Vec<u8>>, lengths: &Vec<usize>, count: usize) -> (batch: Option<
    Vec<Vec<u8>>,
>)
    ensures
        batch is Some <==> batch_fits(slots_of(pool@), lengths@, count as int),
        batch matches Some(datagrams) ==> {
            &&& datagrams@.len() == count
            &&& slots_of(datagrams@) == batch_of(slots_of(pool@), lengths@, count as int)
        },
{
    if count > pool.len() || count > lengths.len() {
        return None;
    }
    let mut datagrams: Vec<Vec<u8>> = Vec::new();
    let mut at: usize = 0;
    while at < count
        invariant
            at <= count,
            count <= pool@.len(),
            count <= lengths@.len(),
            datagrams@.len() == at,
            forall|i: int| 0 <= i < at ==> (#[trigger] lengths@[i]) <= pool@[i]@.len(),
            forall|i: int|
                0 <= i < at ==> (#[trigger] datagrams@[i])@ == pool@[i]@.take(lengths@[i] as int),
        decreases count - at,
    {
        let length = lengths[at];
        if length > pool[at].len() {
            proof {
                assert(lengths@[at as int] > slots_of(pool@)[at as int].len());
            }
            return None;
        }
        let datagram = copy_datagram(&pool[at], length);
        datagrams.push(datagram);
        at += 1;
    }
    proof {
        assert forall|i: int| 0 <= i < count implies (#[trigger] lengths@[i]) <= slots_of(
            pool@,
        )[i].len() by {}
        assert(slots_of(datagrams@) =~= batch_of(slots_of(pool@), lengths@, count as int));
    }
    Some(datagrams)
}

/// The decode attempts that a batch gives rise to: one for each datagram.
pub open spec fn decode_attempts(batch: Seq<Seq<u8>>) -> Seq<Option<MessageView>> {
    Seq::new(batch.len(), |i: int| decode_bytes(batch[i]))
}

/// A receive call that reports `count` datagrams gives rise to exactly
/// `count` decode attempts, the i-th on the bytes received into slot i. What
/// the attempts are is fixed by this batch alone.
pub proof fn lemma_one_attempt_per_datagram(
    slots: Seq<Seq<u8>>,
    lengths: Seq<usize>,
    count: int,
)
    requires
        batch_fits(slots, lengths, count),
    ensures
        decode_attempts(batch_of(slots, lengths, count)).len() == count,
        forall|i: int|
            0 <= i < count ==> (#[trigger] decode_attempts(batch_of(slots, lengths, count))[i])
                == decode_bytes(slots[i].take(lengths[i] as int)),
        forall|i: int|
            0 <= i < count ==> (#[trigger] batch_of(slots, lengths, count)[i]).len()
                == lengths[i],
{
}

/// A batch taken from a pool holds no datagram longer than the capacity of
/// the pool's slots.
pub proof fn lemma_datagram_within_capacity(
    slots: Seq<Seq<u8>>,
    lengths: Seq<usize>,
    count: int,
    capacity: int,
)
    requires
        is_pool(slots, capacity),
        batch_fits(slots, lengths, count),
    ensures
        forall|i: int|
            0 <= i < count ==> (#[trigger] batch_of(slots, lengths, count)[i]).len() <= capacity,
{
    assert forall|i: int| 0 <= i < count implies (#[trigger] batch_of(
        slots,
        lengths,
        count,
    )[i]).len() <= capacity by {
        assert(lengths[i] <= slots[i].len());
    }
}

/// Nothing is deduplicated: a batch that holds the same datagram several
/// times gives rise to the same decode attempt as many times.
pub proof fn lemma_repeated_datagrams(batch: Seq<Seq<u8>>, first: int, second: int)
    requires
        0 <= first < batch.len(),
        0 <= second < batch.len(),
        batch[first] == batch[second],
    ensures
        decode_attempts(batch).len() == batch.len(),
        decode_attempts(batch)[first] == decode_attempts(batch)[second],
        decode_attempts(batch)[first] == decode_bytes(batch[first]),
{
}

} // verus!
