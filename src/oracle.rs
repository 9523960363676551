//! Fixed-capacity circular history of timestamped prices.
use crate::decimals::Price;
use crate::errors::ErrorCode;
use crate::state::Pool;
use vstd::prelude::*;

verus! {

/// The number of records the history holds.
pub const SIZE: u16 = 256;

/// One observation: a price at a time.
#[derive(Clone, Copy, Debug, PartialEq, Eq, Structural)]
pub struct Record {
    pub timestamp: u64,
    pub price: Price,
}

impl Default for Record {
    fn default() -> (r: Record)
        ensures
            r.timestamp == 0,
            r.price.v == 0,
    {
        Record { timestamp: 0, price: Price { v: 0 } }
    }
}

/// A ring of `SIZE` records: `head` is the slot written last and `amount`
/// counts the slots written so far, up to `SIZE`.
#[derive(Clone, Copy, Debug, PartialEq, Eq)]
pub struct Oracle {
    pub data: [Record; 256],
    pub head: u16,
    pub amount: u16,
    pub size: u16,
}

/// The last `n` elements of `s`, or all of them when there are fewer.
pub open spec fn keep_last(s: Seq<Record>, n: nat) -> Seq<Record> {
    if s.len() <= n {
        s
    } else {
        s.subrange(s.len() - n, s.len() as int)
    }
}

impl Oracle {
    pub open spec fn wf(self) -> bool {
        &&& self.size == SIZE
        &&& self.head < SIZE
        &&& self.amount <= SIZE
    }

    /// The slot of the `k`-th stored record, counting from the oldest.
    pub open spec fn slot(self, k: int) -> int {
        (self.head as int + 1 + SIZE as int - self.amount as int + k) % SIZE as int
    }

    /// The stored records, oldest first.
    pub open spec fn records(self) -> Seq<Record> {
        Seq::new(self.amount as nat, |k: int| self.data@[self.slot(k)])
    }

    /// Writes a record into the slot after `head`, overwriting the oldest
    /// record once the ring is full.
    pub fn add_record(&mut self, timestamp: u64, price: Price)
        requires
            old(self).wf(),
        ensures
            final(self).wf(),
            final(self).head == (old(self).head + 1) % SIZE as int,
            final(self).amount == if old(self).amount < SIZE {
                old(self).amount + 1
            } else {
                SIZE as int
            },
            final(self).data@ == old(self).data@.update(
                final(self).head as int,
                Record { timestamp, price },
            ),
            final(self).records() == keep_last(
                old(self).records().push(Record { timestamp, price }),
                SIZE as nat,
            ),
    {
        let record = Record { timestamp, price };
        let ghost before = *self;
        self.head = (self.head + 1) % self.size;
        self.data[self.head as usize] = record;
        if self.amount < self.size {
            self.amount = self.amount + 1;
        }
        proof {
            let after = *self;
            let s = SIZE as int;
            let pushed = before.records().push(record);
            let expected = keep_last(pushed, SIZE as nat);
            assert(expected.len() == after.amount);
            assert forall|k: int| 0 <= k < after.amount implies after.records()[k] == expected[k] by {
                let shift = if before.amount < SIZE { 0 } else { 1int };
                assert(after.slot(k) == (before.head as int + 1 + s - before.amount as int + k
                    + shift) % s);
                if k + shift < before.amount {
                    assert(after.slot(k) == before.slot(k + shift));
                    assert(after.slot(k) != after.head as int);
                    assert(expected[k] == pushed[k + shift]);
                } else {
                    assert(after.slot(k) == after.head as int);
                }
            }
            assert(after.records() =~= expected);
        }
    }

    /// Points the ring at its last slot and sets its capacity; the records
    /// and their count stay as they are.
    pub fn init(&mut self)
        ensures
            final(self).size == SIZE,
            final(self).head == SIZE - 1,
            final(self).amount == old(self).amount,
            final(self).data == old(self).data,
    {
        self.size = SIZE;
        self.head = SIZE - 1;
    }
}

impl Default for Oracle {
    fn default() -> (r: Oracle)
        ensures
            r.wf(),
            r.head == SIZE - 1,
            r.amount == 0,
            r.records() == Seq::<Record>::empty(),
    {
        let r = Oracle { data: [Record::default();256], head: SIZE - 1, amount: 0, size: SIZE };
        assert(r.records() =~= Seq::<Record>::empty());
        r
    }
}

/// The records after writing `writes` in order, starting from `start`, as
/// `Oracle::add_record` states each write.
pub open spec fn records_after(start: Seq<Record>, writes: Seq<Record>) -> Seq<Record>
    decreases writes.len(),
{
    if writes.len() == 0 {
        start
    } else {
        keep_last(records_after(start, writes.drop_last()).push(writes.last()), SIZE as nat)
    }
}

/// Writing records one after the other keeps exactly the last `SIZE` of all
/// records, in the order written; after more than `SIZE` writes into an empty
/// ring it holds `SIZE` records, the last `SIZE` written.
pub proof fn lemma_ring_keeps_last_records(start: Seq<Record>, writes: Seq<Record>)
    requires
        start.len() <= SIZE,
    ensures
        records_after(start, writes) == keep_last(start + writes, SIZE as nat),
        start.len() == 0 && writes.len() > SIZE ==> records_after(start, writes).len() == SIZE
            && records_after(start, writes) == writes.subrange(
            writes.len() - SIZE as int,
            writes.len() as int,
        ),
    decreases writes.len(),
{
    if writes.len() > 0 {
        let prev = writes.drop_last();
        lemma_ring_keeps_last_records(start, prev);
        let all_prev = start + prev;
        assert(start + writes =~= all_prev.push(writes.last()));
        assert(keep_last(keep_last(all_prev, SIZE as nat).push(writes.last()), SIZE as nat)
            =~= keep_last(all_prev.push(writes.last()), SIZE as nat));
    } else {
        assert(start + writes =~= start);
    }
    if start.len() == 0 && writes.len() > SIZE {
        assert(start + writes =~= writes);
    }
}

/// The stored records sit in the ring counting back from `head`: the record
/// `k` places before the newest is in slot `(head - k) mod SIZE`.
pub proof fn lemma_records_count_back_from_head(o: Oracle, k: int)
    requires
        o.wf(),
        0 <= k < o.amount,
    ensures
        o.records()[o.amount - 1 - k] == o.data@[(o.head + SIZE - k) % SIZE as int],
{
    assert(o.slot(o.amount - 1 - k) == (o.head + SIZE - k) % SIZE as int);
}

/// Marks the pool's history as set up and resets the ring's position;
/// fails, changing nothing, when the pool already has one.
pub fn initialize_oracle(pool: &mut Pool, oracle: &mut Oracle) -> (r: Result<(), ErrorCode>)
    ensures
        old(pool).oracle_initialized ==> r == Err::<(), ErrorCode>(
            ErrorCode::OracleAlreadyInitialized,
        ) && *final(pool) == *old(pool) && *final(oracle) == *old(oracle),
        !old(pool).oracle_initialized ==> r is Ok && *final(pool) == (Pool {
            oracle_initialized: true,
            ..*old(pool)
        }) && final(oracle).size == SIZE && final(oracle).head == SIZE - 1 && final(oracle).amount
            == old(oracle).amount && final(oracle).data == old(oracle).data,
{
    if pool.oracle_initialized {
        return Err(ErrorCode::OracleAlreadyInitialized);
    }
    pool.oracle_initialized = true;
    oracle.init();
    Ok(())
}

} // verus!
