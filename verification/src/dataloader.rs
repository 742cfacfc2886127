//! The lazy data loader and the manager that correlates its pull requests
//! with the host's replies.
//!
//! A loader is a cursor over a dataset handle: `position` never passes
//! `size`, and pulling `k` items advances by exactly `min(k, remaining)`.
//! The loader plans each pull as a `(start_index, amount)` request; the
//! surrounding process sends the request-data event and awaits the reply.
//! The manager allocates request ids from a monotonic counter and keeps, per
//! outstanding id, the callback that the reply must fire; a reply for an
//! unknown or already-served id is dropped.

use vstd::prelude::*;

use crate::messages::DataEvent;

verus! {

/// One operation on a loader's cursor, for stating what a whole run of
/// operations does.
pub enum LoaderOp {
    SetPosition(u32),
    Next(u32),
}

/// How many items a pull of `k` at `pos` actually returns: `k`, clamped by
/// what remains.
pub open spec fn clamped_amount(size: u32, pos: u32, k: u32) -> u32
    recommends
        pos <= size,
{
    if k <= size - pos {
        k
    } else {
        (size - pos) as u32
    }
}

/// The position after one operation. A rejected `SetPosition` leaves the
/// cursor unchanged.
pub open spec fn op_pos(size: u32, pos: u32, op: LoaderOp) -> u32
    recommends
        pos <= size,
{
    match op {
        LoaderOp::SetPosition(p) => if p < size {
            p
        } else {
            pos
        },
        LoaderOp::Next(k) => (pos + clamped_amount(size, pos, k)) as u32,
    }
}

/// How many items one operation returns.
pub open spec fn op_returned(size: u32, pos: u32, op: LoaderOp) -> u32
    recommends
        pos <= size,
{
    match op {
        LoaderOp::SetPosition(_) => 0u32,
        LoaderOp::Next(k) => clamped_amount(size, pos, k),
    }
}

/// The position after a run of operations.
pub open spec fn ops_pos(size: u32, pos: u32, ops: Seq<LoaderOp>) -> u32
    decreases ops.len(),
{
    if ops.len() == 0 {
        pos
    } else {
        ops_pos(size, op_pos(size, pos, ops[0]), ops.drop_first())
    }
}

/// The total number of items a run of operations returns.
pub open spec fn ops_returned(size: u32, pos: u32, ops: Seq<LoaderOp>) -> int
    decreases ops.len(),
{
    if ops.len() == 0 {
        0
    } else {
        op_returned(size, pos, ops[0]) + ops_returned(
            size,
            op_pos(size, pos, ops[0]),
            ops.drop_first(),
        )
    }
}

/// After any mixed run of operations, the position never passes the size.
pub proof fn lemma_loader_position_bounded(size: u32, pos: u32, ops: Seq<LoaderOp>)
    requires
        pos <= size,
    ensures
        ops_pos(size, pos, ops) <= size,
    decreases ops.len(),
{
    if ops.len() > 0 {
        lemma_loader_position_bounded(size, op_pos(size, pos, ops[0]), ops.drop_first());
    }
}

/// The total each pull requests, before clamping.
pub open spec fn ops_requested(ops: Seq<LoaderOp>) -> int
    decreases ops.len(),
{
    if ops.len() == 0 {
        0
    } else {
        (match ops[0] {
            LoaderOp::SetPosition(_) => 0,
            LoaderOp::Next(k) => k as int,
        }) + ops_requested(ops.drop_first())
    }
}

/// A run of pulls returns exactly what it requested, clamped once by what
/// remained at the start, and the cursor advances by exactly that total.
pub proof fn lemma_next_run_cumulative(size: u32, pos: u32, ops: Seq<LoaderOp>)
    requires
        pos <= size,
        forall|i: int| 0 <= i < ops.len() ==> ops[i] is Next,
    ensures
        ops_returned(size, pos, ops) == if ops_requested(ops) <= size - pos {
            ops_requested(ops)
        } else {
            size - pos
        },
        ops_pos(size, pos, ops) == pos + ops_returned(size, pos, ops),
    decreases ops.len(),
{
    if ops.len() > 0 {
        assert(ops[0] is Next);
        let k0 = ops[0]->Next_0;
        let c0 = clamped_amount(size, pos, k0);
        let pos1 = op_pos(size, pos, ops[0]);
        assert(pos1 == pos + c0);
        assert(forall|i: int|
            0 <= i < ops.drop_first().len() ==> #[trigger] ops.drop_first()[i] == ops[i + 1]);
        lemma_next_run_cumulative(size, pos1, ops.drop_first());
        let rest = ops.drop_first();
        assert(ops_returned(size, pos, ops) == c0 + ops_returned(size, pos1, rest));
        assert(ops_requested(ops) == k0 + ops_requested(rest));
        lemma_ops_requested_nonneg(rest);
        if k0 <= size - pos {
            assert(c0 == k0);
        } else {
            assert(c0 == size - pos);
            assert(pos1 == size);
            assert(ops_returned(size, pos1, rest) == 0);
        }
    }
}

/// No run of operations requests a negative total.
proof fn lemma_ops_requested_nonneg(ops: Seq<LoaderOp>)
    ensures
        ops_requested(ops) >= 0,
    decreases ops.len(),
{
    if ops.len() > 0 {
        lemma_ops_requested_nonneg(ops.drop_first());
    }
}

/// A lazy paged reader over one dataset handle.
pub struct DataLoaderImpl {
    pub dataset: String,
    pub size: u32,
    pub total_byte_size: u64,
    pub position: u32,
}

impl DataLoaderImpl {
    /// The cursor never passes the size.
    pub open spec fn wf(self) -> bool {
        self.position <= self.size
    }

    /// The loader `other` reads the same dataset, with the cursor possibly
    /// moved.
    pub open spec fn same_dataset(self, other: DataLoaderImpl) -> bool {
        &&& other.dataset == self.dataset
        &&& other.size == self.size
        &&& other.total_byte_size == self.total_byte_size
    }

    pub fn total_byte_size(&self) -> (r: u64)
        ensures
            r == self.total_byte_size,
    {
        self.total_byte_size
    }

    pub fn size(&self) -> (r: u32)
        ensures
            r == self.size,
    {
        self.size
    }

    pub fn position(&self) -> (r: u32)
        ensures
            r == self.position,
    {
        self.position
    }

    /// The number of items left to pull.
    pub fn remaining(&self) -> (r: u32)
        requires
            self.wf(),
        ensures
            r == self.size - self.position,
    {
        self.size - self.position
    }

    /// Whether at least `amount` items are left to pull.
    pub fn has_next(&self, amount: u32) -> (r: bool)
        requires
            self.wf(),
        ensures
            r == (self.size - self.position >= amount),
    {
        self.remaining() >= amount
    }

    /// Moves the cursor. A position at or past the size is rejected and
    /// leaves the loader unchanged.
    pub fn set_position(&mut self, position: u32) -> (r: Result<(), ()>)
        requires
            old(self).wf(),
        ensures
            final (self).wf(),
            old(self).same_dataset(*final (self)),
            r is Ok <==> position < old(self).size,
            final (self).position == op_pos(
                old(self).size,
                old(self).position,
                LoaderOp::SetPosition(position),
            ),
    {
        if position >= self.size {
            Err(())
        } else {
            self.position = position;
            Ok(())
        }
    }

    /// Plans one pull of `amount` items: clamps the amount by what remains,
    /// advances the cursor by the clamped amount, and yields the
    /// `(start_index, amount)` of the request to send, or nothing when the
    /// clamped amount is zero (no request is sent and no items come back).
    pub fn next_request(&mut self, amount: u32) -> (r: Option<(u32, u32)>)
        requires
            old(self).wf(),
        ensures
            final (self).wf(),
            old(self).same_dataset(*final (self)),
            final (self).position == op_pos(
                old(self).size,
                old(self).position,
                LoaderOp::Next(amount),
            ),
            ({
                let clamped = clamped_amount(old(self).size, old(self).position, amount);
                if clamped == 0 {
                    r is None
                } else {
                    r == Some((old(self).position, clamped))
                }
            }),
    {
        let remaining = self.size - self.position;
        let clamped = if amount < remaining {
            amount
        } else {
            remaining
        };
        if clamped == 0 {
            return None;
        }
        let prev = self.position;
        self.position = self.position + clamped;
        Some((prev, clamped))
    }

    /// Plans the single read of a weights or state loader: rewind to the
    /// start, then pull one item.
    pub fn read_request(&mut self) -> (r: (u32, u32))
        requires
            old(self).wf(),
            old(self).size >= 1,
        ensures
            final (self).wf(),
            old(self).same_dataset(*final (self)),
            final (self).position == 1,
            r == (0u32, 1u32),
    {
        let set = self.set_position(0);
        assert(set is Ok);
        let req = self.next_request(1);
        match req {
            Some(r) => r,
            None => unreached(),
        }
    }
}

impl DataLoaderImpl {
    /// The shuffle data event for this loader and a group of others: the
    /// host commits to returning future reads of the named datasets in one
    /// permuted order, this loader's dataset first.
    pub fn shuffle_group_event(&self, others: &[&DataLoaderImpl]) -> (e: DataEvent)
        ensures
            e matches DataEvent::Shuffle { datasets } && {
                &&& datasets.deep_view().len() == others@.len() + 1
                &&& datasets.deep_view()[0] == self.dataset@
                &&& forall|i: int|
                    0 <= i < others@.len() ==> #[trigger] datasets.deep_view()[i + 1]
                        == others@[i].dataset@
            },
    {
        let mut datasets: Vec<String> = Vec::new();
        datasets.push(self.dataset.clone());
        let mut i: usize = 0;
        while i < others.len()
            invariant
                i <= others@.len(),
                datasets.deep_view().len() == i + 1,
                datasets.deep_view()[0] == self.dataset@,
                forall|j: int|
                    0 <= j < i ==> #[trigger] datasets.deep_view()[j + 1] == others@[j].dataset@,
            decreases others@.len() - i,
        {
            let ghost before = datasets.deep_view();
            datasets.push(others[i].dataset.clone());
            proof {
                assert forall|j: int|
                    0 <= j < datasets@.len() implies #[trigger] datasets.deep_view()[j] == (
                    if j < before.len() {
                        before[j]
                    } else {
                        others@[i as int].dataset@
                    }) by {
                    assert(datasets.deep_view()[j] == datasets@[j]@);
                }
            }
            i = i + 1;
        }
        DataEvent::Shuffle { datasets }
    }
}

/// A fresh loader over `dataset` with `size` items, positioned at the start.
pub fn create_data_loader(dataset: String, size: u32, total_byte_size: u64) -> (r: DataLoaderImpl)
    ensures
        r.wf(),
        r.dataset == dataset,
        r.size == size,
        r.total_byte_size == total_byte_size,
        r.position == 0,
{
    DataLoaderImpl { dataset, size, total_byte_size, position: 0 }
}

/// A fresh single-item loader over `dataset`, as backs a weights or state
/// loader.
pub fn create_weights_loader(dataset: String, byte_size: u64) -> (r: DataLoaderImpl)
    ensures
        r.wf(),
        r.dataset == dataset,
        r.size == 1,
        r.total_byte_size == byte_size,
        r.position == 0,
{
    create_data_loader(dataset, 1, byte_size)
}

/// The index of the first entry with key `k`, or -1 when no entry has it.
pub open spec fn index_of_key<T>(s: Seq<(u32, T)>, k: u32) -> int
    decreases s.len(),
{
    if s.len() == 0 {
        -1
    } else if s[0].0 == k {
        0
    } else {
        let r = index_of_key(s.drop_first(), k);
        if r == -1 {
            -1
        } else {
            r + 1
        }
    }
}

/// Whether some entry has key `k`.
pub open spec fn has_key<T>(s: Seq<(u32, T)>, k: u32) -> bool {
    index_of_key(s, k) >= 0
}

/// The first index with key `k` really is the first: it carries `k`, lies in
/// range, and no earlier entry carries `k`; and a key reported absent is
/// absent.
pub proof fn lemma_index_of_key<T>(s: Seq<(u32, T)>, k: u32)
    ensures
        index_of_key(s, k) >= 0 ==> {
            &&& index_of_key(s, k) < s.len()
            &&& s[index_of_key(s, k)].0 == k
            &&& forall|j: int| 0 <= j < index_of_key(s, k) ==> (#[trigger] s[j]).0 != k
        },
        index_of_key(s, k) == -1 ==> forall|j: int| 0 <= j < s.len() ==> (#[trigger] s[j]).0 != k,
        index_of_key(s, k) >= -1,
    decreases s.len(),
{
    if s.len() > 0 && s[0].0 != k {
        lemma_index_of_key(s.drop_first(), k);
        let r = index_of_key(s.drop_first(), k);
        if r >= 0 {
            assert(s[r + 1] == s.drop_first()[r]);
            assert forall|j: int| 0 <= j < index_of_key(s, k) implies (#[trigger] s[j]).0
                != k by {
                if j > 0 {
                    assert(s[j] == s.drop_first()[j - 1]);
                }
            }
        } else {
            assert forall|j: int| 0 <= j < s.len() implies (#[trigger] s[j]).0 != k by {
                if j > 0 {
                    assert(s[j] == s.drop_first()[j - 1]);
                }
            }
        }
    }
}

/// The request table: per outstanding request id, the callback its reply
/// must fire, plus the monotonic id counter.
pub struct DataLoaderManager<T> {
    pub waiting: Vec<(u32, T)>,
    pub id_counter: u32,
}

impl<T> DataLoaderManager<T> {
    /// Every outstanding id is below the counter, and no id occurs twice.
    pub open spec fn wf(self) -> bool {
        &&& forall|i: int|
            0 <= i < self.waiting@.len() ==> (#[trigger] self.waiting@[i]).0 < self.id_counter
        &&& forall|i: int, j: int|
            0 <= i < j < self.waiting@.len() ==> self.waiting@[i].0 != self.waiting@[j].0
    }

    /// A fresh manager with no outstanding requests.
    pub fn new() -> (r: DataLoaderManager<T>)
        ensures
            r.wf(),
            r.waiting@ == Seq::<(u32, T)>::empty(),
            r.id_counter == 0,
    {
        DataLoaderManager { waiting: Vec::new(), id_counter: 0 }
    }

    /// Allocates a fresh request id and records the reply callback under it.
    /// The counter is monotonic; a session never wraps it.
    pub fn alloc_request(&mut self, cb: T) -> (r: u32)
        requires
            old(self).wf(),
            old(self).id_counter < u32::MAX,
        ensures
            final (self).wf(),
            r == old(self).id_counter,
            final (self).id_counter == old(self).id_counter + 1,
            final (self).waiting@ == old(self).waiting@.push((r, cb)),
    {
        let id = self.id_counter;
        self.id_counter = self.id_counter + 1;
        self.waiting.push((id, cb));
        id
    }

    /// Takes the callback recorded under `request_id`, removing it. A reply
    /// for an unknown or already-served id yields nothing and changes
    /// nothing.
    pub fn provide_data(&mut self, request_id: u32) -> (r: Option<T>)
        requires
            old(self).wf(),
        ensures
            final (self).wf(),
            final (self).id_counter == old(self).id_counter,
            !has_key(old(self).waiting@, request_id) ==> r is None && *final (self) == *old(self),
            has_key(old(self).waiting@, request_id) ==> {
                let i = index_of_key(old(self).waiting@, request_id);
                &&& r matches Some(cb) && cb == old(self).waiting@[i].1
                &&& final (self).waiting@ == old(self).waiting@.remove(i)
            },
    {
        proof {
            lemma_index_of_key(old(self).waiting@, request_id);
        }
        let mut i: usize = 0;
        while i < self.waiting.len()
            invariant
                self == old(self),
                self.wf(),
                i <= self.waiting@.len(),
                forall|j: int| 0 <= j < i ==> (#[trigger] self.waiting@[j]).0 != request_id,
            decreases self.waiting@.len() - i,
        {
            if self.waiting[i].0 == request_id {
                let ghost ix = i as int;
                let ghost w0 = old(self).waiting@;
                proof {
                    lemma_index_of_key_unique(self.waiting@, request_id, ix);
                    assert(0 <= ix < w0.len());
                }
                let (_, cb) = self.waiting.remove(i);
                proof {
                    let w1 = self.waiting@;
                    assert(w1 == w0.remove(ix));
                    assert forall|a: int| 0 <= a < w1.len() implies (#[trigger] w1[a]).0 < self.id_counter by {
                        if a < ix {
                            assert(w1[a] == w0[a]);
                        } else {
                            assert(w1[a] == w0[a + 1]);
                        }
                    }
                    assert forall|a: int, b: int| 0 <= a < b < w1.len() implies w1[a].0
                        != w1[b].0 by {
                        if a < ix {
                            assert(w1[a] == w0[a]);
                        } else {
                            assert(w1[a] == w0[a + 1]);
                        }
                        if b < ix {
                            assert(w1[b] == w0[b]);
                        } else {
                            assert(w1[b] == w0[b + 1]);
                        }
                    }
                }
                return Some(cb);
            }
            i = i + 1;
        }
        proof {
            if has_key(old(self).waiting@, request_id) {
                let ix = index_of_key(old(self).waiting@, request_id);
                assert(old(self).waiting@[ix].0 == request_id);
            }
        }
        None
    }
}

/// An in-range entry carrying `k`, with no earlier entry carrying `k`, sits
/// exactly at the first index with key `k`.
proof fn lemma_index_of_key_unique<T>(s: Seq<(u32, T)>, k: u32, i: int)
    requires
        0 <= i < s.len(),
        s[i].0 == k,
        forall|j: int| 0 <= j < i ==> (#[trigger] s[j]).0 != k,
    ensures
        index_of_key(s, k) == i,
    decreases i,
{
    if i == 0 {
    } else {
        assert(s[0].0 != k);
        lemma_index_of_key_unique(s.drop_first(), k, i - 1);
        assert(forall|j: int| 1 <= j < s.len() ==> s[j] == #[trigger] s.drop_first()[j - 1]);
    }
}

} // verus!
