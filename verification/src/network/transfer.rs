//! Moving a partition to another node. A transfer is registered as
//! preparing, then transferring while the partition's log is streamed in
//! batches of at most a thousand messages, then verifying while the two
//! sides compare hashes, and ends completed or failed.
use vstd::prelude::*;
use vstd::string::*;
use crate::rafka_core::Error;
use crate::network::p2p::NodeInfo;
use crate::platform::now_unix_nanos;

verus! {

#[derive(Clone, Debug, PartialEq, Eq)]
pub enum TransferStatus {
    Preparing,
    Transferring,
    Verifying,
    Completed,
    Failed(String),
}

/// One transfer; `started_at` is in nanoseconds since the UNIX epoch.
#[derive(Debug)]
pub struct TransferState {
    pub partition_id: u32,
    pub source_node: NodeInfo,
    pub target_node: NodeInfo,
    pub start_offset: u64,
    pub current_offset: u64,
    pub status: TransferStatus,
    pub started_at: u128,
}

/// The span of offsets that a partition's log holds.
#[derive(Clone, Copy, Debug, PartialEq, Eq, Structural)]
pub struct PartitionLog {
    pub start_offset: u64,
    pub current_offset: u64,
}

/// The number of messages streamed at a time.
pub const BATCH_SIZE: u64 = 1000;

/// The batches that stream the offsets from `start` up to `end`: each
/// starts where the last ended and holds at most `BATCH_SIZE` messages.
pub open spec fn batches(start: int, end: int) -> Seq<(u64, u64)>
    decreases end - start,
{
    if start >= end {
        Seq::empty()
    } else {
        let n = if end - start < BATCH_SIZE { end - start } else { BATCH_SIZE as int };
        seq![(start as u64, n as u64)] + batches(start + n, end)
    }
}

/// The batches cover the offsets from `start` up to `end` exactly, in
/// order and without gaps, each with between one and `BATCH_SIZE`
/// messages.
pub proof fn lemma_batches_cover(start: int, end: int)
    requires
        0 <= start <= end <= u64::MAX,
    ensures
        batches(start, end).len() == 0 <==> start == end,
        batches(start, end).len() > 0 ==> batches(start, end)[0].0 == start,
        forall|i: int| 0 <= i < batches(start, end).len() ==> 1 <= (#[trigger] batches(start, end)[i]).1 <= BATCH_SIZE,
        forall|i: int| 0 <= i < batches(start, end).len() - 1 ==>
            (#[trigger] batches(start, end)[i]).0 + batches(start, end)[i].1 == batches(start, end)[i + 1].0,
        batches(start, end).len() > 0 ==> batches(start, end).last().0 + batches(start, end).last().1 == end,
    decreases end - start,
{
    if start < end {
        let n = if end - start < BATCH_SIZE { end - start } else { BATCH_SIZE as int };
        lemma_batches_cover(start + n, end);
        let rest = batches(start + n, end);
        let b = batches(start, end);
        assert(b == seq![(start as u64, n as u64)] + rest);
        assert forall|i: int| 0 <= i < b.len() implies 1 <= (#[trigger] b[i]).1 <= BATCH_SIZE by {
            if i > 0 {
                assert(b[i] == rest[i - 1]);
            }
        }
        assert forall|i: int| 0 <= i < b.len() - 1 implies (#[trigger] b[i]).0 + b[i].1 == b[i + 1].0 by {
            if i > 0 {
                assert(b[i] == rest[i - 1]);
            }
            assert(b[i + 1] == rest[i]);
        }
        if rest.len() > 0 {
            assert(b.last() == rest.last());
        }
    }
}

/// The transfers, by partition.
pub uninterp spec fn transfer_table(m: dashmap::DashMap<u32, TransferState>) -> Map<u32, TransferState>;

/// The logs, by partition.
pub uninterp spec fn log_table(m: dashmap::DashMap<u32, PartitionLog>) -> Map<u32, PartitionLog>;

/// `DashMap::new` for the transfers.
#[verifier::external_body]
fn new_transfer_table() -> (m: dashmap::DashMap<u32, TransferState>)
    ensures
        transfer_table(m).dom() == Set::<u32>::empty(),
{
    dashmap::DashMap::new()
}

/// `DashMap::insert` for the transfers.
#[verifier::external_body]
fn transfer_put(m: &mut dashmap::DashMap<u32, TransferState>, p: u32, t: TransferState)
    ensures
        transfer_table(*final(m)) == transfer_table(*old(m)).insert(p, t),
{
    m.insert(p, t);
}

/// `DashMap::remove` for the transfers.
#[verifier::external_body]
fn transfer_take(m: &mut dashmap::DashMap<u32, TransferState>, p: u32) -> (r: Option<TransferState>)
    ensures
        transfer_table(*final(m)) == transfer_table(*old(m)).remove(p),
        match r {
            Some(t) => transfer_table(*old(m)).contains_key(p) && t == transfer_table(*old(m))[p],
            None => !transfer_table(*old(m)).contains_key(p),
        },
{
    m.remove(&p).map(|entry| entry.1)
}

/// `DashMap::new` for the logs.
#[verifier::external_body]
fn new_log_table() -> (m: dashmap::DashMap<u32, PartitionLog>)
    ensures
        log_table(m).dom() == Set::<u32>::empty(),
{
    dashmap::DashMap::new()
}

/// `DashMap::insert` for the logs.
#[verifier::external_body]
fn log_put(m: &mut dashmap::DashMap<u32, PartitionLog>, p: u32, l: PartitionLog)
    ensures
        log_table(*final(m)) == log_table(*old(m)).insert(p, l),
{
    m.insert(p, l);
}

/// `DashMap::get` for the logs, copied out of the map.
#[verifier::external_body]
fn log_get(m: &dashmap::DashMap<u32, PartitionLog>, p: u32) -> (r: Option<PartitionLog>)
    ensures
        match r {
            Some(l) => log_table(*m).contains_key(p) && l == log_table(*m)[p],
            None => !log_table(*m).contains_key(p),
        },
{
    m.get(&p).map(|e| *e.value())
}

/// The error for a partition without a transfer.
fn transfer_not_found() -> (e: Error)
    ensures
        e matches Error::Transfer(t) && t@ == "Transfer not found"@,
{
    proof { reveal_strlit("Transfer not found"); }
    Error::Transfer(String::from_str("Transfer not found"))
}

/// The error for a partition without a log.
fn log_not_found() -> (e: Error)
    ensures
        e matches Error::Transfer(t) && t@ == "Partition log not found"@,
{
    proof { reveal_strlit("Partition log not found"); }
    Error::Transfer(String::from_str("Partition log not found"))
}

pub struct PartitionTransferManager {
    pub node_id: String,
    pub active_transfers: dashmap::DashMap<u32, TransferState>,
    pub partition_logs: dashmap::DashMap<u32, PartitionLog>,
}

impl PartitionTransferManager {
    pub open spec fn transfers(&self) -> Map<u32, TransferState> {
        transfer_table(self.active_transfers)
    }

    pub open spec fn logs(&self) -> Map<u32, PartitionLog> {
        log_table(self.partition_logs)
    }

    /// Whether `p`'s transfer, if any, changed only in its status.
    pub open spec fn status_changed(&self, before: Map<u32, TransferState>, p: u32, status: TransferStatus) -> bool {
        &&& self.transfers().dom() == before.dom()
        &&& forall|q: u32| q != p && #[trigger] before.contains_key(q) ==> self.transfers()[q] == before[q]
        &&& self.transfers()[p] == (TransferState { status, ..before[p] })
    }

    pub fn new(node_id: String) -> (m: PartitionTransferManager)
        ensures
            m.node_id == node_id,
            m.transfers().dom() == Set::<u32>::empty(),
            m.logs().dom() == Set::<u32>::empty(),
    {
        PartitionTransferManager { node_id, active_transfers: new_transfer_table(), partition_logs: new_log_table() }
    }

    /// Records the span of the log of a partition held here.
    pub fn add_partition_log(&mut self, partition_id: u32, log: PartitionLog)
        ensures
            final(self).logs() == old(self).logs().insert(partition_id, log),
            final(self).transfers() == old(self).transfers(),
            final(self).node_id == old(self).node_id,
    {
        log_put(&mut self.partition_logs, partition_id, log);
    }

    /// Where the log of a partition ends; `Transfer("Partition log not
    /// found")` when this node holds no log of it.
    pub fn get_partition_offset(&self, partition_id: u32) -> (r: Result<u64, Error>)
        ensures
            self.logs().contains_key(partition_id) ==> r == Ok::<u64, Error>(self.logs()[partition_id].current_offset),
            !self.logs().contains_key(partition_id) ==> (r matches Err(Error::Transfer(t)) && t@ == "Partition log not found"@),
    {
        match log_get(&self.partition_logs, partition_id) {
            Some(l) => Ok(l.current_offset),
            None => Err(log_not_found()),
        }
    }

    /// Registers the transfer of a partition from this node to
    /// `target_node`, preparing, from the offset where the partition's log
    /// ends. A partition without a log here is an error and registers
    /// nothing.
    pub fn initiate_transfer(&mut self, partition_id: u32, target_node: NodeInfo) -> (r: Result<(), Error>)
        ensures
            final(self).logs() == old(self).logs(),
            final(self).node_id == old(self).node_id,
            old(self).logs().contains_key(partition_id) ==> {
                let t = final(self).transfers()[partition_id];
                &&& r == Ok::<(), Error>(())
                &&& final(self).transfers().dom() == old(self).transfers().dom().insert(partition_id)
                &&& forall|q: u32| q != partition_id && #[trigger] old(self).transfers().contains_key(q)
                    ==> final(self).transfers()[q] == old(self).transfers()[q]
                &&& t.partition_id == partition_id
                &&& t.source_node.id == old(self).node_id
                &&& t.target_node == target_node
                &&& t.start_offset == old(self).logs()[partition_id].current_offset
                &&& t.current_offset == 0
                &&& t.status == TransferStatus::Preparing
            },
            !old(self).logs().contains_key(partition_id) ==> {
                &&& r matches Err(Error::Transfer(t)) && t@ == "Partition log not found"@
                &&& final(self).transfers() == old(self).transfers()
            },
    {
        let start_offset = match self.get_partition_offset(partition_id) {
            Ok(o) => o,
            Err(e) => {
                return Err(e);
            },
        };
        let mut source_node = NodeInfo::default();
        source_node.id = self.node_id.clone();
        let transfer = TransferState {
            partition_id,
            source_node,
            target_node,
            start_offset,
            current_offset: 0,
            status: TransferStatus::Preparing,
            started_at: now_unix_nanos(),
        };
        transfer_put(&mut self.active_transfers, partition_id, transfer);
        Ok(())
    }

    /// Sets the status of `p`'s transfer, which must exist.
    fn set_status(&mut self, p: u32, status: TransferStatus) -> (r: Result<(), Error>)
        ensures
            final(self).logs() == old(self).logs(),
            final(self).node_id == old(self).node_id,
            old(self).transfers().contains_key(p) ==> r is Ok && final(self).status_changed(old(self).transfers(), p, status),
            !old(self).transfers().contains_key(p) ==> {
                &&& r matches Err(Error::Transfer(t)) && t@ == "Transfer not found"@
                &&& final(self).transfers() == old(self).transfers()
            },
    {
        match transfer_take(&mut self.active_transfers, p) {
            Some(t) => {
                let mut t = t;
                t.status = status;
                transfer_put(&mut self.active_transfers, p, t);
                assert(self.transfers().dom() =~= old(self).transfers().dom());
                Ok(())
            },
            None => Err(transfer_not_found()),
        }
    }

    /// Starts streaming: the transfer becomes `Transferring` once writes to
    /// the partition are paused. An unknown transfer is
    /// `Transfer("Transfer not found")`.
    pub fn prepare_transfer(&mut self, partition_id: u32) -> (r: Result<(), Error>)
        ensures
            final(self).logs() == old(self).logs(),
            old(self).transfers().contains_key(partition_id) ==> r is Ok
                && final(self).status_changed(old(self).transfers(), partition_id, TransferStatus::Transferring),
            !old(self).transfers().contains_key(partition_id) ==> {
                &&& r matches Err(Error::Transfer(t)) && t@ == "Transfer not found"@
                &&& final(self).transfers() == old(self).transfers()
            },
    {
        self.set_status(partition_id, TransferStatus::Transferring)
    }

    /// The batches in which the partition's log is streamed: from its start
    /// to its end, at most `BATCH_SIZE` messages each. A partition without a
    /// log here is `Transfer("Partition log not found")`.
    pub fn stream_batches(&self, partition_id: u32) -> (r: Result<Vec<(u64, u64)>, Error>)
        ensures
            self.logs().contains_key(partition_id) ==> (r matches Ok(v)
                && v@ == batches(self.logs()[partition_id].start_offset as int, self.logs()[partition_id].current_offset as int)),
            !self.logs().contains_key(partition_id) ==> (r matches Err(Error::Transfer(t)) && t@ == "Partition log not found"@),
    {
        let log = match log_get(&self.partition_logs, partition_id) {
            Some(l) => l,
            None => {
                return Err(log_not_found());
            },
        };
        let end = log.current_offset;
        let mut offset = log.start_offset;
        let mut out: Vec<(u64, u64)> = Vec::new();
        while offset < end
            invariant
                out@ + batches(offset as int, end as int) == batches(log.start_offset as int, end as int),
            decreases end - offset,
        {
            let n: u64 = if end - offset < BATCH_SIZE { end - offset } else { BATCH_SIZE };
            let ghost rest = batches(offset as int, end as int);
            assert(rest == seq![(offset, n)] + batches(offset + n, end as int));
            out.push((offset, n));
            offset = offset + n;
            assert(out@ + batches(offset as int, end as int) =~= batches(log.start_offset as int, end as int));
        }
        assert(out@ + batches(offset as int, end as int) =~= out@);
        Ok(out)
    }

    /// Records that the batch starting at `offset` was sent; an unknown
    /// transfer is left alone.
    pub fn record_progress(&mut self, partition_id: u32, offset: u64)
        ensures
            final(self).logs() == old(self).logs(),
            final(self).transfers().dom() == old(self).transfers().dom(),
            forall|q: u32| q != partition_id && #[trigger] old(self).transfers().contains_key(q)
                ==> final(self).transfers()[q] == old(self).transfers()[q],
            old(self).transfers().contains_key(partition_id) ==> final(self).transfers()[partition_id]
                == (TransferState { current_offset: offset, ..old(self).transfers()[partition_id] }),
    {
        match transfer_take(&mut self.active_transfers, partition_id) {
            Some(t) => {
                let mut t = t;
                t.current_offset = offset;
                transfer_put(&mut self.active_transfers, partition_id, t);
                assert(self.transfers().dom() =~= old(self).transfers().dom());
            },
            None => {
                assert(self.transfers() =~= old(self).transfers());
            },
        }
    }

    /// Compares the hash of the partition here with the one the target
    /// computed: the transfer becomes `Verifying`, and on a mismatch
    /// `Failed("Hash mismatch")` with the error `Transfer("Transfer
    /// verification failed")`. An unknown transfer is `Transfer("Transfer
    /// not found")`.
    pub fn verify_transfer(&mut self, partition_id: u32, source_hash: u64, target_hash: u64) -> (r: Result<(), Error>)
        ensures
            final(self).logs() == old(self).logs(),
            !old(self).transfers().contains_key(partition_id) ==> {
                &&& r matches Err(Error::Transfer(t)) && t@ == "Transfer not found"@
                &&& final(self).transfers() == old(self).transfers()
            },
            old(self).transfers().contains_key(partition_id) && source_hash == target_hash ==> r is Ok
                && final(self).status_changed(old(self).transfers(), partition_id, TransferStatus::Verifying),
            old(self).transfers().contains_key(partition_id) && source_hash != target_hash ==> {
                &&& r matches Err(Error::Transfer(t)) && t@ == "Transfer verification failed"@
                &&& final(self).transfers()[partition_id].status matches TransferStatus::Failed(s) && s@ == "Hash mismatch"@
                &&& final(self).status_changed(old(self).transfers(), partition_id, final(self).transfers()[partition_id].status)
            },
    {
        match self.set_status(partition_id, TransferStatus::Verifying) {
            Ok(()) => {},
            Err(e) => {
                return Err(e);
            },
        }
        if source_hash != target_hash {
            proof { reveal_strlit("Hash mismatch"); }
            let failed = TransferStatus::Failed(String::from_str("Hash mismatch"));
            let _ = self.set_status(partition_id, failed);
            proof { reveal_strlit("Transfer verification failed"); }
            return Err(Error::Transfer(String::from_str("Transfer verification failed")));
        }
        Ok(())
    }

    /// Ends the transfer once ownership moved and writes resumed on the new
    /// owner: it becomes `Completed`. An unknown transfer is
    /// `Transfer("Transfer not found")`.
    pub fn complete_transfer(&mut self, partition_id: u32) -> (r: Result<(), Error>)
        ensures
            final(self).logs() == old(self).logs(),
            old(self).transfers().contains_key(partition_id) ==> r is Ok
                && final(self).status_changed(old(self).transfers(), partition_id, TransferStatus::Completed),
            !old(self).transfers().contains_key(partition_id) ==> {
                &&& r matches Err(Error::Transfer(t)) && t@ == "Transfer not found"@
                &&& final(self).transfers() == old(self).transfers()
            },
    {
        self.set_status(partition_id, TransferStatus::Completed)
    }
}

} // verus!
