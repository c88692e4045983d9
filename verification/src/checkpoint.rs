//! Checkpoints of ledger state, kept as a stack.
//!
//! A checkpoint captures the contract data of a test environment and files it
//! under a [`CheckpointId`]. Rolling back to a checkpoint discards every
//! checkpoint taken after it but keeps the checkpoint itself, so one point can be
//! rolled back to repeatedly; releasing a checkpoint discards it and everything
//! after it. An id from another environment, or one already discarded, is
//! refused.
//!
//! The stack is generic over what a checkpoint holds; the environment decides
//! what to capture and how to restore it.
use vstd::prelude::*;
use crate::text::{decimal, push_u64};
use crate::event_topic_match::bytes_eq;

verus! {

/// A handle to a ledger state checkpoint.
///
/// Ids are unique within one environment and are not transferable between
/// environments.
#[derive(Debug, Clone, Copy, PartialEq, Eq, Structural, PartialOrd, Ord, Hash)]
pub struct CheckpointId {
    /// Identifies the owning environment, so that foreign ids can be rejected.
    pub env_id: u64,
    /// Position within that environment, increasing with each checkpoint.
    pub seq: u64,
}

/// `checkpoint#<seq>`.
pub open spec fn id_text(id: CheckpointId) -> Seq<char> {
    "checkpoint#"@ + decimal(id.seq as nat)
}

impl CheckpointId {
    /// The sequence number of this checkpoint within its environment.
    pub fn sequence(&self) -> (r: u64)
        ensures
            r == self.seq,
    {
        self.seq
    }

    /// The id rendered for reading: `checkpoint#<seq>`.
    pub fn to_display_string(&self) -> (r: String)
        ensures
            r@ == id_text(*self),
    {
        let mut out = String::from_str("checkpoint#");
        push_u64(&mut out, self.seq);
        out
    }
}

/// How many entries of each kind a checkpoint captured.
#[derive(Debug, Clone, Copy, PartialEq, Eq, Default)]
pub struct CheckpointStats {
    /// Contract instance entries.
    pub instance: usize,
    /// Persistent contract data entries.
    pub persistent: usize,
    /// Temporary contract data entries.
    pub temporary: usize,
    /// Entries that are not contract data, such as accounts.
    pub other: usize,
}

/// The kind of a captured ledger entry.
#[derive(Debug, Clone, Copy, PartialEq, Eq, Structural)]
pub enum EntryKind {
    Instance,
    Persistent,
    Temporary,
    Other,
}

/// The kind of a ledger entry, from what its key says: whether it is contract
/// data, whether that data is persistent, and whether the key is the contract
/// instance key.
pub open spec fn kind_of(contract_data: bool, persistent: bool, instance_key: bool) -> EntryKind {
    if !contract_data {
        EntryKind::Other
    } else if !persistent {
        EntryKind::Temporary
    } else if instance_key {
        EntryKind::Instance
    } else {
        EntryKind::Persistent
    }
}

/// The kind of a ledger entry, as `kind_of` says.
pub fn entry_kind(contract_data: bool, persistent: bool, instance_key: bool) -> (r: EntryKind)
    ensures
        r == kind_of(contract_data, persistent, instance_key),
{
    if !contract_data {
        EntryKind::Other
    } else if !persistent {
        EntryKind::Temporary
    } else if instance_key {
        EntryKind::Instance
    } else {
        EntryKind::Persistent
    }
}

/// The positions, in order, of the keys in `current` that `captured` does not
/// hold: the entries a rollback to `captured` removes.
pub open spec fn stale_positions(current: Seq<Seq<u8>>, captured: Seq<Seq<u8>>) -> Seq<int>
    decreases current.len(),
{
    if current.len() == 0 {
        Seq::empty()
    } else {
        let rest = stale_positions(current.drop_last(), captured);
        if captured.contains(current.last()) {
            rest
        } else {
            rest.push(current.len() - 1)
        }
    }
}

/// The stale positions are exactly the positions of `current` whose key no
/// key of `captured` equals byte for byte, each once and in increasing order.
pub proof fn lemma_stale_positions_exact(current: Seq<Seq<u8>>, captured: Seq<Seq<u8>>)
    ensures
        forall|p: int|
            0 <= p < current.len() ==> (#[trigger] stale_positions(current, captured).contains(p)
                <==> !(exists|k: int| 0 <= k < captured.len() && #[trigger] captured[k] == current[p])),
        forall|i: int|
            0 <= i < stale_positions(current, captured).len() ==> 0 <= #[trigger] stale_positions(
                current,
                captured,
            )[i] < current.len(),
        forall|i: int, j: int|
            0 <= i < j < stale_positions(current, captured).len() ==> #[trigger] stale_positions(
                current,
                captured,
            )[i] < #[trigger] stale_positions(current, captured)[j],
    decreases current.len(),
{
    if current.len() > 0 {
        let init = current.drop_last();
        let rest = stale_positions(init, captured);
        let n = current.len() - 1;
        lemma_stale_positions_exact(init, captured);
        let held = captured.contains(current.last());
        assert(held <==> exists|k: int| 0 <= k < captured.len() && #[trigger] captured[k]
            == current[n]);
        let sp = stale_positions(current, captured);
        assert forall|p: int| 0 <= p < current.len() implies (#[trigger] sp.contains(p) <==> !(exists|
            k: int,
        | 0 <= k < captured.len() && #[trigger] captured[k] == current[p])) by {
            if p < n {
                assert(init[p] == current[p]);
                if sp.contains(p) {
                    let w = choose|w: int| 0 <= w < sp.len() && sp[w] == p;
                    if !held && w == rest.len() {
                        assert(sp[w] == n);
                    } else {
                        assert(sp[w] == rest[w]);
                        assert(rest.contains(p));
                    }
                }
                if rest.contains(p) {
                    let w = choose|w: int| 0 <= w < rest.len() && rest[w] == p;
                    assert(sp[w] == rest[w]);
                    assert(sp.contains(p));
                }
            } else {
                if !held {
                    assert(sp[rest.len() as int] == n);
                    assert(sp.contains(p));
                } else {
                    if sp.contains(p) {
                        let w = choose|w: int| 0 <= w < sp.len() && sp[w] == p;
                        assert(sp[w] == rest[w]);
                    }
                }
            }
        }
    }
}

fn holds_key(keys: &Vec<Vec<u8>>, key: &Vec<u8>) -> (r: bool)
    ensures
        r == keys@.map_values(|k: Vec<u8>| k@).contains(key@),
{
    let ghost views = keys@.map_values(|k: Vec<u8>| k@);
    let mut i: usize = 0;
    while i < keys.len()
        invariant
            views == keys@.map_values(|k: Vec<u8>| k@),
            i <= keys@.len(),
            forall|j: int| 0 <= j < i ==> views[j] != key@,
        decreases keys@.len() - i,
    {
        if bytes_eq(&keys[i], key) {
            proof {
                assert(views[i as int] == key@);
            }
            return true;
        }
        i = i + 1;
    }
    false
}

/// The positions, in order, of the keys (by their encoded bytes) in `current`
/// that `captured` does not hold: the entries a rollback to `captured` removes.
pub fn stale_keys(current: &Vec<Vec<u8>>, captured: &Vec<Vec<u8>>) -> (r: Vec<usize>)
    ensures
        r@.map_values(|p: usize| p as int) == stale_positions(
            current@.map_values(|k: Vec<u8>| k@),
            captured@.map_values(|k: Vec<u8>| k@),
        ),
{
    let ghost cur = current@.map_values(|k: Vec<u8>| k@);
    let ghost cap = captured@.map_values(|k: Vec<u8>| k@);
    let mut out: Vec<usize> = Vec::new();
    let mut i: usize = 0;
    proof {
        assert(cur.take(0).len() == 0);
        assert(out@.map_values(|p: usize| p as int) =~= stale_positions(cur.take(0), cap));
    }
    while i < current.len()
        invariant
            cur == current@.map_values(|k: Vec<u8>| k@),
            cap == captured@.map_values(|k: Vec<u8>| k@),
            i <= current@.len(),
            out@.map_values(|p: usize| p as int) == stale_positions(cur.take(i as int), cap),
        decreases current@.len() - i,
    {
        let ghost before = out@;
        let held = holds_key(captured, &current[i]);
        proof {
            assert(cur.take(i + 1).drop_last() =~= cur.take(i as int));
            assert(cur.take(i + 1).last() == current@[i as int]@);
        }
        if !held {
            out.push(i);
            proof {
                assert(out@.map_values(|p: usize| p as int) =~= before.map_values(|p: usize| p as int).push(i as int));
            }
        }
        i = i + 1;
    }
    proof {
        assert(cur.take(current@.len() as int) =~= cur);
    }
    out
}

/// How many of `kinds` are `k`.
pub open spec fn count_kind(kinds: Seq<EntryKind>, k: EntryKind) -> nat
    decreases kinds.len(),
{
    if kinds.len() == 0 {
        0
    } else {
        count_kind(kinds.drop_last(), k) + (if kinds.last() == k {
            1nat
        } else {
            0nat
        })
    }
}

proof fn lemma_count_kind_bounded(kinds: Seq<EntryKind>, k: EntryKind)
    ensures
        count_kind(kinds, k) <= kinds.len(),
    decreases kinds.len(),
{
    if kinds.len() > 0 {
        lemma_count_kind_bounded(kinds.drop_last(), k);
    }
}

/// The counts of the four kinds add up to the number of entries.
pub proof fn lemma_counts_cover_all(kinds: Seq<EntryKind>)
    ensures
        count_kind(kinds, EntryKind::Instance) + count_kind(kinds, EntryKind::Persistent)
            + count_kind(kinds, EntryKind::Temporary) + count_kind(kinds, EntryKind::Other)
            == kinds.len(),
    decreases kinds.len(),
{
    if kinds.len() > 0 {
        lemma_counts_cover_all(kinds.drop_last());
    }
}

impl CheckpointStats {
    /// Total number of captured entries.
    pub fn total(&self) -> (r: usize)
        requires
            self.instance + self.persistent + self.temporary + self.other <= usize::MAX,
        ensures
            r == self.instance + self.persistent + self.temporary + self.other,
    {
        self.instance + self.persistent + self.temporary + self.other
    }

    /// The counts, by kind, of the entries a checkpoint captured.
    pub fn tally(kinds: &[EntryKind]) -> (r: Self)
        ensures
            r.instance == count_kind(kinds@, EntryKind::Instance),
            r.persistent == count_kind(kinds@, EntryKind::Persistent),
            r.temporary == count_kind(kinds@, EntryKind::Temporary),
            r.other == count_kind(kinds@, EntryKind::Other),
    {
        let mut stats = CheckpointStats { instance: 0, persistent: 0, temporary: 0, other: 0 };
        let mut i: usize = 0;
        while i < kinds.len()
            invariant
                i <= kinds@.len(),
                stats.instance == count_kind(kinds@.take(i as int), EntryKind::Instance),
                stats.persistent == count_kind(kinds@.take(i as int), EntryKind::Persistent),
                stats.temporary == count_kind(kinds@.take(i as int), EntryKind::Temporary),
                stats.other == count_kind(kinds@.take(i as int), EntryKind::Other),
            decreases kinds@.len() - i,
        {
            proof {
                let t = kinds@.take(i + 1);
                assert(t.drop_last() =~= kinds@.take(i as int));
                lemma_count_kind_bounded(kinds@.take(i as int), kinds@[i as int]);
            }
            match kinds[i] {
                EntryKind::Instance => stats.instance = stats.instance + 1,
                EntryKind::Persistent => stats.persistent = stats.persistent + 1,
                EntryKind::Temporary => stats.temporary = stats.temporary + 1,
                EntryKind::Other => stats.other = stats.other + 1,
            }
            i = i + 1;
        }
        proof {
            assert(kinds@.take(kinds@.len() as int) =~= kinds@);
        }
        stats
    }
}

/// Why a checkpoint id was refused.
#[derive(Debug, Clone, PartialEq, Eq)]
pub enum CheckpointError {
    /// The id belongs to another environment.
    ForeignEnvironment { id: CheckpointId },
    /// The id was discarded by a rollback to an earlier checkpoint, or
    /// released; `live` holds the sequence numbers of the live checkpoints.
    Discarded { id: CheckpointId, live: Vec<u64> },
}

/// `[a, b, c]`: a list of numbers as `Debug` renders it.
pub open spec fn numbers_text(ns: Seq<u64>) -> Seq<char> {
    "["@ + numbers_joined(ns) + "]"@
}

pub open spec fn numbers_joined(ns: Seq<u64>) -> Seq<char>
    decreases ns.len(),
{
    if ns.len() == 0 {
        seq![]
    } else if ns.len() == 1 {
        decimal(ns[0] as nat)
    } else {
        numbers_joined(ns.drop_last()) + ", "@ + decimal(ns.last() as nat)
    }
}

pub open spec fn checkpoint_error_text(e: CheckpointError) -> Seq<char> {
    match e {
        CheckpointError::ForeignEnvironment { id } => id_text(id)
            + " belongs to a different MockEnv. Checkpoint ids are not transferable between environments, including across `fork()`."@,
        CheckpointError::Discarded { id, live } => id_text(id)
            + " is no longer valid: it was discarded by a rollback to an earlier checkpoint, or released. Live checkpoints: "@
            + numbers_text(live@) + "."@,
    }
}

impl CheckpointError {
    /// The error as a sentence.
    pub fn message(&self) -> (r: String)
        ensures
            r@ == checkpoint_error_text(*self),
    {
        match self {
            CheckpointError::ForeignEnvironment { id } => {
                let mut out = id.to_display_string();
                out.append(
                    " belongs to a different MockEnv. Checkpoint ids are not transferable between environments, including across `fork()`.",
                );
                out
            },
            CheckpointError::Discarded { id, live } => {
                let mut out = id.to_display_string();
                out.append(
                    " is no longer valid: it was discarded by a rollback to an earlier checkpoint, or released. Live checkpoints: ",
                );
                let ghost head = out@;
                out.append("[");
                let mut i: usize = 0;
                while i < live.len()
                    invariant
                        i <= live@.len(),
                        out@ == head + "["@ + numbers_joined(live@.take(i as int)),
                    decreases live@.len() - i,
                {
                    let ghost before = out@;
                    if i > 0 {
                        out.append(", ");
                    }
                    push_u64(&mut out, live[i]);
                    proof {
                        let t = live@.take(i + 1);
                        assert(t.drop_last() =~= live@.take(i as int));
                        if i == 0 {
                            assert(t[0] == live@[0]);
                            assert(numbers_joined(live@.take(0)) =~= Seq::<char>::empty());
                        }
                        assert(out@ =~= head + "["@ + numbers_joined(t));
                    }
                    i = i + 1;
                }
                proof {
                    assert(live@.take(live@.len() as int) =~= live@);
                }
                out.append("]");
                out.append(".");
                proof {
                    assert(out@ =~= checkpoint_error_text(*self));
                }
                out
            },
        }
    }
}

/// One captured state and the id it was filed under.
pub struct Snapshot<E> {
    pub id: CheckpointId,
    pub entries: E,
}

/// The checkpoint stack of one environment, oldest checkpoint first.
pub struct CheckpointStack<E> {
    env_id: u64,
    next_seq: u64,
    snapshots: Vec<Snapshot<E>>,
}

/// Sequence numbers strictly increase along the stack.
pub open spec fn increasing(ids: Seq<CheckpointId>) -> bool {
    forall|i: int, j: int| 0 <= i < j < ids.len() ==> ids[i].seq < ids[j].seq
}

impl<E> CheckpointStack<E> {
    /// The ids of the live checkpoints, oldest first.
    pub closed spec fn ids(self) -> Seq<CheckpointId> {
        self.snapshots@.map_values(|s: Snapshot<E>| s.id)
    }

    /// What each live checkpoint captured, oldest first.
    pub closed spec fn captured(self) -> Seq<E> {
        self.snapshots@.map_values(|s: Snapshot<E>| s.entries)
    }

    /// The environment this stack belongs to.
    pub closed spec fn owner(self) -> u64 {
        self.env_id
    }

    /// The sequence number the next checkpoint will get.
    pub closed spec fn next(self) -> u64 {
        self.next_seq
    }

    /// Every live id belongs to this environment, was handed out already, and
    /// ids are ordered by creation.
    pub closed spec fn wf(self) -> bool {
        &&& increasing(self.ids())
        &&& forall|i: int|
            0 <= i < self.ids().len() ==> (#[trigger] self.ids()[i]).env_id == self.env_id
                && self.ids()[i].seq < self.next_seq
    }

    /// An empty stack owned by environment `env_id`.
    pub fn new(env_id: u64) -> (r: Self)
        ensures
            r.wf(),
            r.owner() == env_id,
            r.next() == 0,
            r.ids().len() == 0,
    {
        let r = CheckpointStack { env_id, next_seq: 0, snapshots: Vec::new() };
        proof {
            assert(r.ids() =~= Seq::<CheckpointId>::empty());
        }
        r
    }

    /// The environment this stack belongs to.
    pub fn env_id(&self) -> (r: u64)
        ensures
            r == self.owner(),
    {
        self.env_id
    }

    /// Number of live checkpoints.
    pub fn depth(&self) -> (r: usize)
        ensures
            r == self.ids().len(),
    {
        self.snapshots.len()
    }

    /// The sequence number the next checkpoint will get.
    pub fn next_sequence(&self) -> (r: u64)
        ensures
            r == self.next(),
    {
        self.next_seq
    }

    /// Files `entries` under a new id and returns the id.
    pub fn capture(&mut self, entries: E) -> (id: CheckpointId)
        requires
            old(self).wf(),
            old(self).next() < u64::MAX,
        ensures
            final(self).wf(),
            id == (CheckpointId { env_id: old(self).owner(), seq: old(self).next() }),
            final(self).ids() == old(self).ids().push(id),
            final(self).captured() == old(self).captured().push(entries),
            final(self).owner() == old(self).owner(),
            final(self).next() == old(self).next() + 1,
    {
        let id = CheckpointId { env_id: self.env_id, seq: self.next_seq };
        self.next_seq = self.next_seq + 1;
        let ghost old_snaps = self.snapshots@;
        self.snapshots.push(Snapshot { id, entries });
        proof {
            assert(self.ids() =~= old(self).ids().push(id));
            assert(self.captured() =~= old(self).captured().push(entries));
            assert forall|i: int| 0 <= i < self.ids().len() implies (#[trigger] self.ids()[i]).env_id
                == self.env_id && self.ids()[i].seq < self.next_seq by {
                if i < old_snaps.len() {
                    assert(self.ids()[i] == old(self).ids()[i]);
                }
            }
        }
        id
    }

    /// Where `id` stands in the stack, or why it is refused.
    pub fn position_of(&self, id: CheckpointId) -> (r: Result<usize, CheckpointError>)
        requires
            self.wf(),
        ensures
            r is Ok <==> (id.env_id == self.owner() && self.ids().contains(id)),
            r matches Ok(p) ==> p < self.ids().len() && self.ids()[p as int] == id,
            r matches Err(CheckpointError::ForeignEnvironment { id: i }) ==> i == id
                && id.env_id != self.owner(),
            r matches Err(CheckpointError::Discarded { id: i, live }) ==> i == id && id.env_id
                == self.owner() && live@ == self.ids().map_values(|c: CheckpointId| c.seq),
    {
        if id.env_id != self.env_id {
            return Err(CheckpointError::ForeignEnvironment { id });
        }
        let mut i: usize = 0;
        while i < self.snapshots.len()
            invariant
                i <= self.ids().len(),
                id.env_id == self.env_id,
                self.ids().len() == self.snapshots@.len(),
                forall|k: int| 0 <= k < i ==> self.ids()[k] != id,
            decreases self.snapshots@.len() - i,
        {
            if self.snapshots[i].id == id {
                proof {
                    assert(self.ids()[i as int] == id);
                    assert(self.ids().contains(id));
                }
                return Ok(i);
            }
            i = i + 1;
        }
        let mut live: Vec<u64> = Vec::new();
        let mut j: usize = 0;
        while j < self.snapshots.len()
            invariant
                j <= self.snapshots@.len(),
                self.ids().len() == self.snapshots@.len(),
                live@ == self.ids().take(j as int).map_values(|c: CheckpointId| c.seq),
            decreases self.snapshots@.len() - j,
        {
            live.push(self.snapshots[j].id.seq);
            proof {
                assert(self.ids().take(j + 1).map_values(|c: CheckpointId| c.seq) =~= self.ids().take(
                    j as int,
                ).map_values(|c: CheckpointId| c.seq).push(self.ids()[j as int].seq));
            }
            j = j + 1;
        }
        proof {
            assert(self.ids().take(self.ids().len() as int) =~= self.ids());
            if self.ids().contains(id) {
                let k = choose|k: int| 0 <= k < self.ids().len() && self.ids()[k] == id;
                assert(self.ids()[k] != id);
            }
        }
        Err(CheckpointError::Discarded { id, live })
    }

    /// What the live checkpoint at `position` captured.
    pub fn captured_at(&self, position: usize) -> (r: &E)
        requires
            position < self.ids().len(),
        ensures
            *r == self.captured()[position as int],
    {
        &self.snapshots[position].entries
    }

    /// Discards every checkpoint taken after `id`, keeps `id` itself, and
    /// returns its position, from which the captured state can be restored.
    pub fn rollback(&mut self, id: CheckpointId) -> (r: Result<usize, CheckpointError>)
        requires
            old(self).wf(),
        ensures
            final(self).wf(),
            final(self).owner() == old(self).owner(),
            final(self).next() == old(self).next(),
            r is Ok <==> (id.env_id == old(self).owner() && old(self).ids().contains(id)),
            r matches Ok(p) ==> {
                &&& p < old(self).ids().len()
                &&& old(self).ids()[p as int] == id
                &&& final(self).ids().len() == p + 1
                &&& final(self).ids() == old(self).ids().take(p + 1)
                &&& final(self).captured() == old(self).captured().take(p + 1)
            },
            r is Err ==> *final(self) == *old(self),
            r matches Err(e) ==> old(self).position_refusal(id, e),
    {
        match self.position_of(id) {
            Ok(p) => {
                let n = self.snapshots.len();
                assert(p < n);
                self.snapshots.truncate(p + 1);
                proof {
                    assert(self.ids() =~= old(self).ids().take(p + 1));
                    assert(self.captured() =~= old(self).captured().take(p + 1));
                    assert forall|i: int| 0 <= i < self.ids().len() implies (
                    #[trigger] self.ids()[i]).env_id == self.env_id && self.ids()[i].seq
                        < self.next_seq by {
                        assert(self.ids()[i] == old(self).ids()[i]);
                    }
                }
                Ok(p)
            },
            Err(e) => Err(e),
        }
    }

    /// Discards `id` and every checkpoint taken after it, without restoring.
    pub fn release(&mut self, id: CheckpointId) -> (r: Result<(), CheckpointError>)
        requires
            old(self).wf(),
        ensures
            final(self).wf(),
            final(self).owner() == old(self).owner(),
            final(self).next() == old(self).next(),
            r is Ok <==> (id.env_id == old(self).owner() && old(self).ids().contains(id)),
            r is Ok ==> exists|p: int|
                0 <= p < old(self).ids().len() && old(self).ids()[p] == id && final(self).ids()
                    == old(self).ids().take(p) && final(self).captured() == old(
                    self,
                ).captured().take(p),
            r is Err ==> *final(self) == *old(self),
            r matches Err(e) ==> old(self).position_refusal(id, e),
    {
        match self.position_of(id) {
            Ok(p) => {
                self.snapshots.truncate(p);
                proof {
                    assert(self.ids() =~= old(self).ids().take(p as int));
                    assert(self.captured() =~= old(self).captured().take(p as int));
                    assert forall|i: int| 0 <= i < self.ids().len() implies (
                    #[trigger] self.ids()[i]).env_id == self.env_id && self.ids()[i].seq
                        < self.next_seq by {
                        assert(self.ids()[i] == old(self).ids()[i]);
                    }
                }
                Ok(())
            },
            Err(e) => Err(e),
        }
    }

    /// Why `position_of` refuses `id`: the error it gives.
    pub open spec fn position_refusal(self, id: CheckpointId, e: CheckpointError) -> bool {
        match e {
            CheckpointError::ForeignEnvironment { id: i } => i == id && id.env_id != self.owner(),
            CheckpointError::Discarded { id: i, live } => i == id && id.env_id == self.owner()
                && !self.ids().contains(id) && live@ == self.ids().map_values(
                |c: CheckpointId| c.seq,
            ),
        }
    }
}

/// Rolling back to a checkpoint at position `p` of an ordered stack leaves no
/// checkpoint taken after it: every later id is discarded.
pub proof fn lemma_rollback_discards_later(ids: Seq<CheckpointId>, p: int, later: CheckpointId)
    requires
        increasing(ids),
        0 <= p < ids.len(),
        later.seq > ids[p].seq,
    ensures
        !ids.take(p + 1).contains(later),
{
    let prefix = ids.take(p + 1);
    if prefix.contains(later) {
        let k = choose|k: int| 0 <= k < prefix.len() && #[trigger] prefix[k] == later;
        assert(ids[k] == later);
        if k < p {
            assert(ids[k].seq < ids[p].seq);
        }
    }
}

/// A checkpoint that was live and is rolled back to stays live: rolling back
/// to it again finds it at the same position.
pub proof fn lemma_rollback_keeps_target(ids: Seq<CheckpointId>, p: int)
    requires
        0 <= p < ids.len(),
    ensures
        ids.take(p + 1).contains(ids[p]),
        ids.take(p + 1)[p] == ids[p],
{
    assert(ids.take(p + 1)[p] == ids[p]);
}

} // verus!
