//! The lane buffer behind the commit graph: the current lanes, the parents folded into the
//! flattened lane, and a history of per-row deltas from which any visible range of rows can be
//! rebuilt.
use vstd::prelude::*;
use crate::chunk::{Chunk, LaneRef, NONE, chunk_is_dummy, chunk_has_parent, chunk_has_any_parent, chunk_without_parent, dummy_chunk};
use crate::persistent::{
    Checkpoints, checkpoint_entries, checkpoints_insert, checkpoints_new, checkpoint_get, checkpoint_keys, delta_items, deltas_at, deltas_len,
    deltas_new, deltas_push, lane_items, lanes_at, lanes_clone, lanes_insert, lanes_len, lanes_new, lanes_pop,
    lanes_push, lanes_remove, lanes_set, parent_items, parents_at, parents_clone, parents_len, parents_new,
    parents_push, parents_remove, snapshot_items, snapshots_new, snapshots_push,
};

verus! {

/// What one graph row changed, in the order it changed it.
#[derive(Clone, Debug)]
pub struct Delta {
    pub ops: Vec<DeltaOp>,
}

/// One change to the lanes or to the compressed parents.
#[derive(Clone, Copy, Debug, PartialEq, Eq, Structural)]
pub enum DeltaOp {
    Insert { index: usize, item: Chunk },
    Remove { index: usize },
    Replace { index: usize, new: Chunk },
    CompressedParentInsert { parent: u32 },
    CompressedParentRemove { parent: u32 },
}

/// Where `Buffer::update` put a commit, and whether it had to open a lane for it.
#[derive(Clone, Copy, Debug, PartialEq, Eq, Structural)]
pub struct UpdateOutcome {
    pub lane: LaneRef,
    pub started_lane: bool,
}

/// The lanes and compressed parents of one graph row.
#[derive(Debug)]
pub struct GraphSnapshot {
    pub lanes: im::Vector<Chunk>,
    pub compressed_parents: im::Vector<u32>,
}

/// The lanes and the compressed parents, as sequences.
pub type LaneState = (Seq<Chunk>, Seq<u32>);

pub open spec fn snapshot_state(g: GraphSnapshot) -> LaneState {
    (lane_items(g.lanes), parent_items(g.compressed_parents))
}

pub open spec fn empty_state() -> LaneState {
    (Seq::<Chunk>::empty(), Seq::<u32>::empty())
}

impl GraphSnapshot {
    pub fn new(lanes: im::Vector<Chunk>, compressed_parents: im::Vector<u32>) -> (g: GraphSnapshot)
        ensures
            snapshot_state(g) == (lane_items(lanes), parent_items(compressed_parents)),
    {
        GraphSnapshot { lanes, compressed_parents }
    }

    pub fn from_lanes(lanes: im::Vector<Chunk>) -> (g: GraphSnapshot)
        ensures
            snapshot_state(g) == (lane_items(lanes), Seq::<u32>::empty()),
    {
        GraphSnapshot { lanes, compressed_parents: parents_new() }
    }

    /// The row with no lanes and no compressed parents.
    pub fn empty() -> (g: GraphSnapshot)
        ensures
            snapshot_state(g) == empty_state(),
    {
        GraphSnapshot { lanes: lanes_new(), compressed_parents: parents_new() }
    }

    /// A snapshot holding the same lanes and parents.
    pub fn duplicate(&self) -> (g: GraphSnapshot)
        ensures
            snapshot_state(g) == snapshot_state(*self),
    {
        GraphSnapshot { lanes: lanes_clone(&self.lanes), compressed_parents: parents_clone(&self.compressed_parents) }
    }
}

impl Default for GraphSnapshot {
    /// The row with no lanes and no compressed parents.
    fn default() -> (g: GraphSnapshot)
        ensures
            snapshot_state(g) == empty_state(),
    {
        GraphSnapshot::empty()
    }
}

/// Whether two rows hold the same lanes and the same compressed parents, in the same order.
fn same_snapshot(a: &GraphSnapshot, b: &GraphSnapshot) -> (r: bool)
    ensures
        r == (snapshot_state(*a) == snapshot_state(*b)),
{
    let n = lanes_len(&a.lanes);
    if n != lanes_len(&b.lanes) {
        return false;
    }
    let mut i: usize = 0;
    while i < n
        invariant
            n == lane_items(a.lanes).len(),
            n == lane_items(b.lanes).len(),
            i <= n,
            forall|j: int| 0 <= j < i ==> lane_items(a.lanes)[j] == lane_items(b.lanes)[j],
        decreases n - i,
    {
        if lanes_at(&a.lanes, i) != lanes_at(&b.lanes, i) {
            return false;
        }
        i = i + 1;
    }
    proof {
        assert(lane_items(a.lanes) =~= lane_items(b.lanes));
    }
    let m = parents_len(&a.compressed_parents);
    if m != parents_len(&b.compressed_parents) {
        return false;
    }
    let mut k: usize = 0;
    while k < m
        invariant
            m == parent_items(a.compressed_parents).len(),
            m == parent_items(b.compressed_parents).len(),
            k <= m,
            forall|j: int| 0 <= j < k ==> parent_items(a.compressed_parents)[j] == parent_items(b.compressed_parents)[j],
        decreases m - k,
    {
        if parents_at(&a.compressed_parents, k) != parents_at(&b.compressed_parents, k) {
            return false;
        }
        k = k + 1;
    }
    proof {
        assert(parent_items(a.compressed_parents) =~= parent_items(b.compressed_parents));
    }
    true
}

impl PartialEq for GraphSnapshot {
    fn eq(&self, other: &GraphSnapshot) -> (r: bool) {
        same_snapshot(self, other)
    }
}

impl vstd::std_specs::cmp::PartialEqSpecImpl for GraphSnapshot {
    open spec fn obeys_eq_spec() -> bool {
        true
    }

    open spec fn eq_spec(&self, other: &GraphSnapshot) -> bool {
        snapshot_state(*self) == snapshot_state(*other)
    }
}

impl Eq for GraphSnapshot {}

impl Clone for GraphSnapshot {
    fn clone(&self) -> (g: GraphSnapshot)
        ensures
            snapshot_state(g) == snapshot_state(*self),
    {
        self.duplicate()
    }
}

/// Whether `op` can be applied to `s` without an index falling outside the lanes.
pub open spec fn op_valid(s: LaneState, op: DeltaOp) -> bool {
    match op {
        DeltaOp::Insert { index, item } => index <= s.0.len(),
        DeltaOp::Remove { index } => index < s.0.len(),
        DeltaOp::Replace { index, new } => index < s.0.len(),
        _ => true,
    }
}

/// The effect of one delta operation.
pub open spec fn apply_op(s: LaneState, op: DeltaOp) -> LaneState {
    match op {
        DeltaOp::Insert { index, item } => (s.0.insert(index as int, item), s.1),
        DeltaOp::Remove { index } => (s.0.remove(index as int), s.1),
        DeltaOp::Replace { index, new } => (s.0.update(index as int, new), s.1),
        DeltaOp::CompressedParentInsert { parent } => if parent != NONE && !s.1.contains(parent) {
            (s.0, s.1.push(parent))
        } else {
            s
        },
        DeltaOp::CompressedParentRemove { parent } => match s.1.index_of_first(parent) {
            Some(i) => (s.0, s.1.remove(i)),
            None => s,
        },
    }
}

/// The effect of a sequence of operations, applied front to back.
pub open spec fn replay(s: LaneState, ops: Seq<DeltaOp>) -> LaneState
    decreases ops.len(),
{
    if ops.len() == 0 {
        s
    } else {
        apply_op(replay(s, ops.drop_last()), ops.last())
    }
}

/// Whether every operation of `ops` is valid where it is applied.
pub open spec fn replayable(s: LaneState, ops: Seq<DeltaOp>) -> bool
    decreases ops.len(),
{
    ops.len() == 0 || (replayable(s, ops.drop_last()) && op_valid(replay(s, ops.drop_last()), ops.last()))
}

/// The row that the first `n` recorded deltas build from nothing.
pub open spec fn history(ds: Seq<Seq<DeltaOp>>, n: int) -> LaneState
    decreases n,
{
    if n <= 0 {
        empty_state()
    } else {
        replay(history(ds, n - 1), ds[n - 1])
    }
}

/// Whether the first `n` recorded deltas all replay without an index falling out of range.
pub open spec fn history_replayable(ds: Seq<Seq<DeltaOp>>, n: int) -> bool
    decreases n,
{
    n <= 0 || (history_replayable(ds, n - 1) && replayable(history(ds, n - 1), ds[n - 1]))
}

proof fn lemma_replay_push(s: LaneState, ops: Seq<DeltaOp>, op: DeltaOp)
    ensures
        replay(s, ops.push(op)) == apply_op(replay(s, ops), op),
        replayable(s, ops.push(op)) == (replayable(s, ops) && op_valid(replay(s, ops), op)),
{
    assert(ops.push(op).drop_last() =~= ops);
}

proof fn lemma_replayable_prefix(s: LaneState, ops: Seq<DeltaOp>, j: int)
    requires
        replayable(s, ops),
        0 <= j <= ops.len(),
    ensures
        replayable(s, ops.take(j)),
    decreases ops.len(),
{
    if j == ops.len() {
        assert(ops.take(j) =~= ops);
    } else {
        lemma_replayable_prefix(s, ops.drop_last(), j);
        assert(ops.drop_last().take(j) =~= ops.take(j));
    }
}

proof fn lemma_replay_step(s: LaneState, ops: Seq<DeltaOp>, j: int)
    requires
        replayable(s, ops),
        0 <= j < ops.len(),
    ensures
        op_valid(replay(s, ops.take(j)), ops[j]),
        replay(s, ops.take(j + 1)) == apply_op(replay(s, ops.take(j)), ops[j]),
{
    lemma_replayable_prefix(s, ops, j + 1);
    assert(ops.take(j + 1).drop_last() =~= ops.take(j));
}

proof fn lemma_history_push(ds: Seq<Seq<DeltaOp>>, d: Seq<DeltaOp>, n: int)
    requires
        0 <= n <= ds.len(),
    ensures
        history(ds.push(d), n) == history(ds, n),
        history_replayable(ds.push(d), n) == history_replayable(ds, n),
    decreases n,
{
    if n > 0 {
        lemma_history_push(ds, d, n - 1);
        assert(ds.push(d)[n - 1] == ds[n - 1]);
    }
}

proof fn lemma_history_replayable_prefix(ds: Seq<Seq<DeltaOp>>, n: int, m: int)
    requires
        history_replayable(ds, n),
        0 <= m <= n,
    ensures
        history_replayable(ds, m),
    decreases n,
{
    if m < n {
        lemma_history_replayable_prefix(ds, n - 1, m);
    }
}

/// The first position of `parent` in `v`, if it is there.
fn position_of_parent(v: &im::Vector<u32>, parent: u32) -> (r: Option<usize>)
    ensures
        match r {
            Some(i) => parent_items(*v).index_of_first(parent) == Some(i as int),
            None => parent_items(*v).index_of_first(parent) is None,
        },
{
    let len = parents_len(v);
    let ghost s = parent_items(*v);
    let mut i: usize = 0;
    while i < len
        invariant
            len == s.len(),
            s == parent_items(*v),
            i <= len,
            forall|j: int| 0 <= j < i ==> s[j] != parent,
        decreases len - i,
    {
        if parents_at(v, i) == parent {
            proof {
                s.index_of_first_ensures(parent);
                let f = s.index_of_first(parent).unwrap();
                if f < i {
                    assert(s[f] != parent);
                }
                if f > i {
                    assert(s[i as int] == parent);
                }
            }
            return Some(i);
        }
        i = i + 1;
    }
    proof {
        s.index_of_first_ensures(parent);
        if s.contains(parent) {
            let k = choose|k: int| 0 <= k < s.len() && s[k] == parent;
            assert(s[k] != parent);
        }
    }
    None
}

/// Whether `parent` is in `v`.
fn parents_contain(v: &im::Vector<u32>, parent: u32) -> (b: bool)
    ensures
        b == parent_items(*v).contains(parent),
{
    let r = position_of_parent(v, parent);
    proof {
        parent_items(*v).index_of_first_ensures(parent);
    }
    r.is_some()
}

/// Applies one delta operation to a snapshot.
fn apply_to_snapshot(snapshot: &mut GraphSnapshot, op: &DeltaOp)
    requires
        op_valid(snapshot_state(*old(snapshot)), *op),
    ensures
        snapshot_state(*final(snapshot)) == apply_op(snapshot_state(*old(snapshot)), *op),
{
    match op {
        DeltaOp::Insert { index, item } => {
            lanes_insert(&mut snapshot.lanes, *index, *item);
        },
        DeltaOp::Remove { index } => {
            lanes_remove(&mut snapshot.lanes, *index);
        },
        DeltaOp::Replace { index, new } => {
            lanes_set(&mut snapshot.lanes, *index, *new);
        },
        DeltaOp::CompressedParentInsert { parent } => {
            if *parent != NONE && !parents_contain(&snapshot.compressed_parents, *parent) {
                parents_push(&mut snapshot.compressed_parents, *parent);
            }
        },
        DeltaOp::CompressedParentRemove { parent } => {
            if let Some(index) = position_of_parent(&snapshot.compressed_parents, *parent) {
                proof {
                    parent_items(snapshot.compressed_parents).index_of_first_ensures(*parent);
                }
                parents_remove(&mut snapshot.compressed_parents, index);
            }
        },
    }
}

/// The rows of the graph as they are laid out: the current lanes and compressed parents, the
/// deltas of every row so far, snapshots every hundred rows, and the plans for the next row.
pub struct Buffer {
    curr: im::Vector<Chunk>,
    compressed_parents: im::Vector<u32>,
    // Deltas keep memory bounded while still allowing visible ranges to be reconstructed.
    deltas: im::Vector<Delta>,
    checkpoints: Checkpoints,
    delta: Delta,
    mergers: Vec<u32>,
    transient_lanes: Vec<usize>,
    lane_limit: Option<usize>,
}

/// How many rows lie between two checkpoints.
pub const CHECKPOINT_EVERY: usize = 100;

impl Buffer {
    /// The current lanes.
    pub closed spec fn lanes(&self) -> Seq<Chunk> {
        lane_items(self.curr)
    }

    /// The parents folded into the flattened lane, oldest first.
    pub closed spec fn compressed(&self) -> Seq<u32> {
        parent_items(self.compressed_parents)
    }

    /// The current row.
    pub open spec fn state(&self) -> LaneState {
        (self.lanes(), self.compressed())
    }

    /// The operations of every row recorded so far.
    pub closed spec fn recorded(&self) -> Seq<Seq<DeltaOp>> {
        delta_items(self.deltas).map_values(|d: Delta| d.ops@)
    }

    /// The operations made since the last backup.
    pub closed spec fn pending(&self) -> Seq<DeltaOp> {
        self.delta.ops@
    }

    /// The checkpointed rows, keyed by the index of the delta after which each was taken.
    pub closed spec fn checkpoint_rows(&self) -> Map<usize, LaneState> {
        checkpoint_entries(self.checkpoints).map_values(|g: GraphSnapshot| snapshot_state(g))
    }

    /// Commits whose lane splits when it is next reached.
    pub closed spec fn planned_mergers(&self) -> Seq<u32> {
        self.mergers@
    }

    /// Lanes that empty out at the next update.
    pub closed spec fn transients(&self) -> Seq<usize> {
        self.transient_lanes@
    }

    /// The most lanes the buffer keeps, if it is limited.
    pub closed spec fn limit(&self) -> Option<usize> {
        self.lane_limit
    }

    /// The replay invariant and the bookkeeping around it, without the bound on the lanes.
    closed spec fn replays(&self) -> bool {
        let rs = self.recorded();
        &&& history_replayable(rs, rs.len() as int)
        &&& replayable(history(rs, rs.len() as int), self.pending())
        &&& replay(history(rs, rs.len() as int), self.pending()) == self.state()
        &&& forall|k: usize| #[trigger] checkpoint_entries(self.checkpoints).contains_key(k) ==> {
            &&& k < rs.len()
            &&& k % CHECKPOINT_EVERY == 0
            &&& snapshot_state(checkpoint_entries(self.checkpoints)[k]) == history(rs, k + 1)
        }
        &&& compressed_well_formed(self.compressed())
    }

    /// Well-formedness: the recorded deltas rebuild every checkpoint and, with the pending delta,
    /// the current row; the lanes stay within the limit; the compressed parents are distinct and real.
    pub closed spec fn wf(&self) -> bool {
        &&& self.replays()
        &&& self.lane_limit matches Some(l) ==> 1 <= l && self.lanes().len() <= l
    }
}

/// Whether `expire_lane_after_snapshot` leaves `lane_idx` alone: it lies past the limit, or it is
/// the flattened lane at the limit's edge.
pub open spec fn expiry_refused(lanes: Seq<Chunk>, limit: Option<usize>, lane_idx: usize) -> bool {
    match limit {
        Some(l) => lane_idx >= l || (lane_idx + 1 == l && lane_idx < lanes.len() && lanes[lane_idx as int].is_flattened),
        None => false,
    }
}

pub open spec fn min_int(a: int, b: int) -> int {
    if a < b { a } else { b }
}

/// Compressed parents are never the empty alias and never repeat.
pub open spec fn compressed_well_formed(cp: Seq<u32>) -> bool {
    &&& forall|i: int| 0 <= i < cp.len() ==> cp[i] != NONE
    &&& cp.no_duplicates()
}

/// `rows` are the rows after deltas `begin + 1`, `begin + 2`, and so on up to `end`.
pub open spec fn rows_from(rows: Seq<GraphSnapshot>, recorded: Seq<Seq<DeltaOp>>, begin: int, end: int) -> bool {
    &&& rows.len() == end - begin
    &&& forall|k: int| 0 <= k < rows.len() ==> snapshot_state(#[trigger] rows[k]) == history(recorded, begin + k + 1)
}

proof fn lemma_window_begin_at(ckpts: Map<usize, LaneState>, start: usize, idx: usize)
    requires
        ckpts.contains_key(idx),
        idx <= start,
        forall|k2: usize| #[trigger] ckpts.contains_key(k2) && k2 <= start ==> k2 <= idx,
    ensures
        window_begin(ckpts, start) == idx + 1,
{
    let kc = choose|k: usize|
        #[trigger] ckpts.contains_key(k) && k <= start && forall|k2: usize| #[trigger] ckpts.contains_key(k2) && k2 <= start ==> k2 <= k;
    assert(kc == idx);
}

/// The index of the first checkpoint to replay from: one past the last checkpoint at or before
/// `start`, or zero when there is none.
pub open spec fn window_begin(ckpts: Map<usize, LaneState>, start: usize) -> int {
    if exists|k: usize| #[trigger] ckpts.contains_key(k) && k <= start {
        let k = choose|k: usize|
            #[trigger] ckpts.contains_key(k) && k <= start && forall|k2: usize| #[trigger] ckpts.contains_key(k2) && k2 <= start ==> k2 <= k;
        k + 1
    } else {
        0
    }
}

impl Default for Buffer {
    fn default() -> (b: Buffer)
        ensures
            b.wf(),
            b.state() == empty_state(),
            b.recorded() == Seq::<Seq<DeltaOp>>::empty(),
            b.pending() == Seq::<DeltaOp>::empty(),
            b.checkpoint_rows() == Map::<usize, LaneState>::empty(),
            b.planned_mergers() == Seq::<u32>::empty(),
            b.transients() == Seq::<usize>::empty(),
            b.limit() is None,
    {
        let b = Buffer {
            curr: lanes_new(),
            compressed_parents: parents_new(),
            deltas: deltas_new(),
            checkpoints: checkpoints_new(),
            delta: Delta { ops: Vec::new() },
            mergers: Vec::new(),
            transient_lanes: Vec::new(),
            lane_limit: None,
        };
        proof {
            assert(b.recorded() =~= Seq::<Seq<DeltaOp>>::empty());
            assert(b.checkpoint_rows() =~= Map::<usize, LaneState>::empty());
            assert(b.state() =~= empty_state());
        }
        b
    }
}

impl Buffer {
    /// An empty buffer that keeps at most `limit` lanes, one at the least.
    pub fn with_lane_limit(limit: usize) -> (b: Buffer)
        ensures
            b.wf(),
            b.state() == empty_state(),
            b.recorded() == Seq::<Seq<DeltaOp>>::empty(),
            b.pending() == Seq::<DeltaOp>::empty(),
            b.checkpoint_rows() == Map::<usize, LaneState>::empty(),
            b.planned_mergers() == Seq::<u32>::empty(),
            b.transients() == Seq::<usize>::empty(),
            b.limit() == Some(if limit < 1 { 1 } else { limit }),
    {
        let mut b = Buffer::default();
        b.lane_limit = Some(if limit < 1 { 1 } else { limit });
        b
    }

    /// Plans a split of the lane of `alias` for when it is next reached.
    pub fn merger(&mut self, alias: u32)
        requires
            old(self).wf(),
        ensures
            final(self).wf(),
            final(self).planned_mergers() == old(self).planned_mergers().push(alias),
            final(self).state() == old(self).state(),
            final(self).recorded() == old(self).recorded(),
            final(self).pending() == old(self).pending(),
            final(self).checkpoint_rows() == old(self).checkpoint_rows(),
            final(self).transients() == old(self).transients(),
            final(self).limit() == old(self).limit(),
    {
        self.mergers.push(alias);
    }

    /// Marks a lane to be emptied at the next update, unless it lies past the limit or is the
    /// flattened lane at the limit's edge; a lane is marked once.
    pub fn expire_lane_after_snapshot(&mut self, lane_idx: usize)
        requires
            old(self).wf(),
        ensures
            final(self).wf(),
            final(self).transients() == if expiry_refused(old(self).lanes(), old(self).limit(), lane_idx)
                || old(self).transients().contains(lane_idx) {
                old(self).transients()
            } else {
                old(self).transients().push(lane_idx)
            },
            final(self).state() == old(self).state(),
            final(self).recorded() == old(self).recorded(),
            final(self).pending() == old(self).pending(),
            final(self).checkpoint_rows() == old(self).checkpoint_rows(),
            final(self).planned_mergers() == old(self).planned_mergers(),
            final(self).limit() == old(self).limit(),
    {
        if let Some(limit) = self.lane_limit {
            if lane_idx >= limit {
                return;
            }
            if lane_idx + 1 == limit && lane_idx < lanes_len(&self.curr) && lanes_at(&self.curr, lane_idx).is_flattened {
                return;
            }
        }
        let mut i: usize = 0;
        let n = self.transient_lanes.len();
        while i < n
            invariant
                n == self.transient_lanes@.len(),
                *self == *old(self),
                old(self).wf(),
                i <= n,
                forall|j: int| 0 <= j < i ==> self.transient_lanes@[j] != lane_idx,
            decreases n - i,
        {
            if self.transient_lanes[i] == lane_idx {
                return;
            }
            i = i + 1;
        }
        self.transient_lanes.push(lane_idx);
    }

    /// The current row, copied into a snapshot.
    fn snapshot(&self) -> (g: GraphSnapshot)
        ensures
            snapshot_state(g) == self.state(),
    {
        GraphSnapshot::new(lanes_clone(&self.curr), parents_clone(&self.compressed_parents))
    }

    /// Closes the pending delta: it is recorded, and every hundredth recorded row also gets a
    /// checkpoint of the current row.
    pub fn backup(&mut self)
        requires
            old(self).wf(),
        ensures
            final(self).wf(),
            final(self).recorded() == old(self).recorded().push(old(self).pending()),
            final(self).pending() == Seq::<DeltaOp>::empty(),
            final(self).checkpoint_rows() == if old(self).recorded().len() % (CHECKPOINT_EVERY as nat) == 0 {
                old(self).checkpoint_rows().insert(old(self).recorded().len() as usize, old(self).state())
            } else {
                old(self).checkpoint_rows()
            },
            final(self).state() == old(self).state(),
            final(self).planned_mergers() == old(self).planned_mergers(),
            final(self).transients() == old(self).transients(),
            final(self).limit() == old(self).limit(),
    {
        let ghost rs = self.recorded();
        let ghost ops = self.pending();
        let mut old_delta = Delta { ops: Vec::new() };
        std::mem::swap(&mut old_delta, &mut self.delta);
        deltas_push(&mut self.deltas, old_delta);
        let idx = deltas_len(&self.deltas) - 1;
        proof {
            assert(self.recorded() =~= rs.push(ops));
            assert forall|n: int| 0 <= n <= rs.len() implies history(rs.push(ops), n) == history(rs, n)
                && history_replayable(rs.push(ops), n) == history_replayable(rs, n) by {
                lemma_history_push(rs, ops, n);
            }
            assert(rs.push(ops)[rs.len() as int] == ops);
        }
        if idx % CHECKPOINT_EVERY == 0 {
            let snap = self.snapshot();
            checkpoints_insert(&mut self.checkpoints, idx, snap);
        }
        proof {
            assert(self.checkpoint_rows() =~= if rs.len() % (CHECKPOINT_EVERY as nat) == 0 {
                old(self).checkpoint_rows().insert(rs.len() as usize, old(self).state())
            } else {
                old(self).checkpoint_rows()
            });
            assert(self.pending() =~= Seq::<DeltaOp>::empty());
        }
    }

    /// The rows of deltas `begin..min(end, recorded)`, rebuilt from the nearest checkpoint at or
    /// before `start`; `begin` is one past that checkpoint, or zero when there is none.
    #[verifier::rlimit(30)]
    pub fn window(&self, start: usize, end: usize) -> (h: im::Vector<GraphSnapshot>)
        requires
            self.wf(),
            window_begin(self.checkpoint_rows(), start) <= min_int(end as int, self.recorded().len() as int),
        ensures
            rows_from(snapshot_items(h), self.recorded(), window_begin(self.checkpoint_rows(), start), min_int(end as int, self.recorded().len() as int)),
    {
        let ghost rs = self.recorded();
        let ghost ck = self.checkpoint_rows();
        let ghost entries = checkpoint_entries(self.checkpoints);
        let mut history_out = snapshots_new();

        // Start from the nearest checkpoint before the requested range: the last key not past
        // `start`, looking from the largest key down.
        let keys = checkpoint_keys(&self.checkpoints);
        let mut i = keys.len();
        while i > 0 && keys[i - 1] > start
            invariant
                i <= keys@.len(),
                forall|j: int| i <= j < keys@.len() ==> keys@[j] > start,
            decreases i,
        {
            i = i - 1;
        }
        let (mut snapshot, begin) = if i == 0 {
            (GraphSnapshot::empty(), 0)
        } else {
            let idx = keys[i - 1];
            match checkpoint_get(&self.checkpoints, idx) {
                Some(snap) => (snap.duplicate(), idx + 1),
                None => (GraphSnapshot::empty(), 0),
            }
        };
        proof {
            assert forall|k2: usize| #[trigger] entries.contains_key(k2) && k2 <= start implies i > 0 && k2 <= keys@[i - 1] by {
                assert(keys@.contains(k2));
                let j = choose|j: int| 0 <= j < keys@.len() && keys@[j] == k2;
                if j >= i {
                    assert(keys@[j] > start);
                } else if j < i - 1 {
                    assert(keys@[j] < keys@[i - 1]);
                }
            }
            if i == 0 {
                assert(!(exists|k: usize| #[trigger] ck.contains_key(k) && k <= start));
                assert(begin as int == window_begin(ck, start));
            } else {
                let idx = keys@[i - 1];
                assert(keys@.contains(idx));
                assert(entries.contains_key(idx));
                assert(idx <= start);
                assert forall|k2: usize| #[trigger] ck.contains_key(k2) && k2 <= start implies k2 <= idx by {
                    assert(entries.contains_key(k2));
                }
                lemma_window_begin_at(ck, start, idx);
                assert(begin as int == window_begin(ck, start));
                assert(snapshot_state(snapshot) == history(rs, begin as int));
            }
        }

        // Replay only the deltas needed to produce the requested visible range.
        let count = deltas_len(&self.deltas);
        let stop = if end < count { end } else { count };
        let mut k = begin;
        while k < stop
            invariant
                self.wf(),
                rs == self.recorded(),
                rs.len() == count,
                begin as int == window_begin(ck, start),
                ck == self.checkpoint_rows(),
                stop as int == min_int(end as int, rs.len() as int),
                begin <= k <= stop,
                snapshot_state(snapshot) == history(rs, k as int),
                snapshot_items(history_out).len() == k - begin,
                forall|j: int| 0 <= j < snapshot_items(history_out).len() ==> snapshot_state(#[trigger] snapshot_items(history_out)[j])
                    == history(rs, begin + j + 1),
            decreases stop - k,
        {
            let delta = deltas_at(&self.deltas, k);
            let ghost ops = delta.ops@;
            proof {
                assert(rs[k as int] == ops);
                lemma_history_replayable_prefix(rs, rs.len() as int, k + 1);
            }
            let n = delta.ops.len();
            let mut j: usize = 0;
            while j < n
                invariant
                    n == ops.len(),
                    ops == delta.ops@,
                    j <= n,
                    replayable(history(rs, k as int), ops),
                    snapshot_state(snapshot) == replay(history(rs, k as int), ops.take(j as int)),
                decreases n - j,
            {
                proof {
                    lemma_replay_step(history(rs, k as int), ops, j as int);
                }
                apply_to_snapshot(&mut snapshot, &delta.ops[j]);
                j = j + 1;
            }
            proof {
                assert(ops.take(n as int) =~= ops);
            }
            let copy = snapshot.duplicate();
            snapshots_push(&mut history_out, copy);
            k = k + 1;
        }
        proof {
            assert(rows_from(snapshot_items(history_out), rs, begin as int, stop as int));
        }
        history_out
    }
}

// ---------------------------------------------------------------------------------------------
// What one update does to the lanes, step by step.
// ---------------------------------------------------------------------------------------------

/// The first lane, front to back, that satisfies `p`.
pub open spec fn first_lane(lanes: Seq<Chunk>, p: spec_fn(Chunk) -> bool) -> Option<int>
    decreases lanes.len(),
{
    if lanes.len() == 0 {
        None
    } else if p(lanes[0]) {
        Some(0)
    } else {
        match first_lane(lanes.drop_first(), p) {
            Some(i) => Some(i + 1),
            None => None,
        }
    }
}

proof fn lemma_first_lane(lanes: Seq<Chunk>, p: spec_fn(Chunk) -> bool, i: int)
    requires
        0 <= i <= lanes.len(),
        forall|j: int| 0 <= j < i ==> !p(#[trigger] lanes[j]),
        i < lanes.len() ==> p(lanes[i]),
    ensures
        first_lane(lanes, p) == if i < lanes.len() { Some(i) } else { None::<int> },
    decreases i,
{
    if lanes.len() > 0 && i > 0 {
        assert(!p(lanes[0]));
        assert forall|j: int| 0 <= j < i - 1 implies !p(#[trigger] lanes.drop_first()[j]) by {
            assert(lanes.drop_first()[j] == lanes[j + 1]);
        }
        lemma_first_lane(lanes.drop_first(), p, i - 1);
    }
}

proof fn lemma_first_lane_found(lanes: Seq<Chunk>, p: spec_fn(Chunk) -> bool)
    ensures
        first_lane(lanes, p) matches Some(i) ==> {
            &&& 0 <= i < lanes.len()
            &&& p(lanes[i])
            &&& forall|j: int| 0 <= j < i ==> !p(#[trigger] lanes[j])
        },
        first_lane(lanes, p) is None ==> forall|j: int| 0 <= j < lanes.len() ==> !p(#[trigger] lanes[j]),
    decreases lanes.len(),
{
    if lanes.len() > 0 {
        let rest = lanes.drop_first();
        lemma_first_lane_found(rest, p);
        if !p(lanes[0]) {
            match first_lane(rest, p) {
                Some(i) => {
                    assert(rest[i] == lanes[i + 1]);
                    assert forall|j: int| 0 <= j < i + 1 implies !p(#[trigger] lanes[j]) by {
                        if j > 0 {
                            assert(rest[j - 1] == lanes[j]);
                        }
                    }
                },
                None => {
                    assert forall|j: int| 0 <= j < lanes.len() implies !p(#[trigger] lanes[j]) by {
                        if j > 0 {
                            assert(rest[j - 1] == lanes[j]);
                        }
                    }
                },
            }
        }
    }
}

proof fn lemma_take_step_contains(ts: Seq<usize>, k: int)
    requires
        0 <= k < ts.len(),
    ensures
        forall|x: usize| #[trigger] ts.take(k + 1).contains(x) <==> (ts.take(k).contains(x) || x == ts[k]),
{
    assert forall|x: usize| #[trigger] ts.take(k + 1).contains(x) <==> (ts.take(k).contains(x) || x == ts[k]) by {
        if ts.take(k + 1).contains(x) {
            let w = choose|w: int| 0 <= w < k + 1 && #[trigger] ts.take(k + 1)[w] == x;
            if w < k {
                assert(ts.take(k)[w] == x);
            }
        }
        if ts.take(k).contains(x) {
            let w = choose|w: int| 0 <= w < k && #[trigger] ts.take(k)[w] == x;
            assert(ts.take(k + 1)[w] == x);
        }
        if x == ts[k] {
            assert(ts.take(k + 1)[k] == x);
        }
    }
}

/// `p` with `alias` appended, unless it is the empty alias or already there.
pub open spec fn push_distinct(ps: Seq<u32>, p: u32) -> Seq<u32> {
    if p != NONE && !ps.contains(p) {
        ps.push(p)
    } else {
        ps
    }
}

/// The last compressed parent, or the empty alias.
pub open spec fn last_compressed(cp: Seq<u32>) -> u32 {
    if cp.len() > 0 {
        cp.last()
    } else {
        NONE
    }
}

/// `cp` without the first occurrence of `p`.
pub open spec fn without_compressed(cp: Seq<u32>, p: u32) -> Seq<u32> {
    match cp.index_of_first(p) {
        Some(i) => cp.remove(i),
        None => cp,
    }
}

/// Lanes named in `transients` that hold something are emptied.
pub open spec fn expired(lanes: Seq<Chunk>, transients: Seq<usize>) -> Seq<Chunk> {
    Seq::new(
        lanes.len(),
        |i: int|
            if transients.contains(i as usize) && !chunk_is_dummy(lanes[i]) {
                dummy_chunk()
            } else {
                lanes[i]
            },
    )
}

/// The operations that empty the transient lanes, in the order the lanes were listed: each live
/// lane named becomes an empty lane, recorded as a `Replace`; a lane past the end, already empty
/// or named before is left alone.
pub open spec fn expiry_ops(lanes: Seq<Chunk>, transients: Seq<usize>) -> Seq<DeltaOp>
    decreases transients.len(),
{
    if transients.len() == 0 {
        Seq::empty()
    } else {
        let before = transients.drop_last();
        let t = transients.last();
        let current = expired(lanes, before);
        if t < current.len() && !chunk_is_dummy(current[t as int]) {
            expiry_ops(lanes, before).push(DeltaOp::Replace { index: t, new: dummy_chunk() })
        } else {
            expiry_ops(lanes, before)
        }
    }
}

/// Trailing empty lanes are dropped.
pub open spec fn trimmed(lanes: Seq<Chunk>) -> Seq<Chunk>
    decreases lanes.len(),
{
    if lanes.len() > 0 && chunk_is_dummy(lanes.last()) {
        trimmed(lanes.drop_last())
    } else {
        lanes
    }
}

/// The first lane whose commit has a planned merger splits: it keeps its first parent, and a new
/// lane at the end heads for its second; the plan is used up.
pub open spec fn split_merger(lanes: Seq<Chunk>, mergers: Seq<u32>) -> (Seq<Chunk>, Seq<u32>) {
    match first_lane(lanes, |c: Chunk| mergers.contains(c.alias)) {
        None => (lanes, mergers),
        Some(m) => {
            let c = lanes[m];
            (
                lanes.update(m, Chunk { parent_b: NONE, ..c }).push(Chunk { parent_a: c.parent_b, parent_b: NONE, ..c }),
                mergers.remove(mergers.index_of_first(c.alias).unwrap()),
            )
        },
    }
}

/// Splitting a planned merger keeps the merge's second parent in the graph: when a lane holds a
/// commit planned to split, the first such lane goes on toward the commit's first parent alone,
/// a new last lane heads for its second parent, the commit is no longer planned, and every
/// other lane stays as it was. With no such lane nothing changes.
pub proof fn lemma_split_heads_for_second_parent(lanes: Seq<Chunk>, mergers: Seq<u32>)
    ensures
        ({
            let (after, planned) = split_merger(lanes, mergers);
            &&& (forall|j: int| 0 <= j < lanes.len() ==> !mergers.contains(#[trigger] lanes[j].alias)) ==> after == lanes
                && planned == mergers
            &&& (exists|j: int| 0 <= j < lanes.len() && mergers.contains(#[trigger] lanes[j].alias)) ==> exists|m: int| {
                &&& 0 <= m < lanes.len()
                &&& mergers.contains(#[trigger] lanes[m].alias)
                &&& forall|j: int| 0 <= j < m ==> !mergers.contains(#[trigger] lanes[j].alias)
                &&& after.len() == lanes.len() + 1
                &&& after[lanes.len() as int].alias == lanes[m].alias
                &&& after[lanes.len() as int].parent_a == lanes[m].parent_b
                &&& after[lanes.len() as int].parent_b == NONE
                &&& after[m].alias == lanes[m].alias
                &&& after[m].parent_a == lanes[m].parent_a
                &&& after[m].parent_b == NONE
                &&& forall|j: int| 0 <= j < lanes.len() && j != m ==> after[j] == lanes[j]
                &&& planned.len() + 1 == mergers.len()
            }
        }),
{
    let p = |c: Chunk| mergers.contains(c.alias);
    lemma_first_lane_found(lanes, p);
    match first_lane(lanes, p) {
        None => {},
        Some(m) => {
            let c = lanes[m];
            mergers.index_of_first_ensures(c.alias);
            let (after, planned) = split_merger(lanes, mergers);
            assert(after[lanes.len() as int] == Chunk { parent_a: c.parent_b, parent_b: NONE, ..c });
            assert(after[m] == Chunk { parent_b: NONE, ..c });
            assert(forall|j: int| 0 <= j < m ==> !p(lanes[j]));
        },
    }
}

/// The lane a commit continues: the first lane heading for it, or else the flattened lane when
/// it is one of the compressed parents.
pub open spec fn lane_for_parent(lanes: Seq<Chunk>, cp: Seq<u32>, alias: u32) -> Option<int> {
    match first_lane(lanes, |c: Chunk| chunk_has_parent(c, alias)) {
        Some(i) => Some(i),
        None => if alias != NONE && cp.contains(alias) {
            first_lane(lanes, |c: Chunk| c.is_flattened)
        } else {
            None
        },
    }
}

/// What replaces a lane's chunk: the commit itself, or, in the flattened lane, the commit
/// flattened with its second parent compressed and the last compressed parent as its end marker.
pub open spec fn replaced_chunk(old: Chunk, cp: Seq<u32>, chunk: Chunk) -> (Chunk, Seq<u32>) {
    if !old.is_flattened {
        (chunk, cp)
    } else {
        let cp1 = push_distinct(cp, chunk.parent_b);
        (Chunk { is_flattened: true, parent_b: last_compressed(cp1), ..chunk }, cp1)
    }
}

/// A lane other than the commit's own stops heading for the commit; a lane left with no parent
/// empties, unless it is the flattened lane and parents remain compressed.
pub open spec fn cleared_lane(c: Chunk, alias: u32, compressed_left: bool) -> Chunk {
    if c.alias == alias || !chunk_has_parent(c, alias) {
        c
    } else {
        let c2 = chunk_without_parent(c, alias);
        if !chunk_has_any_parent(c2) && !(c2.is_flattened && compressed_left) {
            dummy_chunk()
        } else {
            c2
        }
    }
}

pub open spec fn cleared(lanes: Seq<Chunk>, alias: u32, compressed_left: bool) -> Seq<Chunk> {
    Seq::new(lanes.len(), |i: int| cleared_lane(lanes[i], alias, compressed_left))
}

/// When a compressed parent was consumed, the flattened lane takes the last compressed parent as
/// its end marker, and empties when nothing is left for it.
pub open spec fn refreshed(lanes: Seq<Chunk>, cp: Seq<u32>, consumed: bool) -> Seq<Chunk> {
    if !consumed {
        lanes
    } else {
        match first_lane(lanes, |c: Chunk| c.is_flattened) {
            None => lanes,
            Some(f) => {
                let c1 = Chunk { parent_b: last_compressed(cp), ..lanes[f] };
                if !chunk_has_any_parent(c1) && cp.len() == 0 {
                    lanes.update(f, dummy_chunk())
                } else {
                    lanes.update(f, c1)
                }
            },
        }
    }
}

/// `ps` with both parents of `c` appended, each unless empty or already there.
pub open spec fn with_parents_of(ps: Seq<u32>, c: Chunk) -> Seq<u32> {
    push_distinct(push_distinct(ps, c.parent_a), c.parent_b)
}

/// The distinct parents that fold into the flattened lane: the representative's first, then those
/// of every live, unflattened lane from `cap` up to `n`.
pub open spec fn candidate_parents(lanes: Seq<Chunk>, cap: int, ri: int, n: int) -> Seq<u32>
    decreases n - cap,
{
    if n <= cap {
        if 0 <= ri < lanes.len() && !chunk_is_dummy(lanes[ri]) && !lanes[ri].is_flattened {
            with_parents_of(Seq::empty(), lanes[ri])
        } else {
            Seq::empty()
        }
    } else {
        let prev = candidate_parents(lanes, cap, ri, n - 1);
        let c = lanes[n - 1];
        if n - 1 == ri || chunk_is_dummy(c) || c.is_flattened {
            prev
        } else {
            with_parents_of(prev, c)
        }
    }
}

/// `cp` with every parent of `ps` appended in turn, and the last one that was new.
pub open spec fn with_all_compressed(cp: Seq<u32>, ps: Seq<u32>) -> (Seq<u32>, u32)
    decreases ps.len(),
{
    if ps.len() == 0 {
        (cp, NONE)
    } else {
        let (c, e) = with_all_compressed(cp, ps.drop_last());
        let p = ps.last();
        if p != NONE && !c.contains(p) {
            (c.push(p), p)
        } else {
            (c, e)
        }
    }
}

/// The lane that stands for every lane from `cap` on: the preferred one when it is live and past
/// the cap, else the first live one, else an empty lane.
pub open spec fn representative_source(lanes: Seq<Chunk>, cap: int, preferred: Option<usize>) -> (int, Chunk) {
    if preferred matches Some(p) && cap <= p < lanes.len() && !chunk_is_dummy(lanes[p as int]) {
        (preferred.unwrap() as int, lanes[preferred.unwrap() as int])
    } else {
        match first_lane(lanes.skip(cap), |c: Chunk| !chunk_is_dummy(c)) {
            Some(j) => (cap + j, lanes[cap + j]),
            None => (cap, dummy_chunk()),
        }
    }
}

/// The flattened chunk that replaces the lanes from `cap` on, and the compressed parents after
/// the parents of those lanes are folded in.
pub open spec fn representative(lanes: Seq<Chunk>, cp: Seq<u32>, cap: int, preferred: Option<usize>) -> (Chunk, Seq<u32>) {
    let (ri, source) = representative_source(lanes, cap, preferred);
    let (cp1, end1) = with_all_compressed(cp, candidate_parents(lanes, cap, ri, lanes.len() as int));
    let cp2 = push_distinct(cp1, source.parent_a);
    let end = if end1 == NONE { last_compressed(cp2) } else { end1 };
    (Chunk { is_flattened: true, parent_b: end, ..source }, cp2)
}

/// Whether some live lane carries the commit `alias`.
pub open spec fn lane_alive(lanes: Seq<Chunk>, alias: u32) -> bool {
    exists|i: int| 0 <= i < lanes.len() && !chunk_is_dummy(#[trigger] lanes[i]) && lanes[i].alias == alias
}

/// The planned mergers whose commit still has a live lane, in order.
pub open spec fn kept_mergers(ms: Seq<u32>, lanes: Seq<Chunk>) -> Seq<u32>
    decreases ms.len(),
{
    if ms.len() == 0 {
        ms
    } else {
        let rest = kept_mergers(ms.drop_last(), lanes);
        if lane_alive(lanes, ms.last()) {
            rest.push(ms.last())
        } else {
            rest
        }
    }
}

/// Whether a transient lane survives a cut to `limit` lanes; with `guard_edge`, the flattened lane
/// at the limit's edge does not.
pub open spec fn transient_kept(t: usize, lanes: Seq<Chunk>, limit: usize, guard_edge: bool) -> bool {
    t < limit && (!guard_edge || t + 1 != limit || !(t < lanes.len() && lanes[t as int].is_flattened))
}

/// The transient lanes that survive a cut to `limit` lanes, in order.
pub open spec fn kept_transients(ts: Seq<usize>, lanes: Seq<Chunk>, limit: usize, guard_edge: bool) -> Seq<usize>
    decreases ts.len(),
{
    if ts.len() == 0 {
        ts
    } else {
        let rest = kept_transients(ts.drop_last(), lanes, limit, guard_edge);
        if transient_kept(ts.last(), lanes, limit, guard_edge) {
            rest.push(ts.last())
        } else {
            rest
        }
    }
}

/// The lanes, compressed parents, planned mergers and transient lanes once the lanes fit the limit:
/// the lanes past it fold into a flattened lane at its last place.
pub open spec fn enforced(
    lanes: Seq<Chunk>,
    cp: Seq<u32>,
    mergers: Seq<u32>,
    transients: Seq<usize>,
    limit: Option<usize>,
    preferred: Option<usize>,
) -> (Seq<Chunk>, Seq<u32>, Seq<u32>, Seq<usize>) {
    match limit {
        None => (lanes, cp, mergers, transients),
        Some(l) => if lanes.len() <= l {
            (lanes, cp, kept_mergers(mergers, lanes), kept_transients(transients, lanes, l, false))
        } else {
            let (rep, cp1) = representative(lanes, cp, l - 1, preferred);
            let lanes1 = lanes.update(l - 1, rep).take(l as int);
            (
                lanes1,
                cp1,
                kept_mergers(mergers, lanes1),
                kept_transients(transients, lanes1, l, true),
            )
        },
    }
}

/// Where a commit placed at `idx` shows: past the limit it is in the flattened lane.
pub open spec fn lane_ref(lanes: Seq<Chunk>, limit: Option<usize>, idx: usize) -> LaneRef {
    match limit {
        Some(l) if idx >= l => LaneRef { index: (l - 1) as usize, is_flattened: true },
        _ => LaneRef { index: idx, is_flattened: idx < lanes.len() && lanes[idx as int].is_flattened },
    }
}

/// The row after `chunk` is laid out: lanes, compressed parents, planned mergers, transient lanes,
/// and where the commit went.
pub open spec fn updated(
    lanes: Seq<Chunk>,
    cp: Seq<u32>,
    mergers: Seq<u32>,
    transients: Seq<usize>,
    limit: Option<usize>,
    chunk: Chunk,
) -> (Seq<Chunk>, Seq<u32>, Seq<u32>, Seq<usize>, UpdateOutcome) {
    let l1 = trimmed(expired(lanes, transients));
    let (l2, m2) = split_merger(l1, mergers);
    match lane_for_parent(l2, cp, chunk.alias) {
        Some(idx) => {
            let (rep, cp1) = replaced_chunk(l2[idx], cp, chunk);
            let l3 = l2.update(idx, rep);
            let cp2 = without_compressed(cp1, chunk.alias);
            let l4 = refreshed(cleared(l3, chunk.alias, cp2.len() > 0), cp2, cp1.contains(chunk.alias));
            let (l5, cp3, m3, t3) = enforced(l4, cp2, m2, Seq::empty(), limit, Some(idx as usize));
            (l5, cp3, m3, t3, UpdateOutcome { lane: lane_ref(l5, limit, idx as usize), started_lane: false })
        },
        None => {
            let l3 = l2.push(chunk);
            let idx = (l3.len() - 1) as usize;
            let (l5, cp3, m3, t3) = enforced(l3, cp, m2, Seq::empty(), limit, Some(idx));
            (l5, cp3, m3, t3, UpdateOutcome { lane: lane_ref(l5, limit, idx), started_lane: true })
        },
    }
}

proof fn lemma_push_distinct_well_formed(cp: Seq<u32>, p: u32)
    requires
        compressed_well_formed(cp),
    ensures
        compressed_well_formed(push_distinct(cp, p)),
{
    if p != NONE && !cp.contains(p) {
        let s = cp.push(p);
        assert forall|i: int, j: int| 0 <= i < s.len() && 0 <= j < s.len() && i != j implies s[i] != s[j] by {
            if i == cp.len() {
                assert(cp[j] != p);
            } else if j == cp.len() {
                assert(cp[i] != p);
            }
        }
    }
}

proof fn lemma_without_compressed_well_formed(cp: Seq<u32>, p: u32)
    requires
        compressed_well_formed(cp),
    ensures
        compressed_well_formed(without_compressed(cp, p)),
{
    cp.index_of_first_ensures(p);
    if let Some(k) = cp.index_of_first(p) {
        let s = cp.remove(k);
        assert forall|i: int| 0 <= i < s.len() implies s[i] != NONE by {
            if i < k {
                assert(s[i] == cp[i]);
            } else {
                assert(s[i] == cp[i + 1]);
            }
        }
        assert forall|i: int, j: int| 0 <= i < s.len() && 0 <= j < s.len() && i != j implies s[i] != s[j] by {
            let ii = if i < k { i } else { i + 1 };
            let jj = if j < k { j } else { j + 1 };
            assert(s[i] == cp[ii]);
            assert(s[j] == cp[jj]);
        }
    }
}

/// The first position of `x` in `v`, if it is there.
fn position_in_vec(v: &Vec<u32>, x: u32) -> (r: Option<usize>)
    ensures
        match r {
            Some(i) => v@.index_of_first(x) == Some(i as int),
            None => v@.index_of_first(x) is None,
        },
{
    let ghost s = v@;
    let mut i: usize = 0;
    while i < v.len()
        invariant
            s == v@,
            i <= v.len(),
            forall|j: int| 0 <= j < i ==> s[j] != x,
        decreases v.len() - i,
    {
        if v[i] == x {
            proof {
                s.index_of_first_ensures(x);
                let f = s.index_of_first(x).unwrap();
                if f < i {
                    assert(s[f] != x);
                }
                if f > i {
                    assert(s[i as int] == x);
                }
            }
            return Some(i);
        }
        i = i + 1;
    }
    proof {
        s.index_of_first_ensures(x);
        if s.contains(x) {
            let k = choose|k: int| 0 <= k < s.len() && s[k] == x;
            assert(s[k] != x);
        }
    }
    None
}

/// Appends both parents of `chunk` to `parents`, each unless it is the empty alias or already there.
fn append_unique_parents(parents: &mut Vec<u32>, chunk: &Chunk)
    ensures
        final(parents)@ == with_parents_of(old(parents)@, *chunk),
{
    let aliases = chunk.parent_aliases();
    let mut k: usize = 0;
    while k < 2
        invariant
            aliases@ == seq![chunk.parent_a, chunk.parent_b],
            k <= 2,
            parents@ == if k == 0 {
                old(parents)@
            } else if k == 1 {
                push_distinct(old(parents)@, chunk.parent_a)
            } else {
                with_parents_of(old(parents)@, *chunk)
            },
        decreases 2 - k,
    {
        let parent = aliases[k];
        if parent != NONE && position_in_vec(parents, parent).is_none() {
            proof {
                parents@.index_of_first_ensures(parent);
            }
            parents.push(parent);
        } else {
            proof {
                parents@.index_of_first_ensures(parent);
            }
        }
        k = k + 1;
    }
}

impl Buffer {
    /// Everything that is neither the lanes, the compressed parents nor the pending delta.
    closed spec fn keeps_frame(&self, other: &Buffer) -> bool {
        &&& other.pending().len() <= self.pending().len()
        &&& forall|i: int| 0 <= i < other.pending().len() ==> #[trigger] self.pending()[i] == other.pending()[i]
        &&& self.recorded() == other.recorded()
        &&& self.checkpoints == other.checkpoints
        &&& self.lane_limit == other.lane_limit
    }

    proof fn lemma_record(&self, other: &Buffer, op: DeltaOp)
        requires
            other.replays(),
            self.keeps_frame(other),
            self.pending() == other.pending().push(op),
            op_valid(other.state(), op),
            self.state() == apply_op(other.state(), op),
            compressed_well_formed(self.compressed()),
        ensures
            self.replays(),
    {
        let rs = self.recorded();
        lemma_replay_push(history(rs, rs.len() as int), other.pending(), op);
        assert forall|k: usize| #[trigger] checkpoint_entries(self.checkpoints).contains_key(k) implies {
            &&& k < rs.len()
            &&& k % CHECKPOINT_EVERY == 0
            &&& snapshot_state(checkpoint_entries(self.checkpoints)[k]) == history(rs, k + 1)
        } by {
            assert(checkpoint_entries(other.checkpoints).contains_key(k));
        }
    }

    /// Puts `c` in lane `idx` and records it.
    fn replace_lane(&mut self, idx: usize, c: Chunk)
        requires
            old(self).replays(),
            idx < old(self).lanes().len(),
        ensures
            final(self).replays(),
            final(self).keeps_frame(old(self)),
            final(self).lanes() == old(self).lanes().update(idx as int, c),
            final(self).compressed() == old(self).compressed(),
            final(self).mergers@ == old(self).mergers@,
            final(self).transient_lanes@ == old(self).transient_lanes@,
            final(self).pending() == old(self).pending().push(DeltaOp::Replace { index: idx, new: c }),
    {
        lanes_set(&mut self.curr, idx, c);
        self.delta.ops.push(DeltaOp::Replace { index: idx, new: c });
        proof {
            self.lemma_record(old(self), DeltaOp::Replace { index: idx, new: c });
        }
    }

    /// Opens a lane at the end for `c` and records it.
    fn push_lane(&mut self, c: Chunk)
        requires
            old(self).replays(),
        ensures
            final(self).replays(),
            final(self).keeps_frame(old(self)),
            final(self).lanes() == old(self).lanes().push(c),
            final(self).compressed() == old(self).compressed(),
            final(self).mergers@ == old(self).mergers@,
            final(self).transient_lanes@ == old(self).transient_lanes@,
    {
        let index = lanes_len(&self.curr);
        lanes_push(&mut self.curr, c);
        self.delta.ops.push(DeltaOp::Insert { index, item: c });
        proof {
            assert(old(self).lanes().insert(index as int, c) =~= old(self).lanes().push(c));
            self.lemma_record(old(self), DeltaOp::Insert { index, item: c });
        }
    }

    /// Drops the last lane and records it.
    fn pop_lane(&mut self)
        requires
            old(self).replays(),
            old(self).lanes().len() > 0,
        ensures
            final(self).replays(),
            final(self).keeps_frame(old(self)),
            final(self).lanes() == old(self).lanes().drop_last(),
            final(self).compressed() == old(self).compressed(),
            final(self).mergers@ == old(self).mergers@,
            final(self).transient_lanes@ == old(self).transient_lanes@,
    {
        let index = lanes_len(&self.curr) - 1;
        lanes_pop(&mut self.curr);
        self.delta.ops.push(DeltaOp::Remove { index });
        proof {
            assert(old(self).lanes().remove(index as int) =~= old(self).lanes().drop_last());
            self.lemma_record(old(self), DeltaOp::Remove { index });
        }
    }

    /// Folds `parent` into the flattened lane's parents, unless it is empty or already there;
    /// says whether it was added.
    fn add_compressed_parent(&mut self, parent: u32) -> (added: bool)
        requires
            old(self).replays(),
        ensures
            final(self).replays(),
            final(self).keeps_frame(old(self)),
            final(self).lanes() == old(self).lanes(),
            final(self).compressed() == push_distinct(old(self).compressed(), parent),
            added == (parent != NONE && !old(self).compressed().contains(parent)),
            final(self).mergers@ == old(self).mergers@,
            final(self).transient_lanes@ == old(self).transient_lanes@,
    {
        if parent == NONE || self.has_compressed_parent(parent) {
            return false;
        }
        parents_push(&mut self.compressed_parents, parent);
        self.delta.ops.push(DeltaOp::CompressedParentInsert { parent });
        proof {
            lemma_push_distinct_well_formed(old(self).compressed(), parent);
            self.lemma_record(old(self), DeltaOp::CompressedParentInsert { parent });
        }
        true
    }

    /// Takes `parent` out of the compressed parents; says whether it was there.
    fn remove_compressed_parent(&mut self, parent: u32) -> (removed: bool)
        requires
            old(self).replays(),
        ensures
            final(self).replays(),
            final(self).keeps_frame(old(self)),
            final(self).lanes() == old(self).lanes(),
            final(self).compressed() == without_compressed(old(self).compressed(), parent),
            removed == old(self).compressed().contains(parent),
            final(self).mergers@ == old(self).mergers@,
            final(self).transient_lanes@ == old(self).transient_lanes@,
    {
        proof {
            old(self).compressed().index_of_first_ensures(parent);
        }
        let Some(index) = position_of_parent(&self.compressed_parents, parent) else {
            return false;
        };
        parents_remove(&mut self.compressed_parents, index);
        self.delta.ops.push(DeltaOp::CompressedParentRemove { parent });
        proof {
            lemma_without_compressed_well_formed(old(self).compressed(), parent);
            self.lemma_record(old(self), DeltaOp::CompressedParentRemove { parent });
        }
        true
    }

    fn has_compressed_parent(&self, parent: u32) -> (b: bool)
        ensures
            b == (parent != NONE && self.compressed().contains(parent)),
    {
        parent != NONE && parents_contain(&self.compressed_parents, parent)
    }

    /// The last compressed parent, or the empty alias.
    fn last_compressed_parent(&self) -> (p: u32)
        ensures
            p == last_compressed(self.compressed()),
    {
        let n = parents_len(&self.compressed_parents);
        if n == 0 {
            NONE
        } else {
            parents_at(&self.compressed_parents, n - 1)
        }
    }

    /// The first flattened lane.
    fn flattened_lane_idx(&self) -> (r: Option<usize>)
        ensures
            r matches Some(i) ==> i < self.lanes().len() && first_lane(self.lanes(), |c: Chunk| c.is_flattened) == Some(i as int),
            r is None ==> first_lane(self.lanes(), |c: Chunk| c.is_flattened) is None,
    {
        let n = lanes_len(&self.curr);
        let mut i: usize = 0;
        while i < n
            invariant
                n == self.lanes().len(),
                i <= n,
                forall|j: int| 0 <= j < i ==> !(#[trigger] self.lanes()[j]).is_flattened,
            decreases n - i,
        {
            if lanes_at(&self.curr, i).is_flattened {
                proof {
                    lemma_first_lane(self.lanes(), |c: Chunk| c.is_flattened, i as int);
                }
                return Some(i);
            }
            i = i + 1;
        }
        proof {
            lemma_first_lane(self.lanes(), |c: Chunk| c.is_flattened, n as int);
        }
        None
    }

    /// The lane a commit continues, if any.
    fn lane_for_parent(&self, alias: u32) -> (r: Option<usize>)
        ensures
            r matches Some(i) ==> i < self.lanes().len() && lane_for_parent(self.lanes(), self.compressed(), alias) == Some(i as int),
            r is None ==> lane_for_parent(self.lanes(), self.compressed(), alias) is None,
    {
        let n = lanes_len(&self.curr);
        let mut i: usize = 0;
        while i < n
            invariant
                n == self.lanes().len(),
                i <= n,
                forall|j: int| 0 <= j < i ==> !chunk_has_parent(#[trigger] self.lanes()[j], alias),
            decreases n - i,
        {
            if lanes_at(&self.curr, i).has_parent(alias) {
                proof {
                    lemma_first_lane(self.lanes(), |c: Chunk| chunk_has_parent(c, alias), i as int);
                }
                return Some(i);
            }
            i = i + 1;
        }
        proof {
            lemma_first_lane(self.lanes(), |c: Chunk| chunk_has_parent(c, alias), n as int);
        }
        if self.has_compressed_parent(alias) {
            self.flattened_lane_idx()
        } else {
            None
        }
    }
}

impl Buffer {
    /// The parents that fold into the flattened lane when the lanes from `cap_idx` on collapse.
    fn compressed_parent_candidates(&self, cap_idx: usize, representative_idx: usize) -> (parents: Vec<u32>)
        requires
            cap_idx <= self.lanes().len(),
        ensures
            parents@ == candidate_parents(self.lanes(), cap_idx as int, representative_idx as int, self.lanes().len() as int),
    {
        let mut parents = Vec::new();
        let n = lanes_len(&self.curr);
        if representative_idx < n {
            let representative = lanes_at(&self.curr, representative_idx);
            if !representative.is_dummy() && !representative.is_flattened {
                append_unique_parents(&mut parents, &representative);
            }
        }
        proof {
            assert(parents@ == candidate_parents(self.lanes(), cap_idx as int, representative_idx as int, cap_idx as int));
        }
        let mut idx = cap_idx;
        while idx < n
            invariant
                n == self.lanes().len(),
                cap_idx <= idx <= n,
                parents@ == candidate_parents(self.lanes(), cap_idx as int, representative_idx as int, idx as int),
            decreases n - idx,
        {
            let chunk = lanes_at(&self.curr, idx);
            if !(idx == representative_idx || chunk.is_dummy() || chunk.is_flattened) {
                append_unique_parents(&mut parents, &chunk);
            }
            idx = idx + 1;
        }
        parents
    }

    /// The first live lane at or after `from`.
    fn first_live_lane_from(&self, from: usize) -> (r: Option<usize>)
        requires
            from <= self.lanes().len(),
        ensures
            r matches Some(i) ==> from <= i < self.lanes().len()
                && first_lane(self.lanes().skip(from as int), |c: Chunk| !chunk_is_dummy(c)) == Some(i - from),
            r is None ==> first_lane(self.lanes().skip(from as int), |c: Chunk| !chunk_is_dummy(c)) is None,
    {
        let ghost tail = self.lanes().skip(from as int);
        let n = lanes_len(&self.curr);
        let mut i = from;
        while i < n
            invariant
                n == self.lanes().len(),
                tail == self.lanes().skip(from as int),
                from <= i <= n,
                forall|j: int| 0 <= j < i - from ==> chunk_is_dummy(#[trigger] tail[j]),
            decreases n - i,
        {
            if !lanes_at(&self.curr, i).is_dummy() {
                proof {
                    assert(tail[i - from] == self.lanes()[i as int]);
                    lemma_first_lane(tail, |c: Chunk| !chunk_is_dummy(c), i - from);
                }
                return Some(i);
            }
            proof {
                assert(tail[i - from] == self.lanes()[i as int]);
            }
            i = i + 1;
        }
        proof {
            lemma_first_lane(tail, |c: Chunk| !chunk_is_dummy(c), n - from);
        }
        None
    }

    /// The flattened chunk that stands for the lanes from `cap_idx` on; their parents are folded
    /// into the compressed parents as it is built.
    fn flattened_representative(&mut self, cap_idx: usize, preferred_idx: Option<usize>) -> (rep: Chunk)
        requires
            old(self).replays(),
            cap_idx < old(self).lanes().len(),
        ensures
            final(self).replays(),
            final(self).keeps_frame(old(self)),
            final(self).lanes() == old(self).lanes(),
            (rep, final(self).compressed()) == representative(old(self).lanes(), old(self).compressed(), cap_idx as int, preferred_idx),
            final(self).mergers@ == old(self).mergers@,
            final(self).transient_lanes@ == old(self).transient_lanes@,
    {
        let ghost lanes = self.lanes();
        let n = lanes_len(&self.curr);
        let mut preferred: Option<(usize, Chunk)> = None;
        if let Some(idx) = preferred_idx {
            if idx >= cap_idx && idx < n {
                let chunk = lanes_at(&self.curr, idx);
                if !chunk.is_dummy() {
                    preferred = Some((idx, chunk));
                }
            }
        }
        let (representative_idx, source) = match preferred {
            Some(found) => found,
            None => match self.first_live_lane_from(cap_idx) {
                Some(i) => (i, lanes_at(&self.curr, i)),
                None => (cap_idx, Chunk::dummy()),
            },
        };
        assert((representative_idx as int, source) == representative_source(lanes, cap_idx as int, preferred_idx));

        let mut representative = source.with_flattened(true);
        let new_parents = self.compressed_parent_candidates(cap_idx, representative_idx);
        let ghost ps = new_parents@;
        let ghost cp0 = self.compressed();
        let start_marker = source.parent_a;
        let mut end_marker = NONE;
        let mut k: usize = 0;
        while k < new_parents.len()
            invariant
                ps == new_parents@,
                k <= ps.len(),
                self.replays(),
                self.keeps_frame(old(self)),
                self.lanes() == lanes,
                self.mergers@ == old(self).mergers@,
                self.transient_lanes@ == old(self).transient_lanes@,
                (self.compressed(), end_marker) == with_all_compressed(cp0, ps.take(k as int)),
            decreases ps.len() - k,
        {
            proof {
                assert(ps.take(k + 1).drop_last() =~= ps.take(k as int));
            }
            if self.add_compressed_parent(new_parents[k]) {
                end_marker = new_parents[k];
            }
            k = k + 1;
        }
        proof {
            assert(ps.take(ps.len() as int) =~= ps);
        }

        if start_marker != NONE {
            self.add_compressed_parent(start_marker);
            representative.parent_a = start_marker;
        }

        if end_marker == NONE {
            end_marker = self.last_compressed_parent();
        }
        representative.parent_b = end_marker;
        representative
    }

    /// Keeps only the planned mergers whose commit still has a live lane.
    fn purge_unstored_mergers(&mut self)
        ensures
            final(self).mergers@ == kept_mergers(old(self).mergers@, old(self).lanes()),
            final(self).curr == old(self).curr,
            final(self).compressed_parents == old(self).compressed_parents,
            final(self).deltas == old(self).deltas,
            final(self).checkpoints == old(self).checkpoints,
            final(self).delta == old(self).delta,
            final(self).transient_lanes == old(self).transient_lanes,
            final(self).lane_limit == old(self).lane_limit,
    {
        let ghost lanes = self.lanes();
        let ghost ms = self.mergers@;
        let mut kept: Vec<u32> = Vec::new();
        let n = lanes_len(&self.curr);
        let mut k: usize = 0;
        while k < self.mergers.len()
            invariant
                ms == self.mergers@,
                lanes == self.lanes(),
                n == lanes.len(),
                k <= ms.len(),
                kept@ == kept_mergers(ms.take(k as int), lanes),
            decreases ms.len() - k,
        {
            let alias = self.mergers[k];
            let mut alive = false;
            let mut i: usize = 0;
            while i < n
                invariant
                    n == lanes.len(),
                    lanes == self.lanes(),
                    i <= n,
                    alive == exists|j: int| 0 <= j < i && !chunk_is_dummy(#[trigger] lanes[j]) && lanes[j].alias == alias,
                decreases n - i,
            {
                let chunk = lanes_at(&self.curr, i);
                if !chunk.is_dummy() && chunk.alias == alias {
                    alive = true;
                }
                i = i + 1;
            }
            proof {
                assert(ms.take(k + 1).drop_last() =~= ms.take(k as int));
                assert(ms.take(k + 1).last() == alias);
                assert(lane_alive(lanes, alias) == alive);
            }
            if alive {
                kept.push(alias);
            }
            k = k + 1;
        }
        proof {
            assert(ms.take(ms.len() as int) =~= ms);
        }
        self.mergers = kept;
    }

    /// Keeps only the transient lanes below `limit` and, when `guard_edge`, not the flattened lane
    /// at the limit's edge.
    fn retain_transients(&mut self, limit: usize, guard_edge: bool)
        ensures
            final(self).transient_lanes@ == kept_transients(old(self).transient_lanes@, old(self).lanes(), limit, guard_edge),
            final(self).curr == old(self).curr,
            final(self).compressed_parents == old(self).compressed_parents,
            final(self).deltas == old(self).deltas,
            final(self).checkpoints == old(self).checkpoints,
            final(self).delta == old(self).delta,
            final(self).mergers == old(self).mergers,
            final(self).lane_limit == old(self).lane_limit,
    {
        let ghost lanes = self.lanes();
        let ghost ts = self.transient_lanes@;
        let mut kept: Vec<usize> = Vec::new();
        let n = lanes_len(&self.curr);
        let mut k: usize = 0;
        while k < self.transient_lanes.len()
            invariant
                ts == self.transient_lanes@,
                lanes == self.lanes(),
                n == lanes.len(),
                k <= ts.len(),
                kept@ == kept_transients(ts.take(k as int), lanes, limit, guard_edge),
            decreases ts.len() - k,
        {
            let t = self.transient_lanes[k];
            let keep = t < limit && (!guard_edge || t + 1 != limit || !(t < n && lanes_at(&self.curr, t).is_flattened));
            proof {
                assert(ts.take(k + 1).drop_last() =~= ts.take(k as int));
                assert(ts.take(k + 1).last() == t);
            }
            if keep {
                kept.push(t);
            }
            k = k + 1;
        }
        proof {
            assert(ts.take(ts.len() as int) =~= ts);
        }
        self.transient_lanes = kept;
    }

    /// Folds the lanes past the limit into a flattened lane at its last place.
    fn enforce_lane_limit(&mut self, preferred_idx: Option<usize>)
        requires
            old(self).replays(),
            old(self).lane_limit matches Some(l) ==> l >= 1,
        ensures
            final(self).replays(),
            final(self).keeps_frame(old(self)),
            (final(self).lanes(), final(self).compressed(), final(self).mergers@, final(self).transient_lanes@)
                == enforced(old(self).lanes(), old(self).compressed(), old(self).mergers@, old(self).transient_lanes@,
                    old(self).lane_limit, preferred_idx),
    {
        let Some(limit) = self.lane_limit else {
            return;
        };

        if lanes_len(&self.curr) <= limit {
            self.purge_unstored_mergers();
            self.retain_transients(limit, false);
            return;
        }

        let cap_idx = limit - 1;
        let replacement = self.flattened_representative(cap_idx, preferred_idx);
        if lanes_at(&self.curr, cap_idx) != replacement {
            self.replace_lane(cap_idx, replacement);
        } else {
            assert(self.lanes().update(cap_idx as int, replacement) =~= self.lanes());
        }

        let ghost capped = self.lanes();
        while lanes_len(&self.curr) > limit
            invariant
                self.replays(),
                self.keeps_frame(old(self)),
                limit >= 1,
                self.lane_limit == Some(limit),
                capped.len() > limit,
                limit <= self.lanes().len() <= capped.len(),
                self.lanes() == capped.take(self.lanes().len() as int),
                self.compressed() == representative(old(self).lanes(), old(self).compressed(), cap_idx as int, preferred_idx).1,
                self.mergers@ == old(self).mergers@,
                self.transient_lanes@ == old(self).transient_lanes@,
            decreases self.lanes().len(),
        {
            let ghost before = self.lanes();
            self.pop_lane();
            proof {
                assert(before.drop_last() =~= capped.take(before.len() - 1));
            }
        }
        proof {
            assert(self.lanes() =~= capped.take(limit as int));
        }

        self.purge_unstored_mergers();
        self.retain_transients(limit, true);
    }

    /// Where a commit placed at `lane_idx` shows.
    fn lane_ref_for_original_index(&self, lane_idx: usize) -> (r: LaneRef)
        requires
            self.lane_limit matches Some(l) ==> l >= 1,
        ensures
            r == lane_ref(self.lanes(), self.lane_limit, lane_idx),
    {
        if let Some(limit) = self.lane_limit {
            if lane_idx >= limit {
                return LaneRef::new(limit - 1, true);
            }
        }
        LaneRef::new(lane_idx, lane_idx < lanes_len(&self.curr) && lanes_at(&self.curr, lane_idx).is_flattened)
    }
}

impl Buffer {
    /// Empties every transient lane that holds something, and forgets the transient lanes.
    fn expire_transient_lanes(&mut self)
        requires
            old(self).replays(),
        ensures
            final(self).replays(),
            final(self).keeps_frame(old(self)),
            final(self).lanes() == expired(old(self).lanes(), old(self).transient_lanes@),
            final(self).compressed() == old(self).compressed(),
            final(self).mergers@ == old(self).mergers@,
            final(self).transient_lanes@ == Seq::<usize>::empty(),
            final(self).pending() == old(self).pending() + expiry_ops(old(self).lanes(), old(self).transient_lanes@),
    {
        let mut transient_lanes: Vec<usize> = Vec::new();
        std::mem::swap(&mut transient_lanes, &mut self.transient_lanes);
        let ghost ts = transient_lanes@;
        let ghost orig = self.lanes();
        let mut k: usize = 0;
        while k < transient_lanes.len()
            invariant
                ts == transient_lanes@,
                k <= ts.len(),
                self.replays(),
                self.keeps_frame(old(self)),
                self.compressed() == old(self).compressed(),
                self.mergers@ == old(self).mergers@,
                self.transient_lanes@ == Seq::<usize>::empty(),
                orig == old(self).lanes(),
                self.lanes() == expired(orig, ts.take(k as int)),
                self.pending() == old(self).pending() + expiry_ops(orig, ts.take(k as int)),
            decreases ts.len() - k,
        {
            let lane_idx = transient_lanes[k];
            let ghost before = self.lanes();
            let ghost pending_before = self.pending();
            proof {
                assert(ts.take(k + 1) =~= ts.take(k as int).push(lane_idx));
                assert(ts.take(k + 1).drop_last() =~= ts.take(k as int));
            }
            if lane_idx < lanes_len(&self.curr) && !lanes_at(&self.curr, lane_idx).is_dummy() {
                self.replace_lane(lane_idx, Chunk::dummy());
                proof {
                    assert(self.pending() =~= old(self).pending() + expiry_ops(orig, ts.take(k + 1)));
                    lemma_take_step_contains(ts, k as int);
                    assert(self.lanes() =~= expired(orig, ts.take(k + 1)));
                }
            } else {
                proof {
                    assert(self.pending() =~= old(self).pending() + expiry_ops(orig, ts.take(k + 1)));
                    lemma_take_step_contains(ts, k as int);
                    assert(before =~= expired(orig, ts.take(k + 1)));
                }
            }
            k = k + 1;
        }
        proof {
            assert(ts.take(ts.len() as int) =~= ts);
        }
    }

    /// Drops trailing empty lanes: they carry no future topology.
    fn trim_trailing_dummies(&mut self)
        requires
            old(self).replays(),
        ensures
            final(self).replays(),
            final(self).keeps_frame(old(self)),
            final(self).lanes() == trimmed(old(self).lanes()),
            final(self).compressed() == old(self).compressed(),
            final(self).mergers@ == old(self).mergers@,
            final(self).transient_lanes@ == old(self).transient_lanes@,
    {
        while lanes_len(&self.curr) > 0 && lanes_at(&self.curr, lanes_len(&self.curr) - 1).is_dummy()
            invariant
                self.replays(),
                self.keeps_frame(old(self)),
                self.compressed() == old(self).compressed(),
                self.mergers@ == old(self).mergers@,
                self.transient_lanes@ == old(self).transient_lanes@,
                trimmed(self.lanes()) == trimmed(old(self).lanes()),
            decreases self.lanes().len(),
        {
            self.pop_lane();
        }
    }

    /// Splits the first lane whose commit has a planned merger: the lane keeps its first parent
    /// and a new lane at the end heads for the second.
    fn split_planned_merger(&mut self)
        requires
            old(self).replays(),
        ensures
            final(self).replays(),
            final(self).keeps_frame(old(self)),
            (final(self).lanes(), final(self).mergers@) == split_merger(old(self).lanes(), old(self).mergers@),
            final(self).compressed() == old(self).compressed(),
            final(self).transient_lanes@ == old(self).transient_lanes@,
    {
        let ghost lanes = self.lanes();
        let ghost ms = self.mergers@;
        let n = lanes_len(&self.curr);
        let mut i: usize = 0;
        while i < n
            invariant
                n == lanes.len(),
                lanes == self.lanes(),
                ms == self.mergers@,
                *self == *old(self),
                old(self).replays(),
                i <= n,
                forall|j: int| 0 <= j < i ==> !ms.contains((#[trigger] lanes[j]).alias),
            decreases n - i,
        {
            let chunk = lanes_at(&self.curr, i);
            let found = position_in_vec(&self.mergers, chunk.alias);
            proof {
                ms.index_of_first_ensures(chunk.alias);
            }
            if let Some(merger_pos) = found {
                proof {
                    lemma_first_lane(lanes, |c: Chunk| ms.contains(c.alias), i as int);
                }
                self.mergers.remove(merger_pos);
                let mut clone = chunk;
                clone.parent_a = clone.parent_b;
                clone.parent_b = NONE;
                let mut kept = chunk;
                kept.parent_b = NONE;
                self.replace_lane(i, kept);
                self.push_lane(clone);
                return;
            }
            i = i + 1;
        }
        proof {
            lemma_first_lane(lanes, |c: Chunk| ms.contains(c.alias), n as int);
        }
    }

    /// What goes into lane `lane_idx` for `replacement`: the commit itself, or in the flattened
    /// lane the commit flattened, its second parent compressed, the last compressed parent its end.
    fn replacement_chunk_for_lane(&mut self, lane_idx: usize, replacement: Chunk) -> (r: Chunk)
        requires
            old(self).replays(),
            lane_idx < old(self).lanes().len(),
        ensures
            final(self).replays(),
            final(self).keeps_frame(old(self)),
            final(self).lanes() == old(self).lanes(),
            (r, final(self).compressed()) == replaced_chunk(old(self).lanes()[lane_idx as int], old(self).compressed(), replacement),
            final(self).mergers@ == old(self).mergers@,
            final(self).transient_lanes@ == old(self).transient_lanes@,
    {
        let old_chunk = lanes_at(&self.curr, lane_idx);
        if !old_chunk.is_flattened {
            return replacement;
        }

        if replacement.parent_b != NONE {
            self.add_compressed_parent(replacement.parent_b);
        }

        let mut flattened = replacement.with_flattened(true);
        flattened.parent_b = self.last_compressed_parent();
        flattened
    }

    /// After `old_alias` took a lane: no other lane heads for it any more, lanes left with no parent
    /// empty out, and when it was a compressed parent the flattened lane's end marker follows.
    /// Changed lanes are recorded front to back, each once.
    fn release_parent(&mut self, old_alias: u32, compressed_parent_consumed: bool)
        requires
            old(self).replays(),
        ensures
            final(self).replays(),
            final(self).keeps_frame(old(self)),
            final(self).lanes() == refreshed(
                cleared(old(self).lanes(), old_alias, old(self).compressed().len() > 0),
                old(self).compressed(),
                compressed_parent_consumed,
            ),
            final(self).compressed() == old(self).compressed(),
            final(self).mergers@ == old(self).mergers@,
            final(self).transient_lanes@ == old(self).transient_lanes@,
    {
        let ghost orig = self.lanes();
        let ghost rs = self.recorded();
        let ghost base = history(rs, rs.len() as int);
        let n = lanes_len(&self.curr);
        let compressed_left = parents_len(&self.compressed_parents) > 0;
        let mut changed: Vec<bool> = Vec::new();

        // Clear consumed parent pointers so inactive branch lanes collapse into dummies.
        let mut i: usize = 0;
        while i < n
            invariant
                n == orig.len(),
                self.lanes().len() == n,
                i <= n,
                changed@.len() == i,
                compressed_left == (old(self).compressed().len() > 0),
                self.keeps_frame(old(self)),
                self.compressed_parents == old(self).compressed_parents,
                self.delta == old(self).delta,
                self.mergers == old(self).mergers,
                self.transient_lanes == old(self).transient_lanes,
                forall|j: int| 0 <= j < i ==> #[trigger] self.lanes()[j] == cleared_lane(orig[j], old_alias, compressed_left),
                forall|j: int| i <= j < n ==> #[trigger] self.lanes()[j] == orig[j],
                forall|j: int| 0 <= j < i ==> #[trigger] changed@[j] == (orig[j].alias != old_alias && chunk_has_parent(orig[j], old_alias)),
            decreases n - i,
        {
            let mut inner = lanes_at(&self.curr, i);
            if inner.alias == old_alias {
                changed.push(false);
            } else {
                let parents_changed = inner.remove_parent(old_alias);
                if parents_changed {
                    if !inner.has_any_parent() && !(inner.is_flattened && compressed_left) {
                        inner = Chunk::dummy();
                    }
                    lanes_set(&mut self.curr, i, inner);
                }
                changed.push(parents_changed);
            }
            i = i + 1;
        }
        let ghost cleared_lanes = self.lanes();
        proof {
            assert(cleared_lanes =~= cleared(orig, old_alias, compressed_left));
        }

        if compressed_parent_consumed {
            let flattened = self.flattened_lane_idx();
            if let Some(lane_idx) = flattened {
                let end_marker = self.last_compressed_parent();
                let mut chunk = lanes_at(&self.curr, lane_idx);
                if chunk.parent_b != end_marker {
                    chunk.parent_b = end_marker;
                    lanes_set(&mut self.curr, lane_idx, chunk);
                    changed.set(lane_idx, true);
                } else {
                    assert(cleared_lanes.update(lane_idx as int, chunk) =~= cleared_lanes);
                }
                if !chunk.has_any_parent() && parents_len(&self.compressed_parents) == 0 {
                    lanes_set(&mut self.curr, lane_idx, Chunk::dummy());
                    changed.set(lane_idx, true);
                }
            }
        }
        let ghost final_lanes = self.lanes();
        proof {
            assert(final_lanes =~= refreshed(cleared_lanes, old(self).compressed(), compressed_parent_consumed));
            assert forall|j: int| 0 <= j < n && !changed@[j] implies #[trigger] final_lanes[j] == orig[j] by {
            }
        }

        // Record every changed lane once, front to back.
        let mut k: usize = 0;
        while k < n
            invariant
                n == orig.len(),
                final_lanes.len() == n,
                changed@.len() == n,
                k <= n,
                self.lanes() == final_lanes,
                self.compressed() == old(self).compressed(),
                self.keeps_frame(old(self)),
                rs == self.recorded(),
                base == history(rs, rs.len() as int),
                history_replayable(rs, rs.len() as int),
                self.mergers == old(self).mergers,
                self.transient_lanes == old(self).transient_lanes,
                forall|j: int| 0 <= j < n && !changed@[j] ==> #[trigger] final_lanes[j] == orig[j],
                replayable(base, self.pending()),
                replay(base, self.pending()) == (
                    Seq::new(n as nat, |j: int| if j < k && changed@[j] { final_lanes[j] } else { orig[j] }),
                    self.compressed(),
                ),
            decreases n - k,
        {
            if changed[k] {
                let chunk = lanes_at(&self.curr, k);
                let ghost ops = self.pending();
                self.delta.ops.push(DeltaOp::Replace { index: k, new: chunk });
                proof {
                    lemma_replay_push(base, ops, DeltaOp::Replace { index: k, new: chunk });
                    assert(replay(base, self.pending()).0 =~= Seq::new(n as nat, |j: int| if j < k + 1 && changed@[j] { final_lanes[j] } else { orig[j] }));
                }
            } else {
                proof {
                    assert(Seq::new(n as nat, |j: int| if j < k && changed@[j] { final_lanes[j] } else { orig[j] })
                        =~= Seq::new(n as nat, |j: int| if j < k + 1 && changed@[j] { final_lanes[j] } else { orig[j] }));
                }
            }
            k = k + 1;
        }
        proof {
            assert(Seq::new(n as nat, |j: int| if j < n && changed@[j] { final_lanes[j] } else { orig[j] }) =~= final_lanes);
            assert forall|k2: usize| #[trigger] checkpoint_entries(self.checkpoints).contains_key(k2) implies {
                &&& k2 < rs.len()
                &&& k2 % CHECKPOINT_EVERY == 0
                &&& snapshot_state(checkpoint_entries(self.checkpoints)[k2]) == history(rs, k2 + 1)
            } by {
                assert(checkpoint_entries(old(self).checkpoints).contains_key(k2));
            }
        }
    }

    /// Lays out the next commit: closes the previous row, empties transient lanes, drops trailing
    /// empty lanes, splits a planned merger, puts the commit in the lane heading for it (or a new
    /// lane), lets go of its alias everywhere else, and folds the lanes past the limit.
    pub fn update(&mut self, chunk: Chunk) -> (outcome: UpdateOutcome)
        requires
            old(self).wf(),
        ensures
            final(self).wf(),
            final(self).recorded() == old(self).recorded().push(old(self).pending()),
            final(self).checkpoint_rows() == if old(self).recorded().len() % (CHECKPOINT_EVERY as nat) == 0 {
                old(self).checkpoint_rows().insert(old(self).recorded().len() as usize, old(self).state())
            } else {
                old(self).checkpoint_rows()
            },
            final(self).limit() == old(self).limit(),
            expiry_ops(old(self).lanes(), old(self).transients()).is_prefix_of(final(self).pending()),
            ({
                let u = updated(old(self).lanes(), old(self).compressed(), old(self).planned_mergers(),
                    old(self).transients(), old(self).limit(), chunk);
                &&& final(self).lanes() == u.0
                &&& final(self).compressed() == u.1
                &&& final(self).planned_mergers() == u.2
                &&& final(self).transients() == u.3
                &&& outcome == u.4
            }),
    {
        self.backup();
        let ghost after_backup = *self;

        self.expire_transient_lanes();
        let ghost expiry = self.pending();
        proof {
            assert(expiry =~= expiry_ops(old(self).lanes(), old(self).transients()));
        }
        self.trim_trailing_dummies();

        // Planned mergers split a lane so the second parent can draw toward its target later.
        self.split_planned_merger();

        // Prefer replacing the parent lane; append only when the commit starts a new lane.
        if let Some(first_idx) = self.lane_for_parent(chunk.alias) {
            let old_alias = chunk.alias;
            let replacement = self.replacement_chunk_for_lane(first_idx, chunk);
            self.replace_lane(first_idx, replacement);
            let compressed_parent_consumed = self.remove_compressed_parent(old_alias);
            self.release_parent(old_alias, compressed_parent_consumed);
            self.enforce_lane_limit(Some(first_idx));
            UpdateOutcome { lane: self.lane_ref_for_original_index(first_idx), started_lane: false }
        } else {
            self.push_lane(chunk);
            let lane_idx = lanes_len(&self.curr) - 1;
            self.enforce_lane_limit(Some(lane_idx));
            UpdateOutcome { lane: self.lane_ref_for_original_index(lane_idx), started_lane: true }
        }
    }
}

impl Buffer {
    /// The lanes now.
    pub fn curr(&self) -> (v: &im::Vector<Chunk>)
        ensures
            lane_items(*v) == self.lanes(),
    {
        &self.curr
    }

    /// The compressed parents now.
    pub fn compressed_parents(&self) -> (v: &im::Vector<u32>)
        ensures
            parent_items(*v) == self.compressed(),
    {
        &self.compressed_parents
    }

    /// The deltas recorded so far.
    pub fn deltas(&self) -> (v: &im::Vector<Delta>)
        ensures
            delta_items(*v).map_values(|d: Delta| d.ops@) == self.recorded(),
    {
        &self.deltas
    }

    /// The operations since the last backup.
    pub fn delta(&self) -> (d: &Delta)
        ensures
            d.ops@ == self.pending(),
    {
        &self.delta
    }

    pub fn lane_limit(&self) -> (l: Option<usize>)
        ensures
            l == self.limit(),
    {
        self.lane_limit
    }

    /// The recorded deltas replay from nothing without an index falling out of range, and with
    /// the pending delta they rebuild the current row.
    pub proof fn lemma_rows_rebuild(&self)
        requires
            self.wf(),
        ensures
            history_replayable(self.recorded(), self.recorded().len() as int),
            replayable(history(self.recorded(), self.recorded().len() as int), self.pending()),
            replay(history(self.recorded(), self.recorded().len() as int), self.pending()) == self.state(),
    {
    }

    /// Every checkpoint is the row its deltas rebuild.
    pub proof fn lemma_checkpoints_rebuild(&self)
        requires
            self.wf(),
        ensures
            forall|k: usize| #[trigger] self.checkpoint_rows().contains_key(k) ==> {
                &&& k < self.recorded().len()
                &&& k % CHECKPOINT_EVERY == 0
                &&& self.checkpoint_rows()[k] == history(self.recorded(), k + 1)
            },
    {
        assert forall|k: usize| #[trigger] self.checkpoint_rows().contains_key(k) implies {
            &&& k < self.recorded().len()
            &&& k % CHECKPOINT_EVERY == 0
            &&& self.checkpoint_rows()[k] == history(self.recorded(), k + 1)
        } by {
            assert(checkpoint_entries(self.checkpoints).contains_key(k));
        }
    }

    /// A limited buffer never holds more lanes than its limit, which is at least one.
    pub proof fn lemma_within_limit(&self)
        requires
            self.wf(),
        ensures
            self.limit() matches Some(l) ==> 1 <= l && self.lanes().len() <= l,
    {
    }

    /// The compressed parents are distinct and never the empty alias.
    pub proof fn lemma_compressed_distinct(&self)
        requires
            self.wf(),
        ensures
            compressed_well_formed(self.compressed()),
    {
    }
}

/// Once a row is closed, the recorded deltas rebuild exactly the row as it stood.
pub proof fn lemma_backup_keeps_row(before: &Buffer, after: &Buffer)
    requires
        before.wf(),
        after.recorded() == before.recorded().push(before.pending()),
    ensures
        history(after.recorded(), after.recorded().len() as int) == before.state(),
{
    let rs = before.recorded();
    lemma_history_push(rs, before.pending(), rs.len() as int);
    assert(after.recorded()[rs.len() as int] == before.pending());
}

} // verus!
