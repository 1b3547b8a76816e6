//! The policy of a checkpointing replay cache: when a replay step becomes
//! a checkpoint, and how many checkpoints are kept.
use vstd::prelude::*;
use crate::runtime::decode::DecodedImage;

verus! {

/// A checkpointing policy: a step becomes a checkpoint once the replay
/// cost since the last one reaches `checkpoint_cost_threshold`; at most
/// `max_checkpoints` are kept, and 0 turns caching off.
#[derive(Debug, Clone, Copy, PartialEq, Eq, Hash, Structural)]
pub struct TransformPipelineExecutorConfig {
    pub checkpoint_cost_threshold: u32,
    pub max_checkpoints: usize,
}

impl TransformPipelineExecutorConfig {
    /// A policy from its two limits.
    pub fn new(checkpoint_cost_threshold: u32, max_checkpoints: usize) -> (r: TransformPipelineExecutorConfig)
        ensures
            r.checkpoint_cost_threshold == checkpoint_cost_threshold,
            r.max_checkpoints == max_checkpoints,
    {
        TransformPipelineExecutorConfig { checkpoint_cost_threshold, max_checkpoints }
    }

    /// Accounts one successful step of cost `op_cost` in the running cost
    /// `cost_since_checkpoint` and says whether it becomes a checkpoint.
    /// With caching off, or at cost 0, nothing changes and no checkpoint
    /// is made. Otherwise the cost is added (saturating); when it reaches
    /// the threshold a checkpoint is made and the running cost restarts at
    /// 0.
    pub fn should_checkpoint(&self, op_cost: u32, cost_since_checkpoint: &mut u32) -> (r: bool)
        ensures
            self.max_checkpoints == 0 || op_cost == 0 ==> !r && *final(cost_since_checkpoint) == *old(
                cost_since_checkpoint,
            ),
            self.max_checkpoints != 0 && op_cost != 0 ==> {
                let total = if *old(cost_since_checkpoint) + op_cost > u32::MAX {
                    u32::MAX as int
                } else {
                    *old(cost_since_checkpoint) + op_cost
                };
                &&& r == (total >= self.checkpoint_cost_threshold)
                &&& *final(cost_since_checkpoint) == (if r {
                    0
                } else {
                    total
                })
            },
    {
        if self.max_checkpoints == 0 || op_cost == 0 {
            return false;
        }
        *cost_since_checkpoint = cost_since_checkpoint.saturating_add(op_cost);
        if *cost_since_checkpoint < self.checkpoint_cost_threshold {
            return false;
        }
        *cost_since_checkpoint = 0;
        true
    }
}

/// The decision and the new running cost of one successful step, as
/// `should_checkpoint` makes them.
pub open spec fn spec_checkpoint_step(config: TransformPipelineExecutorConfig, cost: u32, op_cost: u32) -> (bool, u32) {
    if config.max_checkpoints == 0 || op_cost == 0 {
        (false, cost)
    } else {
        let total = if cost + op_cost > u32::MAX {
            u32::MAX as int
        } else {
            cost + op_cost
        };
        if total >= config.checkpoint_cost_threshold {
            (true, 0u32)
        } else {
            (false, total as u32)
        }
    }
}

/// The checkpoint bookkeeping of one replay: the replay cost since the last
/// checkpoint, and whether checkpoints may still be made (a best-effort
/// replay stops making them after its first skipped step, since later
/// images no longer follow from the operations alone).
#[derive(Debug, Clone, Copy, PartialEq, Eq, Structural)]
pub struct ReplayProgress {
    pub cost_since_checkpoint: u32,
    pub can_checkpoint: bool,
}

impl ReplayProgress {
    /// The bookkeeping at the start of a replay.
    pub fn new() -> (r: ReplayProgress)
        ensures
            r.cost_since_checkpoint == 0,
            r.can_checkpoint,
    {
        ReplayProgress { cost_since_checkpoint: 0, can_checkpoint: true }
    }

    /// Accounts a step that succeeded with replay cost `op_cost` and says
    /// whether its image becomes a checkpoint: only while checkpoints may
    /// be made, and then as `should_checkpoint` decides.
    pub fn record_success(&mut self, config: &TransformPipelineExecutorConfig, op_cost: u32) -> (r: bool)
        ensures
            final(self).can_checkpoint == old(self).can_checkpoint,
            old(self).can_checkpoint ==> r == spec_checkpoint_step(
                *config,
                old(self).cost_since_checkpoint,
                op_cost,
            ).0 && final(self).cost_since_checkpoint == spec_checkpoint_step(
                *config,
                old(self).cost_since_checkpoint,
                op_cost,
            ).1,
            !old(self).can_checkpoint ==> !r && final(self).cost_since_checkpoint == old(
                self,
            ).cost_since_checkpoint,
    {
        if !self.can_checkpoint {
            return false;
        }
        let mut cost = self.cost_since_checkpoint;
        let r = config.should_checkpoint(op_cost, &mut cost);
        self.cost_since_checkpoint = cost;
        r
    }

    /// Accounts a skipped step: no checkpoint is made from here on.
    pub fn record_failure(&mut self)
        ensures
            !final(self).can_checkpoint,
            final(self).cost_since_checkpoint == old(self).cost_since_checkpoint,
    {
        self.can_checkpoint = false;
    }
}

/// Whether the indices of `s` strictly increase.
pub open spec fn spec_sorted(s: Seq<(usize, DecodedImage)>) -> bool {
    forall|i: int, j: int| 0 <= i < j < s.len() ==> s[i].0 < s[j].0
}

/// The image stored under index `k` in `s`, if any.
pub open spec fn spec_lookup(s: Seq<(usize, DecodedImage)>, k: usize) -> Option<DecodedImage>
    decreases s.len(),
{
    if s.len() == 0 {
        None
    } else if s.last().0 == k {
        Some(s.last().1)
    } else {
        spec_lookup(s.drop_last(), k)
    }
}

/// In sorted entries, index `k` is stored at position `i` exactly when
/// the entry there has that index.
proof fn lemma_lookup_at(s: Seq<(usize, DecodedImage)>, k: usize)
    requires
        spec_sorted(s),
    ensures
        spec_lookup(s, k) is Some <==> exists|i: int| 0 <= i < s.len() && s[i].0 == k,
        forall|i: int| 0 <= i < s.len() && s[i].0 == k ==> spec_lookup(s, k) == Some(#[trigger] s[i].1),
    decreases s.len(),
{
    if s.len() > 0 {
        let t = s.drop_last();
        assert(spec_sorted(t));
        lemma_lookup_at(t, k);
        if s.last().0 != k {
            assert forall|i: int| 0 <= i < s.len() && s[i].0 == k implies spec_lookup(s, k) == Some(
                #[trigger] s[i].1,
            ) by {
                assert(t[i] == s[i]);
            }
            if spec_lookup(s, k) is None {
                assert forall|i: int| 0 <= i < s.len() implies s[i].0 != k by {
                    if i < t.len() {
                        assert(t[i] == s[i]);
                    }
                }
            } else {
                let i = choose|i: int| 0 <= i < t.len() && t[i].0 == k;
                assert(s[i] == t[i]);
            }
        } else {
            assert forall|i: int| 0 <= i < s.len() && s[i].0 == k implies spec_lookup(s, k) == Some(
                #[trigger] s[i].1,
            ) by {
                if i < s.len() - 1 {
                    assert(s[i].0 < s[s.len() - 1].0);
                }
            }
            assert(s[s.len() - 1].0 == k);
        }
    }
}

/// Replay checkpoints: the image after the operation at each index, kept
/// in ascending index order with no index twice.
#[derive(Debug, Clone)]
pub struct CheckpointCache {
    entries: Vec<(usize, DecodedImage)>,
}

impl CheckpointCache {
    /// The checkpoints in ascending index order.
    pub closed spec fn spec_entries(&self) -> Seq<(usize, DecodedImage)> {
        self.entries@
    }

    /// The indices strictly increase.
    pub open spec fn spec_well_formed(&self) -> bool {
        spec_sorted(self.spec_entries())
    }

    /// An empty cache.
    pub fn new() -> (r: CheckpointCache)
        ensures
            r.spec_entries() == Seq::<(usize, DecodedImage)>::empty(),
            r.spec_well_formed(),
    {
        CheckpointCache { entries: Vec::new() }
    }

    /// The number of checkpoints.
    pub fn len(&self) -> (r: usize)
        ensures
            r == self.spec_entries().len(),
    {
        self.entries.len()
    }

    /// Removes every checkpoint.
    pub fn clear(&mut self)
        ensures
            final(self).spec_entries() == Seq::<(usize, DecodedImage)>::empty(),
            final(self).spec_well_formed(),
    {
        self.entries.clear();
    }

    /// Stores `image` as the checkpoint of index `idx`, replacing any
    /// checkpoint already stored under it.
    pub fn insert(&mut self, idx: usize, image: DecodedImage)
        requires
            old(self).spec_well_formed(),
        ensures
            final(self).spec_well_formed(),
            forall|k: usize|
                #[trigger] spec_lookup(final(self).spec_entries(), k) == if k == idx {
                    Some(image)
                } else {
                    spec_lookup(old(self).spec_entries(), k)
                },
    {
        let ghost s = self.entries@;
        let mut p: usize = 0;
        while p < self.entries.len() && self.entries[p].0 < idx
            invariant
                s == self.entries@,
                p <= s.len(),
                forall|m: int| 0 <= m < p ==> s[m].0 < idx,
            decreases s.len() - p,
        {
            p += 1;
        }
        let ghost e = (idx, image);
        if p < self.entries.len() && self.entries[p].0 == idx {
            self.entries.set(p, (idx, image));
            proof {
                let t = self.entries@;
                assert(t == s.update(p as int, e));
                assert(spec_sorted(t)) by {
                    assert forall|i: int, j: int| 0 <= i < j < t.len() implies t[i].0 < t[j].0 by {
                        assert(s[i].0 < s[j].0);
                    }
                }
                assert forall|k: usize|
                    #[trigger] spec_lookup(t, k) == if k == idx {
                        Some(image)
                    } else {
                        spec_lookup(s, k)
                    } by {
                    lemma_lookup_at(s, k);
                    lemma_lookup_at(t, k);
                    if k == idx {
                        assert(t[p as int] == e);
                        assert(spec_lookup(t, k) == Some(t[p as int].1));
                    } else if spec_lookup(s, k) is Some {
                        let m = choose|m: int| 0 <= m < s.len() && s[m].0 == k;
                        assert(t[m] == s[m]);
                        assert(spec_lookup(s, k) == Some(s[m].1));
                        assert(spec_lookup(t, k) == Some(t[m].1));
                    } else if spec_lookup(t, k) is Some {
                        let m = choose|m: int| 0 <= m < t.len() && t[m].0 == k;
                        assert(t[m] == s[m]);
                        assert(s[m].0 == k);
                    }
                }
            }
        } else {
            self.entries.insert(p, (idx, image));
            proof {
                let t = self.entries@;
                assert(t == s.insert(p as int, e));
                assert(spec_sorted(t)) by {
                    assert forall|i: int, j: int| 0 <= i < j < t.len() implies t[i].0 < t[j].0 by {
                        if j < p {
                            assert(s[i].0 < s[j].0);
                        } else if j == p {
                            assert(t[i] == s[i]);
                        } else if i == p {
                            assert(t[j] == s[j - 1]);
                            if j - 1 > p {
                                assert(s[p as int].0 < s[j - 1].0);
                            }
                        } else if i < p {
                            assert(t[i] == s[i]);
                            assert(t[j] == s[j - 1]);
                            assert(s[i].0 < idx);
                            assert(s[p as int].0 >= idx);
                            if j - 1 > p {
                                assert(s[p as int].0 < s[j - 1].0);
                            }
                        } else {
                            assert(t[i] == s[i - 1]);
                            assert(t[j] == s[j - 1]);
                            assert(s[i - 1].0 < s[j - 1].0);
                        }
                    }
                }
                assert forall|k: usize|
                    #[trigger] spec_lookup(t, k) == if k == idx {
                        Some(image)
                    } else {
                        spec_lookup(s, k)
                    } by {
                    lemma_lookup_at(s, k);
                    lemma_lookup_at(t, k);
                    if k == idx {
                        assert(t[p as int] == e);
                        assert(spec_lookup(t, k) == Some(t[p as int].1));
                    } else if spec_lookup(s, k) is Some {
                        let m = choose|m: int| 0 <= m < s.len() && s[m].0 == k;
                        assert(spec_lookup(s, k) == Some(s[m].1));
                        if m < p {
                            assert(t[m] == s[m]);
                            assert(spec_lookup(t, k) == Some(t[m].1));
                        } else {
                            assert(t[m + 1] == s[m]);
                            assert(spec_lookup(t, k) == Some(t[m + 1].1));
                        }
                    } else if spec_lookup(t, k) is Some {
                        let m = choose|m: int| 0 <= m < t.len() && t[m].0 == k;
                        if m < p {
                            assert(t[m] == s[m]);
                            assert(s[m].0 == k);
                        } else if m > p {
                            assert(t[m] == s[m - 1]);
                            assert(s[m - 1].0 == k);
                        }
                    }
                }
            }
        }
    }

    /// Drops the checkpoints at index `cutoff` and beyond.
    pub fn drop_at_or_after(&mut self, cutoff: usize)
        requires
            old(self).spec_well_formed(),
        ensures
            final(self).spec_well_formed(),
            forall|k: usize|
                #[trigger] spec_lookup(final(self).spec_entries(), k) == if k < cutoff {
                    spec_lookup(old(self).spec_entries(), k)
                } else {
                    None
                },
    {
        let ghost s = self.entries@;
        let mut p: usize = 0;
        while p < self.entries.len() && self.entries[p].0 < cutoff
            invariant
                s == self.entries@,
                p <= s.len(),
                forall|m: int| 0 <= m < p ==> s[m].0 < cutoff,
            decreases s.len() - p,
        {
            p += 1;
        }
        self.entries.truncate(p);
        proof {
            let t = self.entries@;
            assert(t == s.subrange(0, p as int));
            assert forall|k: usize|
                #[trigger] spec_lookup(t, k) == if k < cutoff {
                    spec_lookup(s, k)
                } else {
                    None
                } by {
                lemma_lookup_at(s, k);
                lemma_lookup_at(t, k);
                if spec_lookup(s, k) is Some {
                    let m = choose|m: int| 0 <= m < s.len() && s[m].0 == k;
                    assert(spec_lookup(s, k) == Some(s[m].1));
                    if m < p {
                        assert(t[m] == s[m]);
                        assert(spec_lookup(t, k) == Some(t[m].1));
                    } else {
                        if m > p {
                            assert(s[p as int].0 < s[m].0);
                        }
                        if spec_lookup(t, k) is Some {
                            let m2 = choose|m2: int| 0 <= m2 < t.len() && t[m2].0 == k;
                            assert(t[m2] == s[m2]);
                            assert(s[m2].0 < s[m].0);
                        }
                    }
                } else if spec_lookup(t, k) is Some {
                    let m = choose|m: int| 0 <= m < t.len() && t[m].0 == k;
                    assert(t[m] == s[m]);
                    assert(s[m].0 == k);
                }
            }
        }
    }

    /// Drops the checkpoints with the smallest indices until at most
    /// `max` remain.
    pub fn evict_to(&mut self, max: usize)
        requires
            old(self).spec_well_formed(),
        ensures
            final(self).spec_well_formed(),
            final(self).spec_entries() == if old(self).spec_entries().len() > max {
                old(self).spec_entries().subrange(old(self).spec_entries().len() - max, old(self).spec_entries().len() as int)
            } else {
                old(self).spec_entries()
            },
    {
        let ghost s = self.entries@;
        while self.entries.len() > max
            invariant
                spec_sorted(s),
                self.entries@.len() <= s.len(),
                self.entries@.len() >= max || self.entries@ == s,
                self.entries@ == s.subrange(s.len() - self.entries@.len(), s.len() as int),
            decreases self.entries.len(),
        {
            self.entries.remove(0);
            assert(self.entries@ =~= s.subrange(s.len() - self.entries@.len(), s.len() as int));
        }
        proof {
            if s.len() <= max {
                assert(s.subrange(0, s.len() as int) =~= s);
            }
        }
    }

    /// Where a replay of the first `count` operations starts: after the
    /// newest checkpoint below `count`, from its image, or at operation 0
    /// from the source image when there is none.
    pub fn replay_start(&self, count: usize) -> (r: (usize, Option<&DecodedImage>))
        requires
            self.spec_well_formed(),
        ensures
            match r.1 {
                Some(img) => {
                    &&& 1 <= r.0 <= count
                    &&& spec_lookup(self.spec_entries(), (r.0 - 1) as usize) == Some(*img)
                    &&& forall|j: usize|
                        j < count && #[trigger] spec_lookup(self.spec_entries(), j) is Some ==> j < r.0
                },
                None => r.0 == 0 && forall|j: usize|
                    j < count ==> #[trigger] spec_lookup(self.spec_entries(), j) is None,
            },
    {
        match self.latest_before(count) {
            Some((k, img)) => (k + 1, Some(img)),
            None => (0, None),
        }
    }

    /// The checkpoint with the largest index below `count`, if any.
    pub fn latest_before(&self, count: usize) -> (r: Option<(usize, &DecodedImage)>)
        requires
            self.spec_well_formed(),
        ensures
            match r {
                Some((k, img)) => {
                    &&& k < count
                    &&& spec_lookup(self.spec_entries(), k) == Some(*img)
                    &&& forall|j: usize| j < count && #[trigger] spec_lookup(self.spec_entries(), j) is Some ==> j <= k
                },
                None => forall|j: usize| j < count ==> #[trigger] spec_lookup(self.spec_entries(), j) is None,
            },
    {
        let ghost s = self.entries@;
        let mut i: usize = self.entries.len();
        while i > 0
            invariant
                s == self.entries@,
                spec_sorted(s),
                i <= s.len(),
                forall|m: int| i <= m < s.len() ==> s[m].0 >= count,
            decreases i,
        {
            if self.entries[i - 1].0 < count {
                let k = self.entries[i - 1].0;
                proof {
                    lemma_lookup_at(s, k);
                    assert(s[i - 1].0 == k);
                    assert forall|j: usize| j < count && #[trigger] spec_lookup(s, j) is Some implies j <= k by {
                        lemma_lookup_at(s, j);
                        let m = choose|m: int| 0 <= m < s.len() && s[m].0 == j;
                        if m > i - 1 {
                            assert(s[m].0 >= count);
                        } else if m < i - 1 {
                            assert(s[m].0 < s[i - 1].0);
                        }
                    }
                }
                return Some((k, &self.entries[i - 1].1));
            }
            i -= 1;
        }
        proof {
            assert forall|j: usize| j < count implies #[trigger] spec_lookup(s, j) is None by {
                lemma_lookup_at(s, j);
                if spec_lookup(s, j) is Some {
                    let m = choose|m: int| 0 <= m < s.len() && s[m].0 == j;
                    assert(s[m].0 >= count);
                }
            }
        }
        None
    }
}

} // verus!
