//! The state of one shard migration.

use vstd::prelude::*;

use crate::cluster::error::ClusterError;
use crate::time::{Duration, Instant};

verus! {

/// How far a migration has come.
#[derive(Debug)]
pub enum MigrationPhase {
    Pending,
    /// The target receives the log: `copied` of `total` entries.
    BaseCopy { total: u64, copied: u64 },
    /// The target follows: it holds the log up to `target`, the leader has
    /// committed up to `leader`.
    WalCatchUp { leader: u64, target: u64 },
    /// Ownership changes hands.
    AtomicCutOver { estimated_pause_us: u64 },
    Completed { actual_pause_us: u64 },
    Failed { reason: String },
}

/// A migration of one shard between two nodes.
#[derive(Debug)]
pub struct MigrationState {
    pub vshard_id: u32,
    pub source_group: u64,
    pub target_group: u64,
    pub source_node: u64,
    pub target_node: u64,
    /// How long writes may stop, in microseconds.
    pub write_pause_budget_us: u64,
    pub phase: MigrationPhase,
    pub started_at: Option<Instant>,
    pub finished_at: Option<Instant>,
}

impl MigrationState {
    /// Whether the migration still runs or has yet to start.
    pub open spec fn active(&self) -> bool {
        !(self.phase is Completed) && !(self.phase is Failed)
    }

    /// How long the migration has run, or ran; nothing before it started.
    pub open spec fn ran(&self, now: Instant) -> Option<int> {
        match self.started_at {
            None => None,
            Some(s) => {
                let end = match self.finished_at {
                    Some(f) => f,
                    None => now,
                };
                Some(
                    if end.nanos >= s.nanos {
                        end.nanos - s.nanos
                    } else {
                        0
                    },
                )
            },
        }
    }

    /// Whether the target has caught up with the leader.
    pub open spec fn caught_up(&self) -> bool {
        self.phase matches MigrationPhase::WalCatchUp { leader, target } && target >= leader
    }

    /// A migration that has not started.
    pub fn new(
        vshard_id: u32,
        source_group: u64,
        target_group: u64,
        source_node: u64,
        target_node: u64,
        write_pause_budget_us: u64,
    ) -> (r: MigrationState)
        ensures
            r == (MigrationState {
                vshard_id,
                source_group,
                target_group,
                source_node,
                target_node,
                write_pause_budget_us,
                phase: MigrationPhase::Pending,
                started_at: None,
                finished_at: None,
            }),
    {
        MigrationState {
            vshard_id,
            source_group,
            target_group,
            source_node,
            target_node,
            write_pause_budget_us,
            phase: MigrationPhase::Pending,
            started_at: None,
            finished_at: None,
        }
    }

    /// Starts copying `total` entries.
    pub fn start_base_copy(&mut self, total: u64, now: Instant)
        ensures
            *final(self) == (MigrationState {
                phase: MigrationPhase::BaseCopy { total, copied: 0 },
                started_at: Some(now),
                ..*old(self)
            }),
    {
        self.phase = MigrationPhase::BaseCopy { total, copied: 0 };
        self.started_at = Some(now);
    }

    /// Records how many entries were copied.
    pub fn update_base_copy(&mut self, copied: u64)
        ensures
            *final(self) == match old(self).phase {
                MigrationPhase::BaseCopy { total, .. } => (MigrationState {
                    phase: MigrationPhase::BaseCopy { total, copied },
                    ..*old(self)
                }),
                _ => *old(self),
            },
    {
        match &self.phase {
            MigrationPhase::BaseCopy { total, .. } => {
                let total: u64 = *total;
                self.phase = MigrationPhase::BaseCopy { total, copied };
            },
            _ => {},
        }
    }

    /// Starts following the leader.
    pub fn start_wal_catchup(&mut self, leader: u64, target: u64)
        ensures
            *final(self) == (MigrationState {
                phase: MigrationPhase::WalCatchUp { leader, target },
                ..*old(self)
            }),
    {
        self.phase = MigrationPhase::WalCatchUp { leader, target };
    }

    /// Records how far leader and target are.
    pub fn update_wal_catchup(&mut self, leader: u64, target: u64)
        ensures
            *final(self) == if old(self).phase is WalCatchUp {
                MigrationState {
                    phase: MigrationPhase::WalCatchUp { leader, target },
                    ..*old(self)
                }
            } else {
                *old(self)
            },
    {
        match &self.phase {
            MigrationPhase::WalCatchUp { .. } => {
                self.phase = MigrationPhase::WalCatchUp { leader, target };
            },
            _ => {},
        }
    }

    /// Whether the target has caught up with the leader.
    pub fn is_catchup_ready(&self) -> (r: bool)
        ensures
            r == self.caught_up(),
    {
        match &self.phase {
            MigrationPhase::WalCatchUp { leader, target } => *target >= *leader,
            _ => false,
        }
    }

    /// Starts the change of ownership, unless writes would stop for too long.
    pub fn start_cutover(&mut self, estimated_pause_us: u64) -> (r: Result<(), ClusterError>)
        ensures
            r is Ok <==> estimated_pause_us <= old(self).write_pause_budget_us,
            r is Ok ==> *final(self) == (MigrationState {
                phase: MigrationPhase::AtomicCutOver { estimated_pause_us },
                ..*old(self)
            }),
            r is Err ==> *final(self) == *old(self),
            r matches Err(e) ==> e == (ClusterError::PauseBudgetExceeded {
                estimated_us: estimated_pause_us,
                budget_us: old(self).write_pause_budget_us,
            }),
    {
        if estimated_pause_us > self.write_pause_budget_us {
            return Err(
                ClusterError::PauseBudgetExceeded {
                    estimated_us: estimated_pause_us,
                    budget_us: self.write_pause_budget_us,
                },
            );
        }
        self.phase = MigrationPhase::AtomicCutOver { estimated_pause_us };
        Ok(())
    }

    /// Ends the migration.
    pub fn complete(&mut self, actual_pause_us: u64, now: Instant)
        ensures
            *final(self) == (MigrationState {
                phase: MigrationPhase::Completed { actual_pause_us },
                finished_at: Some(now),
                ..*old(self)
            }),
    {
        self.phase = MigrationPhase::Completed { actual_pause_us };
        self.finished_at = Some(now);
    }

    /// Gives the migration up.
    pub fn fail(&mut self, reason: String, now: Instant)
        ensures
            *final(self) == (MigrationState {
                phase: MigrationPhase::Failed { reason },
                finished_at: Some(now),
                ..*old(self)
            }),
    {
        self.phase = MigrationPhase::Failed { reason };
        self.finished_at = Some(now);
    }

    /// How far the migration has come.
    pub fn phase(&self) -> (r: &MigrationPhase)
        ensures
            *r == self.phase,
    {
        &self.phase
    }

    /// The shard that moves.
    pub fn vshard_id(&self) -> (r: u32)
        ensures
            r == self.vshard_id,
    {
        self.vshard_id
    }

    /// Whether the migration still runs or has yet to start.
    pub fn is_active(&self) -> (r: bool)
        ensures
            r == self.active(),
    {
        match &self.phase {
            MigrationPhase::Completed { .. } => false,
            MigrationPhase::Failed { .. } => false,
            _ => true,
        }
    }

    /// How long the migration has run, or ran; nothing before it started.
    pub fn elapsed(&self, now: Instant) -> (r: Option<Duration>)
        ensures
            match self.ran(now) {
                Some(n) => r matches Some(d) && d.nanos == n,
                None => r is None,
            },
    {
        match self.started_at {
            None => None,
            Some(s) => {
                let end = match self.finished_at {
                    Some(f) => f,
                    None => now,
                };
                Some(end.since(s))
            },
        }
    }
}

/// The name of a phase.
pub open spec fn phase_name(p: MigrationPhase) -> Seq<char> {
    match p {
        MigrationPhase::Pending => "Pending"@,
        MigrationPhase::BaseCopy { .. } => "BaseCopy"@,
        MigrationPhase::WalCatchUp { .. } => "WalCatchUp"@,
        MigrationPhase::AtomicCutOver { .. } => "AtomicCutOver"@,
        MigrationPhase::Completed { .. } => "Completed"@,
        MigrationPhase::Failed { .. } => "Failed"@,
    }
}

/// The name of a phase, as text.
fn phase_text(p: &MigrationPhase) -> (r: String)
    ensures
        r@ == phase_name(*p),
{
    match p {
        MigrationPhase::Pending => "Pending".to_owned(),
        MigrationPhase::BaseCopy { .. } => "BaseCopy".to_owned(),
        MigrationPhase::WalCatchUp { .. } => "WalCatchUp".to_owned(),
        MigrationPhase::AtomicCutOver { .. } => "AtomicCutOver".to_owned(),
        MigrationPhase::Completed { .. } => "Completed".to_owned(),
        MigrationPhase::Failed { .. } => "Failed".to_owned(),
    }
}

/// A migration, for observers.
#[derive(Debug)]
pub struct MigrationSnapshot {
    pub vshard_id: u32,
    pub phase: String,
    pub elapsed_ms: u64,
    pub is_active: bool,
}

/// The migrations of a cluster.
pub struct MigrationTracker {
    pub active: Vec<MigrationState>,
}

/// How many of the first `n` migrations are active.
pub open spec fn active_among(s: Seq<MigrationState>, n: int) -> nat
    decreases n,
{
    if n <= 0 {
        0
    } else {
        active_among(s, n - 1) + if s[n - 1].active() {
            1nat
        } else {
            0nat
        }
    }
}

/// Whether a migration is kept by a cleanup: it is active, or has not yet
/// started, or is younger than `max_age`.
pub open spec fn is_kept(s: MigrationState, max_age: Duration, now: Instant) -> bool {
    s.active() || match s.ran(now) {
        Some(n) => n < max_age.nanos,
        None => true,
    }
}

/// The migrations that a cleanup keeps, in order.
pub open spec fn kept(s: Seq<MigrationState>, max_age: Duration, now: Instant) -> Seq<MigrationState>
    decreases s.len(),
{
    if s.len() == 0 {
        Seq::empty()
    } else {
        let init = kept(s.drop_last(), max_age, now);
        if is_kept(s.last(), max_age, now) {
            init.push(s.last())
        } else {
            init
        }
    }
}

impl Default for MigrationTracker {
    fn default() -> (r: MigrationTracker)
        ensures
            r.active@ == Seq::<MigrationState>::empty(),
    {
        MigrationTracker::new()
    }
}

impl MigrationTracker {
    /// No migrations.
    pub fn new() -> (r: MigrationTracker)
        ensures
            r.active@ == Seq::<MigrationState>::empty(),
    {
        MigrationTracker { active: Vec::new() }
    }

    /// Takes a migration in.
    pub fn add(&mut self, state: MigrationState)
        ensures
            final(self).active@ == old(self).active@.push(state),
    {
        self.active.push(state);
    }

    /// Number of active migrations.
    pub fn active_count(&self) -> (r: usize)
        ensures
            r == active_among(self.active@, self.active@.len() as int),
    {
        let mut n: usize = 0;
        let mut i: usize = 0;
        while i < self.active.len()
            invariant
                i <= self.active@.len(),
                n <= i,
                n == active_among(self.active@, i as int),
            decreases self.active@.len() - i,
        {
            if self.active[i].is_active() {
                n = n + 1;
            }
            i = i + 1;
        }
        n
    }

    /// Every migration, in the order in which they were taken in.
    pub fn snapshot(&self, now: Instant) -> (r: Vec<MigrationSnapshot>)
        ensures
            r@.len() == self.active@.len(),
            forall|i: int|
                0 <= i < r@.len() ==> {
                    let s = self.active@[i];
                    &&& (#[trigger] r@[i]).vshard_id == s.vshard_id
                    &&& r@[i].phase@ == phase_name(s.phase)
                    &&& r@[i].elapsed_ms == match s.ran(now) {
                        Some(n) => n / 1_000_000,
                        None => 0,
                    }
                    &&& r@[i].is_active == s.active()
                },
    {
        let mut r: Vec<MigrationSnapshot> = Vec::new();
        let mut i: usize = 0;
        while i < self.active.len()
            invariant
                i <= self.active@.len(),
                r@.len() == i,
                forall|k: int|
                    0 <= k < i ==> {
                        let s = self.active@[k];
                        &&& (#[trigger] r@[k]).vshard_id == s.vshard_id
                        &&& r@[k].phase@ == phase_name(s.phase)
                        &&& r@[k].elapsed_ms == match s.ran(now) {
                            Some(n) => n / 1_000_000,
                            None => 0,
                        }
                        &&& r@[k].is_active == s.active()
                    },
            decreases self.active@.len() - i,
        {
            let s = &self.active[i];
            let elapsed_ms: u64 = match s.elapsed(now) {
                Some(d) => d.as_millis(),
                None => 0,
            };
            r.push(
                MigrationSnapshot {
                    vshard_id: s.vshard_id(),
                    phase: phase_text(s.phase()),
                    elapsed_ms,
                    is_active: s.is_active(),
                },
            );
            i = i + 1;
        }
        r
    }

    /// Forgets migrations that are over and not younger than `max_age`.
    pub fn gc(&mut self, max_age: Duration, now: Instant)
        ensures
            final(self).active@ == kept(old(self).active@, max_age, now),
    {
        let mut rest: Vec<MigrationState> = Vec::new();
        core::mem::swap(&mut rest, &mut self.active);
        let ghost all = rest@;
        let ghost mut n: int = 0;
        assert(all.take(0) =~= Seq::empty());
        assert(all.skip(0) =~= all);
        while rest.len() > 0
            invariant
                0 <= n <= all.len(),
                all == old(self).active@,
                rest@ == all.skip(n),
                self.active@ == kept(all.take(n), max_age, now),
            decreases rest@.len(),
        {
            let s = rest.remove(0);
            proof {
                assert(all.take(n + 1).drop_last() =~= all.take(n));
                assert(all.take(n + 1).last() == s);
                assert(rest@ =~= all.skip(n + 1));
                n = n + 1;
            }
            let keep: bool = s.is_active() || match s.elapsed(now) {
                Some(d) => d.nanos < max_age.nanos,
                None => true,
            };
            if keep {
                self.active.push(s);
            }
        }
        assert(all.take(n) =~= all);
    }
}

} // verus!
