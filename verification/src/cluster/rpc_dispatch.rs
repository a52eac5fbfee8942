//! Messages from other nodes, handed to the group that they are for.
//!
//! A group's hard state is written before its answer leaves, so that no vote
//! and no term is forgotten after it was promised.

use vstd::prelude::*;

use crate::cluster::error::ClusterError;
use crate::cluster::multi_raft::MultiRaft;
use crate::keys;
use crate::raft::message::{
    AppendEntriesRequest, AppendEntriesResponse, InstallSnapshotRequest, InstallSnapshotResponse,
    RequestVoteRequest, RequestVoteResponse,
};
use crate::raft::node::machine::NodeView;
use crate::raft::state::NodeRole;
use crate::raft::storage::LogStorage;
use crate::time::Instant;

verus! {

broadcast use vstd::std_specs::hash::group_hash_axioms;

/// How a group ends up when it reached `mid` and its hard state was to be
/// written: saved, or stuck with the write refused.
pub open spec fn written(mid: NodeView, reliable: bool, ok: bool, to: NodeView) -> bool {
    if ok {
        to == mid.saved()
    } else {
        !reliable && mid.ready.hard_state is Some && to == mid
    }
}

impl<S: LogStorage> MultiRaft<S> {
    /// Whether `r` reports that the group is not mounted and nothing changed.
    pub open spec fn unmounted<T>(
        &self,
        to: &MultiRaft<S>,
        group_id: u64,
        r: Result<T, ClusterError>,
    ) -> bool {
        r == Err::<T, ClusterError>((ClusterError::GroupNotFound { group_id })) && *to == *self
    }

    /// Hands an append request to its group.
    pub fn handle_append_entries(
        &mut self,
        req: &AppendEntriesRequest,
        now: Instant,
    ) -> (r: Result<AppendEntriesResponse, ClusterError>)
        requires
            old(self).wf(),
        ensures
            final(self).wf(),
            if !old(self).groups@.contains_key(req.group_id) {
                old(self).unmounted(final(self), req.group_id, r)
            } else {
                let from = old(self).groups@[req.group_id];
                let to = final(self).groups@[req.group_id]@;
                &&& old(self).same_but(final(self), req.group_id)
                &&& r matches Err(e) ==> e is Raft
                &&& exists|mid: NodeView, resp: AppendEntriesResponse|
                    {
                        &&& #[trigger] from@.append_handled(
                            req@,
                            now.nanos,
                            from.log.storage.reliable(),
                            mid,
                            resp,
                        )
                        &&& written(mid, from.log.storage.reliable(), r is Ok, to)
                        &&& r matches Ok(a) ==> a == resp
                    }
            },
    {
        if !self.groups.contains_key(&req.group_id) {
            return Err(ClusterError::GroupNotFound { group_id: req.group_id });
        }
        match self.groups.remove(&req.group_id) {
            Some(mut node) => {
                let ghost from = node;
                let resp = node.handle_append_entries(req, now);
                let ghost mid = node@;
                let saved = node.persist_ready_hard_state();
                self.groups.insert(req.group_id, node);
                proof {
                    assert(self.groups@ =~= old(self).groups@.insert(req.group_id, node));
                    assert(from@.append_handled(
                        req@,
                        now.nanos,
                        from.log.storage.reliable(),
                        mid,
                        resp,
                    ));
                }
                match saved {
                    Ok(()) => Ok(resp),
                    Err(e) => Err(ClusterError::Raft(e)),
                }
            },
            None => Err(ClusterError::GroupNotFound { group_id: req.group_id }),
        }
    }

    /// Hands a vote request to its group.
    pub fn handle_request_vote(
        &mut self,
        req: &RequestVoteRequest,
        now: Instant,
    ) -> (r: Result<RequestVoteResponse, ClusterError>)
        requires
            old(self).wf(),
        ensures
            final(self).wf(),
            if !old(self).groups@.contains_key(req.group_id) {
                old(self).unmounted(final(self), req.group_id, r)
            } else {
                let from = old(self).groups@[req.group_id];
                let mid = from@.canvassed(*req, now.nanos);
                &&& old(self).same_but(final(self), req.group_id)
                &&& written(
                    mid,
                    from.log.storage.reliable(),
                    r is Ok,
                    final(self).groups@[req.group_id]@,
                )
                &&& r matches Err(e) ==> e is Raft
                &&& r matches Ok(a) ==> a == mid.vote_reply(from@.grants(*req))
            },
    {
        if !self.groups.contains_key(&req.group_id) {
            return Err(ClusterError::GroupNotFound { group_id: req.group_id });
        }
        match self.groups.remove(&req.group_id) {
            Some(mut node) => {
                let resp = node.handle_request_vote(req, now);
                let saved = node.persist_ready_hard_state();
                self.groups.insert(req.group_id, node);
                assert(self.groups@ =~= old(self).groups@.insert(req.group_id, node));
                match saved {
                    Ok(()) => Ok(resp),
                    Err(e) => Err(ClusterError::Raft(e)),
                }
            },
            None => Err(ClusterError::GroupNotFound { group_id: req.group_id }),
        }
    }

    /// Hands a snapshot to its group.
    pub fn handle_install_snapshot(
        &mut self,
        req: &InstallSnapshotRequest,
        now: Instant,
    ) -> (r: Result<InstallSnapshotResponse, ClusterError>)
        requires
            old(self).wf(),
        ensures
            final(self).wf(),
            if !old(self).groups@.contains_key(req.group_id) {
                old(self).unmounted(final(self), req.group_id, r)
            } else {
                let from = old(self).groups@[req.group_id];
                let want = from@.snapshot_installed(*req, now.nanos);
                let to = final(self).groups@[req.group_id]@;
                &&& old(self).same_but(final(self), req.group_id)
                &&& to == (NodeView { stored: to.stored, ..want })
                &&& from.log.storage.reliable() ==> to == want.saved()
                &&& r is Ok ==> (want.ready.hard_state matches Some(hs) ==> to.stored.hard_state
                    == hs)
                &&& r is Err ==> !from.log.storage.reliable() && want.ready.hard_state is Some
                &&& r matches Err(e) ==> e is Raft
                &&& r matches Ok(a) ==> a.term == want.hard_state.current_term
            },
    {
        if !self.groups.contains_key(&req.group_id) {
            return Err(ClusterError::GroupNotFound { group_id: req.group_id });
        }
        match self.groups.remove(&req.group_id) {
            Some(mut node) => {
                let resp = node.handle_install_snapshot(req, now);
                let saved = node.persist_ready_hard_state();
                self.groups.insert(req.group_id, node);
                assert(self.groups@ =~= old(self).groups@.insert(req.group_id, node));
                match saved {
                    Ok(()) => Ok(resp),
                    Err(e) => Err(ClusterError::Raft(e)),
                }
            },
            None => Err(ClusterError::GroupNotFound { group_id: req.group_id }),
        }
    }

    /// The current term of a group, and the index and term that its snapshot
    /// covers, from which a snapshot request is built.
    pub fn snapshot_metadata(&self, group_id: u64) -> (r: Result<(u64, u64, u64), ClusterError>)
        ensures
            r == if self.groups@.contains_key(group_id) {
                let n = self.groups@[group_id]@;
                Ok::<(u64, u64, u64), ClusterError>(
                    (n.hard_state.current_term, n.log.snapshot_index, n.log.snapshot_term),
                )
            } else {
                Err((ClusterError::GroupNotFound { group_id }))
            },
    {
        match self.groups.get(&group_id) {
            Some(node) => Ok(
                (node.current_term(), node.log_snapshot_index(), node.log_snapshot_term()),
            ),
            None => Err(ClusterError::GroupNotFound { group_id }),
        }
    }

    /// Hands the answer to an append request to its group.
    pub fn handle_append_entries_response(
        &mut self,
        group_id: u64,
        peer: u64,
        resp: &AppendEntriesResponse,
        now: Instant,
    ) -> (r: Result<(), ClusterError>)
        requires
            old(self).wf(),
            old(self).groups@.contains_key(group_id)
                ==> old(self).groups@[group_id]@.can_take_answer(*resp),
        ensures
            final(self).wf(),
            if !old(self).groups@.contains_key(group_id) {
                old(self).unmounted(final(self), group_id, r)
            } else {
                let from = old(self).groups@[group_id];
                &&& old(self).same_but(final(self), group_id)
                &&& written(
                    from@.append_answered(peer, *resp, now.nanos),
                    from.log.storage.reliable(),
                    r is Ok,
                    final(self).groups@[group_id]@,
                )
                &&& r matches Err(e) ==> e is Raft
            },
    {
        if !self.groups.contains_key(&group_id) {
            return Err(ClusterError::GroupNotFound { group_id });
        }
        match self.groups.remove(&group_id) {
            Some(mut node) => {
                node.handle_append_entries_response(peer, resp, now);
                let saved = node.persist_ready_hard_state();
                self.groups.insert(group_id, node);
                assert(self.groups@ =~= old(self).groups@.insert(group_id, node));
                match saved {
                    Ok(()) => Ok(()),
                    Err(e) => Err(ClusterError::Raft(e)),
                }
            },
            None => Err(ClusterError::GroupNotFound { group_id }),
        }
    }

    /// Hands the answer to a vote request to its group.
    pub fn handle_request_vote_response(
        &mut self,
        group_id: u64,
        peer: u64,
        resp: &RequestVoteResponse,
        now: Instant,
    ) -> (r: Result<(), ClusterError>)
        requires
            old(self).wf(),
            old(self).groups@.contains_key(group_id)
                ==> old(self).groups@[group_id]@.can_count_vote(peer, *resp),
        ensures
            final(self).wf(),
            if !old(self).groups@.contains_key(group_id) {
                old(self).unmounted(final(self), group_id, r)
            } else {
                let from = old(self).groups@[group_id];
                let to = final(self).groups@[group_id]@;
                &&& old(self).same_but(final(self), group_id)
                &&& written(
                    from@.vote_answered(peer, *resp, now.nanos, true),
                    from.log.storage.reliable(),
                    r is Ok,
                    to,
                ) || (!from.log.storage.reliable() && written(
                    from@.vote_answered(peer, *resp, now.nanos, false),
                    false,
                    r is Ok,
                    to,
                ))
                &&& r matches Err(e) ==> e is Raft
            },
    {
        if !self.groups.contains_key(&group_id) {
            return Err(ClusterError::GroupNotFound { group_id });
        }
        match self.groups.remove(&group_id) {
            Some(mut node) => {
                node.handle_request_vote_response(peer, resp, now);
                let saved = node.persist_ready_hard_state();
                self.groups.insert(group_id, node);
                assert(self.groups@ =~= old(self).groups@.insert(group_id, node));
                match saved {
                    Ok(()) => Ok(()),
                    Err(e) => Err(ClusterError::Raft(e)),
                }
            },
            None => Err(ClusterError::GroupNotFound { group_id }),
        }
    }

    /// Records how far a group's committed entries have been applied.
    pub fn advance_applied(
        &mut self,
        group_id: u64,
        applied_to: u64,
    ) -> (r: Result<(), ClusterError>)
        requires
            old(self).wf(),
        ensures
            final(self).wf(),
            if !old(self).groups@.contains_key(group_id) {
                old(self).unmounted(final(self), group_id, r)
            } else {
                &&& r is Ok
                &&& old(self).same_but(final(self), group_id)
                &&& final(self).groups@[group_id]@ == (NodeView {
                    last_applied: applied_to,
                    ..old(self).groups@[group_id]@
                })
            },
    {
        if !self.groups.contains_key(&group_id) {
            return Err(ClusterError::GroupNotFound { group_id });
        }
        match self.groups.remove(&group_id) {
            Some(mut node) => {
                node.advance_applied(applied_to);
                self.groups.insert(group_id, node);
                assert(self.groups@ =~= old(self).groups@.insert(group_id, node));
                Ok(())
            },
            None => Err(ClusterError::GroupNotFound { group_id }),
        }
    }

    /// How far a peer is known to hold the log of a group that this node leads.
    pub fn match_index_for(&self, group_id: u64, peer: u64) -> (r: Option<u64>)
        ensures
            r == if self.groups@.contains_key(group_id) {
                match self.groups@[group_id]@.leader {
                    Some(l) => Some(l.match_of(peer)),
                    None => None,
                }
            } else {
                None
            },
    {
        match self.groups.get(&group_id) {
            Some(node) => node.match_index_for(peer),
            None => None,
        }
    }

    /// How far a group has been applied here; nothing if it is not mounted.
    pub fn last_applied(&self, group_id: u64) -> (r: Option<u64>)
        ensures
            r == if self.groups@.contains_key(group_id) {
                Some(self.groups@[group_id]@.last_applied)
            } else {
                None
            },
    {
        match self.groups.get(&group_id) {
            Some(node) => Some(node.last_applied()),
            None => None,
        }
    }

    /// Every mounted group with how far it has been applied, in ascending
    /// order of the groups' ids.
    pub fn applied_indices(&self) -> (r: Vec<(u64, u64)>)
        ensures
            keys::lists(Seq::new(r@.len(), |i: int| r@[i].0), self.groups@.dom()),
            forall|i: int|
                0 <= i < r@.len() ==> (#[trigger] r@[i]).1 == self.groups@[r@[i].0]@.last_applied,
    {
        let ids = keys::sorted_keys(&self.groups);
        let mut r: Vec<(u64, u64)> = Vec::new();
        let mut i: usize = 0;
        while i < ids.len()
            invariant
                i <= ids@.len(),
                keys::lists(ids@, self.groups@.dom()),
                r@.len() == i,
                forall|k: int|
                    0 <= k < i ==> (#[trigger] r@[k]).0 == ids@[k] && r@[k].1
                        == self.groups@[r@[k].0]@.last_applied,
            decreases ids@.len() - i,
        {
            let g: u64 = ids[i];
            assert(ids@.contains(g));
            assert(self.groups@.contains_key(g));
            match self.groups.get(&g) {
                Some(node) => r.push((g, node.last_applied())),
                None => {},
            }
            i = i + 1;
        }
        assert(Seq::new(r@.len(), |i: int| r@[i].0) =~= ids@);
        r
    }
}

} // verus!
