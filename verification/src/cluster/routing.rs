//! Which Raft group owns which shard, and who its members are.

use std::collections::HashMap;

use vstd::prelude::*;

use crate::cluster::error::ClusterError;
use crate::keys;

verus! {

broadcast use vstd::std_specs::hash::group_hash_axioms;

/// Number of shards that the key space is cut into.
pub const VSHARD_COUNT: u32 = 1024;

/// Id of the group that holds the cluster's metadata; it owns no shard.
pub const METADATA_GROUP_ID: u64 = 0;

/// Members of one Raft group.
#[derive(Debug)]
pub struct GroupInfo {
    /// The leader, else 0.
    pub leader: u64,
    pub members: Vec<u64>,
    pub learners: Vec<u64>,
}

/// The members as a value.
#[verifier::ext_equal]
pub struct GroupInfoView {
    pub leader: u64,
    pub members: Seq<u64>,
    pub learners: Seq<u64>,
}

impl View for GroupInfo {
    type V = GroupInfoView;

    open spec fn view(&self) -> GroupInfoView {
        GroupInfoView {
            leader: self.leader,
            members: self.members@,
            learners: self.learners@,
        }
    }
}

impl Clone for GroupInfo {
    fn clone(&self) -> (r: GroupInfo)
        ensures
            r@ == self@,
    {
        let r = GroupInfo {
            leader: self.leader,
            members: self.members.clone(),
            learners: self.learners.clone(),
        };
        assert(r@ =~= self@);
        r
    }
}

/// Routing of shards to groups.
pub struct RoutingTable {
    /// Owner of each shard, by the shard's number.
    pub vshard_to_group: Vec<u64>,
    pub group_members: HashMap<u64, GroupInfo>,
}

/// The routing as a value.
#[verifier::ext_equal]
pub struct RoutingView {
    pub owners: Seq<u64>,
    pub groups: Map<u64, GroupInfoView>,
}

/// The views of a map's groups.
pub open spec fn groups_view(m: Map<u64, GroupInfo>) -> Map<u64, GroupInfoView> {
    Map::new(|g: u64| m.contains_key(g), |g: u64| m[g]@)
}

impl View for RoutingTable {
    type V = RoutingView;

    open spec fn view(&self) -> RoutingView {
        RoutingView { owners: self.vshard_to_group@, groups: groups_view(self.group_members@) }
    }
}

impl RoutingView {
    /// The shards that `group` owns, in ascending order.
    pub open spec fn shards_of(self, group: u64) -> Seq<u32> {
        shards_below(self.owners, group, self.owners.len() as int)
    }

    /// The owner of a shard, if it has one.
    pub open spec fn owner(self, vshard: u32) -> Option<u64> {
        if vshard < self.owners.len() {
            Some(self.owners[vshard as int])
        } else {
            None
        }
    }

    /// With a leader recorded for a known group.
    pub open spec fn with_leader(self, group: u64, leader: u64) -> RoutingView {
        if self.groups.contains_key(group) {
            RoutingView {
                groups: self.groups.insert(
                    group,
                    GroupInfoView { leader, ..self.groups[group] },
                ),
                ..self
            }
        } else {
            self
        }
    }

    /// `data_groups` groups numbered from 1 that own the shards in turn, and
    /// the metadata group, each with members picked from `nodes` in turn.
    pub open spec fn uniform(data_groups: u64, nodes: Seq<u64>, replicas: int) -> RoutingView {
        RoutingView {
            owners: Seq::new(
                VSHARD_COUNT as nat,
                |i: int| (i % (data_groups as int) + 1) as u64,
            ),
            groups: Map::new(
                |g: u64| g <= data_groups,
                |g: u64| uniform_group(g, nodes, replicas),
            ),
        }
    }
}

/// The shards below `n` that `group` owns, in ascending order.
pub open spec fn shards_below(owners: Seq<u64>, group: u64, n: int) -> Seq<u32>
    decreases n,
{
    if n <= 0 {
        Seq::empty()
    } else if owners[n - 1] == group {
        shards_below(owners, group, n - 1).push((n - 1) as u32)
    } else {
        shards_below(owners, group, n - 1)
    }
}

/// Members of group `g` when members are picked from `nodes` in turn: as many
/// as asked for, or all; the first leads.
pub open spec fn uniform_group(g: u64, nodes: Seq<u64>, replicas: int) -> GroupInfoView {
    let n = if replicas <= nodes.len() {
        replicas
    } else {
        nodes.len() as int
    };
    GroupInfoView {
        leader: if n <= 0 {
            0
        } else {
            nodes[g as int % (nodes.len() as int)]
        },
        members: Seq::new(
            n as nat,
            |i: int| nodes[(g as int % (nodes.len() as int) + i) % (nodes.len() as int)],
        ),
        learners: Seq::empty(),
    }
}

/// Builds the members of one group.
fn make_uniform_group(g: u64, nodes: &[u64], replicas: usize) -> (r: GroupInfo)
    ensures
        r@ == uniform_group(g, nodes@, replicas as int),
{
    let n: usize = if replicas <= nodes.len() {
        replicas
    } else {
        nodes.len()
    };
    let mut members: Vec<u64> = Vec::new();
    if n == 0 {
        let r = GroupInfo { leader: 0, members, learners: Vec::new() };
        assert(r@ =~= uniform_group(g, nodes@, replicas as int));
        return r;
    }
    let len: usize = nodes.len();
    let start: usize = (g % (len as u64)) as usize;
    let ghost want = uniform_group(g, nodes@, replicas as int).members;
    let mut i: usize = 0;
    while i < n
        invariant
            i <= n <= len,
            len == nodes@.len(),
            start < len,
            start == g as int % (len as int),
            want.len() == n,
            forall|k: int|
                0 <= k < n ==> #[trigger] want[k] == nodes@[(start + k) % (len as int)],
            members@ =~= want.take(i as int),
        decreases n - i,
    {
        let at: usize = if i < len - start {
            start + i
        } else {
            i - (len - start)
        };
        proof {
            if i < len - start {
                vstd::arithmetic::div_mod::lemma_small_mod((start + i) as nat, len as nat);
            } else {
                vstd::arithmetic::div_mod::lemma_small_mod((start + i - len) as nat, len as nat);
                vstd::arithmetic::div_mod::lemma_mod_sub_multiples_vanish(
                    start + i,
                    len as int,
                );
            }
            assert(at == (start + i) % (len as int));
            assert(want[i as int] == nodes@[at as int]);
        }
        members.push(nodes[at]);
        i = i + 1;
    }
    let r = GroupInfo { leader: nodes[start], members, learners: Vec::new() };
    assert(r@ =~= uniform_group(g, nodes@, replicas as int));
    r
}

impl RoutingTable {
    /// A table from its parts.
    pub fn from_parts(
        vshard_to_group: Vec<u64>,
        group_members: HashMap<u64, GroupInfo>,
    ) -> (r: RoutingTable)
        ensures
            r@.owners == vshard_to_group@,
            r@.groups == groups_view(group_members@),
    {
        RoutingTable { vshard_to_group, group_members }
    }

    /// A table that deals the shards out to `data_groups` groups in turn.
    pub fn uniform(data_groups: u64, nodes: &[u64], replicas: usize) -> (r: RoutingTable)
        requires
            0 < data_groups < u64::MAX,
        ensures
            r@ == RoutingView::uniform(data_groups, nodes@, replicas as int),
    {
        let ghost want = RoutingView::uniform(data_groups, nodes@, replicas as int);
        let mut owners: Vec<u64> = Vec::new();
        let mut i: u32 = 0;
        while i < VSHARD_COUNT
            invariant
                i <= VSHARD_COUNT,
                0 < data_groups < u64::MAX,
                want == RoutingView::uniform(data_groups, nodes@, replicas as int),
                owners@ =~= want.owners.take(i as int),
            decreases VSHARD_COUNT - i,
        {
            owners.push((i as u64) % data_groups + 1);
            i = i + 1;
        }
        let mut groups: HashMap<u64, GroupInfo> = HashMap::new();
        let mut g: u64 = 0;
        while g <= data_groups
            invariant
                g <= data_groups + 1,
                data_groups < u64::MAX,
                forall|k: u64| #[trigger] groups@.contains_key(k) <==> k < g,
                forall|k: u64| #[trigger]
                    groups@.contains_key(k) ==> groups@[k]@ == uniform_group(
                        k,
                        nodes@,
                        replicas as int,
                    ),
            decreases data_groups + 1 - g,
        {
            groups.insert(g, make_uniform_group(g, nodes, replicas));
            g = g + 1;
        }
        let r = RoutingTable { vshard_to_group: owners, group_members: groups };
        assert(r@.owners =~= want.owners);
        assert(r@.groups =~= want.groups);
        r
    }

    /// The group that owns a shard.
    pub fn group_for_vshard(&self, vshard_id: u32) -> (r: Result<u64, ClusterError>)
        ensures
            r == match self@.owner(vshard_id) {
                Some(g) => Ok::<u64, ClusterError>(g),
                None => Err((ClusterError::VShardNotMapped { vshard_id })),
            },
    {
        if (vshard_id as usize) < self.vshard_to_group.len() {
            Ok(self.vshard_to_group[vshard_id as usize])
        } else {
            Err(ClusterError::VShardNotMapped { vshard_id })
        }
    }

    /// The shards that a group owns, in ascending order.
    pub fn vshards_for_group(&self, group_id: u64) -> (r: Vec<u32>)
        requires
            self@.owners.len() <= u32::MAX,
        ensures
            r@ == self@.shards_of(group_id),
    {
        let mut r: Vec<u32> = Vec::new();
        let mut i: usize = 0;
        while i < self.vshard_to_group.len()
            invariant
                i <= self.vshard_to_group@.len() <= u32::MAX,
                r@ == shards_below(self.vshard_to_group@, group_id, i as int),
            decreases self.vshard_to_group@.len() - i,
        {
            if self.vshard_to_group[i] == group_id {
                r.push(i as u32);
            }
            i = i + 1;
        }
        r
    }

    /// The members of a group.
    pub fn group_info(&self, group_id: u64) -> (r: Option<&GroupInfo>)
        ensures
            match r {
                Some(info) => self@.groups.contains_key(group_id) && info@
                    == self@.groups[group_id],
                None => !self@.groups.contains_key(group_id),
            },
    {
        self.group_members.get(&group_id)
    }

    /// The ids of all groups, in ascending order.
    pub fn group_ids(&self) -> (r: Vec<u64>)
        ensures
            keys::lists(r@, self@.groups.dom()),
    {
        let r = keys::sorted_keys(&self.group_members);
        assert(self@.groups.dom() =~= self.group_members@.dom());
        r
    }

    /// The recorded leader of the group that owns a shard, else 0.
    pub fn leader_for_vshard(&self, vshard_id: u32) -> (r: Result<u64, ClusterError>)
        ensures
            r == match self@.owner(vshard_id) {
                Some(g) => Ok::<u64, ClusterError>(
                    if self@.groups.contains_key(g) {
                        self@.groups[g].leader
                    } else {
                        0
                    },
                ),
                None => Err((ClusterError::VShardNotMapped { vshard_id })),
            },
    {
        let g: u64 = match self.group_for_vshard(vshard_id) {
            Ok(g) => g,
            Err(e) => return Err(e),
        };
        match self.group_info(g) {
            Some(info) => Ok(info.leader),
            None => Ok(0),
        }
    }

    /// Records who leads a group; an unknown group is left alone.
    pub fn set_leader(&mut self, group_id: u64, leader: u64)
        ensures
            final(self)@ == old(self)@.with_leader(group_id, leader),
    {
        match self.group_members.remove(&group_id) {
            Some(info) => {
                let ghost v = info@;
                let info = GroupInfo {
                    leader,
                    members: info.members,
                    learners: info.learners,
                };
                self.group_members.insert(group_id, info);
                assert(self@.groups =~= old(self)@.with_leader(group_id, leader).groups);
            },
            None => {
                assert(self@.groups =~= old(self)@.groups);
            },
        }
    }
}

impl Clone for RoutingTable {
    fn clone(&self) -> (r: RoutingTable)
        ensures
            r@ == self@,
    {
        let ids = keys::sorted_keys(&self.group_members);
        let mut groups: HashMap<u64, GroupInfo> = HashMap::new();
        let mut i: usize = 0;
        while i < ids.len()
            invariant
                i <= ids@.len(),
                keys::lists(ids@, self.group_members@.dom()),
                forall|g: u64| #[trigger]
                    groups@.contains_key(g) <==> ids@.take(i as int).contains(g),
                forall|g: u64| #[trigger]
                    groups@.contains_key(g) ==> self.group_members@.contains_key(g) && groups@[g]@
                        == self.group_members@[g]@,
            decreases ids@.len() - i,
        {
            let g: u64 = ids[i];
            proof {
                assert(ids@.contains(g));
                assert(ids@.take(i + 1) =~= ids@.take(i as int).push(g));
                assert forall|x: u64| #[trigger]
                    ids@.take(i + 1).contains(x) <==> ids@.take(i as int).contains(x) || x == g by {
                    if ids@.take(i as int).contains(x) {
                        let k = ids@.take(i as int).index_of(x);
                        assert(ids@.take(i + 1)[k] == x);
                    }
                    if ids@.take(i + 1).contains(x) && x != g {
                        let k = ids@.take(i + 1).index_of(x);
                        assert(ids@.take(i as int)[k] == x);
                    }
                    if x == g {
                        assert(ids@.take(i + 1)[i as int] == x);
                    }
                }
            }
            match self.group_members.get(&g) {
                Some(info) => {
                    groups.insert(g, info.clone());
                },
                None => {},
            }
            i = i + 1;
        }
        let owners = self.vshard_to_group.clone();
        assert(owners@ =~= self.vshard_to_group@);
        assert(ids@.take(i as int) =~= ids@);
        let r = RoutingTable { vshard_to_group: owners, group_members: groups };
        assert(r@.groups =~= self@.groups);
        r
    }
}

} // verus!
