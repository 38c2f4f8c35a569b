//! Ballots, quorums and cluster configurations.
use vstd::prelude::*;

verus! {

/// The id of a server. Servers are numbered from 1.
pub type NodeId = u64;

/// The id of a configuration of the cluster.
pub type ConfigurationId = u32;

/// What each item stands for.
pub open spec fn views<T: View>(items: Seq<T>) -> Seq<T::V> {
    items.map_values(|item: T| item@)
}

/// What an optional item stands for.
pub open spec fn view_option<T: View>(item: Option<T>) -> Option<T::V> {
    match item {
        Some(value) => Some(value@),
        None => None,
    }
}

/// A round of the protocol. Ballots are ordered by their configuration, then
/// their number, then their priority, then the server that leads them.
#[derive(Clone, Copy, Debug, PartialEq, Eq, Structural)]
pub struct Ballot {
    pub config_id: ConfigurationId,
    pub n: u32,
    pub priority: u32,
    pub pid: NodeId,
}

impl Default for Ballot {
    fn default() -> (ballot: Self)
        ensures
            ballot == Ballot::bottom(),
    {
        Ballot { config_id: 0, n: 0, priority: 0, pid: 0 }
    }
}

impl Ballot {
    /// The lowest ballot.
    pub open spec fn bottom() -> Ballot {
        Ballot { config_id: 0, n: 0, priority: 0, pid: 0 }
    }

    /// This ballot is lower than `other`.
    pub open spec fn below(self, other: Ballot) -> bool {
        if self.config_id != other.config_id {
            self.config_id < other.config_id
        } else if self.n != other.n {
            self.n < other.n
        } else if self.priority != other.priority {
            self.priority < other.priority
        } else {
            self.pid < other.pid
        }
    }

    /// Whether this ballot is lower than `other`.
    pub fn is_below(&self, other: &Ballot) -> (lower: bool)
        ensures
            lower == self.below(*other),
    {
        if self.config_id != other.config_id {
            self.config_id < other.config_id
        } else if self.n != other.n {
            self.n < other.n
        } else if self.priority != other.priority {
            self.priority < other.priority
        } else {
            self.pid < other.pid
        }
    }

    /// Ballots are totally ordered: of two different ballots one is lower than
    /// the other, none is lower than itself, and the order is transitive.
    pub proof fn total_order(a: Ballot, b: Ballot, c: Ballot)
        ensures
            !a.below(a),
            a != b ==> (a.below(b) <==> !b.below(a)),
            a.below(b) && b.below(c) ==> a.below(c),
            !a.below(Ballot::bottom()),
    {
    }
}

/// A ballot of a later configuration is higher; in one configuration one of a higher
/// number; of one number one of a higher priority; and only then the higher server counts.
pub proof fn ballots_are_ordered_by_configuration_first(a: Ballot, b: Ballot, lower: bool)
    requires
        call_ensures(Ballot::is_below, (&a, &b), lower),
    ensures
        a.config_id < b.config_id ==> lower,
        a.config_id == b.config_id && a.n < b.n ==> lower,
        a.config_id == b.config_id && a.n == b.n && a.priority < b.priority ==> lower,
        a.config_id == b.config_id && a.n == b.n && a.priority == b.priority && a.pid < b.pid
            ==> lower,
        lower ==> a.config_id <= b.config_id,
        lower && a.config_id == b.config_id ==> a.n <= b.n,
        lower && a.config_id == b.config_id && a.n == b.n ==> a.priority <= b.priority,
        lower && a.config_id == b.config_id && a.n == b.n && a.priority == b.priority ==> a.pid
            < b.pid,
        lower == a.below(b),
{
}

/// A majority is the smallest number of which two always have a server in common.
pub proof fn majority_is_the_smallest(num_nodes: usize, quorum: Quorum)
    requires
        call_ensures(Quorum::with, (None, num_nodes), quorum),
    ensures
        quorum matches Quorum::Majority(size) && 2 * size > num_nodes && 2 * (size - 1)
            <= num_nodes,
{
}

/// A quorum of given sizes is taken as it is: promises are counted against the read size
/// and accepted entries against the write size.
pub proof fn flexible_quorum_is_taken(
    sizes: FlexibleQuorum,
    num_nodes: usize,
    quorum: Quorum,
    count: usize,
    prepared: bool,
    chosen: bool,
)
    requires
        call_ensures(Quorum::with, (Some(sizes), num_nodes), quorum),
        call_ensures(Quorum::is_prepare_quorum, (&quorum, count), prepared),
        call_ensures(Quorum::is_accept_quorum, (&quorum, count), chosen),
    ensures
        prepared <==> count >= sizes.read_quorum_size,
        chosen <==> count >= sizes.write_quorum_size,
{
}

/// Read and write quorums of different sizes.
#[derive(Clone, Copy, Debug, PartialEq, Eq, Structural)]
pub struct FlexibleQuorum {
    pub read_quorum_size: usize,
    pub write_quorum_size: usize,
}

/// How many servers make a quorum.
#[derive(Clone, Copy, Debug, PartialEq, Eq, Structural)]
pub enum Quorum {
    Majority(usize),
    Flexible(FlexibleQuorum),
}

impl Quorum {
    /// The number of promises that a leader needs in the prepare phase.
    pub open spec fn prepare_size(self) -> nat {
        match self {
            Quorum::Majority(size) => size as nat,
            Quorum::Flexible(quorum) => quorum.read_quorum_size as nat,
        }
    }

    /// The number of servers that must have accepted an entry to choose it.
    pub open spec fn accept_size(self) -> nat {
        match self {
            Quorum::Majority(size) => size as nat,
            Quorum::Flexible(quorum) => quorum.write_quorum_size as nat,
        }
    }

    /// The quorum of a cluster of `num_nodes` servers: the flexible one where it
    /// is given, a majority otherwise.
    pub open spec fn of(flexible_quorum: Option<FlexibleQuorum>, num_nodes: usize) -> Self {
        match flexible_quorum {
            Some(flexible) => Quorum::Flexible(flexible),
            None => Quorum::Majority((num_nodes / 2 + 1) as usize),
        }
    }

    /// A quorum of promises and a quorum of servers that accepted have a server in
    /// common: always with majorities, with a flexible quorum where its sizes add up
    /// to more than the servers there are.
    pub proof fn quorums_meet(
        flexible_quorum: Option<FlexibleQuorum>,
        nodes: Set<NodeId>,
        promised: Set<NodeId>,
        accepted: Set<NodeId>,
    )
        requires
            nodes.finite(),
            nodes.len() <= usize::MAX,
            flexible_quorum matches Some(sizes) ==> sizes.read_quorum_size
                + sizes.write_quorum_size > nodes.len(),
            promised.subset_of(nodes),
            accepted.subset_of(nodes),
            promised.len() >= Quorum::of(flexible_quorum, nodes.len() as usize).prepare_size(),
            accepted.len() >= Quorum::of(flexible_quorum, nodes.len() as usize).accept_size(),
        ensures
            exists|pid: NodeId| promised.contains(pid) && accepted.contains(pid),
    {
        vstd::set_lib::lemma_len_subset(promised, nodes);
        vstd::set_lib::lemma_len_subset(accepted, nodes);
        if promised.disjoint(accepted) {
            vstd::set_lib::lemma_set_disjoint_lens(promised, accepted);
            assert((promised + accepted).subset_of(nodes));
            vstd::set_lib::lemma_len_subset(promised + accepted, nodes);
        }
    }

    /// The quorum of a cluster of `num_nodes` servers.
    pub fn with(flexible_quorum: Option<FlexibleQuorum>, num_nodes: usize) -> (quorum: Self)
        ensures
            quorum == Quorum::of(flexible_quorum, num_nodes),
    {
        match flexible_quorum {
            Some(flexible) => Quorum::Flexible(flexible),
            None => Quorum::Majority(num_nodes / 2 + 1),
        }
    }

    /// Whether `num_nodes` promises are a quorum.
    pub fn is_prepare_quorum(&self, num_nodes: usize) -> (reached: bool)
        ensures
            reached == (num_nodes >= self.prepare_size()),
    {
        match self {
            Quorum::Majority(size) => num_nodes >= *size,
            Quorum::Flexible(quorum) => num_nodes >= quorum.read_quorum_size,
        }
    }

    /// Whether `num_nodes` servers that accepted an entry are a quorum.
    pub fn is_accept_quorum(&self, num_nodes: usize) -> (reached: bool)
        ensures
            reached == (num_nodes >= self.accept_size()),
    {
        match self {
            Quorum::Majority(size) => num_nodes >= *size,
            Quorum::Flexible(quorum) => num_nodes >= quorum.write_quorum_size,
        }
    }
}

/// The servers of a cluster.
#[derive(Debug, PartialEq, Eq)]
pub struct ClusterConfigEC {
    /// The id of the configuration.
    pub configuration_id: ConfigurationId,
    /// The servers.
    pub nodes: Vec<NodeId>,
    /// The quorum sizes, where they are not majorities.
    pub flexible_quorum: Option<FlexibleQuorum>,
}

/// What a cluster configuration holds.
pub struct ClusterConfigView {
    pub configuration_id: ConfigurationId,
    pub nodes: Seq<NodeId>,
    pub flexible_quorum: Option<FlexibleQuorum>,
}

impl View for ClusterConfigEC {
    type V = ClusterConfigView;

    open spec fn view(&self) -> ClusterConfigView {
        ClusterConfigView {
            configuration_id: self.configuration_id,
            nodes: self.nodes@,
            flexible_quorum: self.flexible_quorum,
        }
    }
}

impl Clone for ClusterConfigEC {
    fn clone(&self) -> (copy: Self)
        ensures
            copy@ == self@,
    {
        let mut nodes: Vec<NodeId> = Vec::with_capacity(self.nodes.len());
        nodes.extend_from_slice(self.nodes.as_slice());
        assert(nodes@ =~= self.nodes@);
        ClusterConfigEC {
            configuration_id: self.configuration_id,
            nodes,
            flexible_quorum: self.flexible_quorum,
        }
    }
}

} // verus!
