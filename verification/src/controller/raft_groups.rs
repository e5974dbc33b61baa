//! Consensus instances, one per data center.

use vstd::prelude::*;

use crate::collections::VecMap;

verus! {

/// Name of the data center of nodes that name none.
pub const DEFAULT_DC_NAME: &'static str = "default";

/// Names the consensus group of a data center.
#[derive(Debug, PartialEq, Eq)]
pub struct RaftGroupId {
    pub dc_name: String,
}

impl View for RaftGroupId {
    type V = Seq<char>;

    open spec fn view(&self) -> Seq<char> {
        self.dc_name@
    }
}

impl RaftGroupId {
    /// The group of a data center.
    pub fn for_dc(dc_name: &str) -> (id: RaftGroupId)
        ensures
            id@ == dc_name@,
    {
        RaftGroupId { dc_name: dc_name.to_owned() }
    }

    /// The group of nodes that name no data center.
    pub fn default_dc() -> (id: RaftGroupId)
        ensures
            id@ == DEFAULT_DC_NAME@,
    {
        RaftGroupId { dc_name: DEFAULT_DC_NAME.to_owned() }
    }
}

/// The consensus instances of a node, by group.
#[derive(Debug)]
pub struct RaftGroups<R> {
    groups: VecMap<String, R>,
}

impl<R> View for RaftGroups<R> {
    type V = Map<Seq<char>, R>;

    closed spec fn view(&self) -> Map<Seq<char>, R> {
        self.groups@
    }
}

/// The instance that serves a node of a data center: the only one where there
/// is one only, else that of its data center, else the default one.
pub open spec fn serving_group<R>(groups: Map<Seq<char>, R>, local_dc: Seq<char>) -> Option<Seq<char>> {
    if groups.len() == 1 {
        Some(groups.dom().choose())
    } else if groups.contains_key(local_dc) {
        Some(local_dc)
    } else if groups.contains_key(DEFAULT_DC_NAME@) {
        Some(DEFAULT_DC_NAME@)
    } else {
        None
    }
}

impl<R> RaftGroups<R> {
    /// The groups are listed without repetition.
    pub closed spec fn wf(self) -> bool {
        self.groups.wf()
    }

    /// No instance.
    pub fn new() -> (g: RaftGroups<R>)
        ensures
            g.wf(),
            g@ == Map::<Seq<char>, R>::empty(),
    {
        RaftGroups { groups: VecMap::new() }
    }

    /// How many groups there are.
    pub fn len(&self) -> (n: usize)
        requires
            self.wf(),
        ensures
            n == self@.len(),
    {
        self.groups.len()
    }

    /// Are there none?
    pub fn is_empty(&self) -> (b: bool)
        requires
            self.wf(),
        ensures
            b == (self@.len() == 0),
    {
        self.groups.len() == 0
    }

    /// The instance that serves a node of a data center.
    pub fn raft(&self, local_dc: &str) -> (r: Option<&R>)
        requires
            self.wf(),
        ensures
            match r {
                Some(v) => {
                    let id = serving_group(self@, local_dc@);
                    id is Some && self@.contains_key(id->0) && *v == self@[id->0]
                },
                None => serving_group(self@, local_dc@) is None,
            },
    {
        if self.groups.len() == 1 {
            proof {
                self.groups.lemma_entries();
                let only = self.groups.spec_entries()[0].0@;
                let id = self@.dom().choose();
                assert(self@.contains_key(only));
                assert(self@.dom().contains(only));
                assert(self@.dom().contains(id));
                assert(self@.dom().len() == 1);
                assert(id == only) by {
                    if id != only {
                        let rest = self@.dom().remove(only);
                        assert(rest.len() == 0);
                        assert(rest.contains(id));
                    }
                }
            }
            return Some(self.groups.value_at(0));
        }
        match self.groups.get(local_dc) {
            Some(v) => Some(v),
            None => self.groups.get(DEFAULT_DC_NAME),
        }
    }

    /// The instance of a data center.
    pub fn raft_for_dc(&self, dc_name: &str) -> (r: Option<&R>)
        requires
            self.wf(),
        ensures
            match r {
                Some(v) => self@.contains_key(dc_name@) && *v == self@[dc_name@],
                None => !self@.contains_key(dc_name@),
            },
    {
        self.groups.get(dc_name)
    }

    /// The instance of a group.
    pub fn raft_for_group(&self, id: &RaftGroupId) -> (r: Option<&R>)
        requires
            self.wf(),
        ensures
            match r {
                Some(v) => self@.contains_key(id@) && *v == self@[id@],
                None => !self@.contains_key(id@),
            },
    {
        self.groups.get(id.dc_name.as_str())
    }

    /// Put an instance in place of the one of its group.
    pub fn set_raft_for_group(&mut self, id: RaftGroupId, raft: R)
        requires
            old(self).wf(),
        ensures
            final(self).wf(),
            final(self)@ == old(self)@.insert(id@, raft),
    {
        self.groups.insert(id.dc_name, raft);
    }

    /// Put an instance in place of the one of its data center.
    pub fn set_raft_for_dc(&mut self, dc_name: &str, raft: R)
        requires
            old(self).wf(),
        ensures
            final(self).wf(),
            final(self)@ == old(self)@.insert(dc_name@, raft),
    {
        self.groups.insert(dc_name.to_owned(), raft);
    }
}

/// A node whose data center has an instance is served by it, unless there is
/// one only, which serves everybody.
pub proof fn own_group_comes_first<R>(groups: Map<Seq<char>, R>, local_dc: Seq<char>)
    requires
        groups.contains_key(local_dc),
        groups.dom().finite(),
    ensures
        serving_group(groups, local_dc) == Some(local_dc),
{
    if groups.len() == 1 {
        let id = groups.dom().choose();
        if id != local_dc {
            let rest = groups.dom().remove(local_dc);
            assert(rest.len() == 0);
            assert(rest.contains(id));
        }
    }
}

/// The only instance serves everybody. Of several, that of the local data center serves a
/// node, or else the one for nodes that name no data center, or else none.
pub proof fn instances_serve_in_order<R>(
    groups: Map<Seq<char>, R>,
    local_dc: Seq<char>,
    only: Seq<char>,
)
    requires
        groups.dom().finite(),
    ensures
        groups.len() == 1 && groups.contains_key(only) ==> serving_group(groups, local_dc) == Some(
            only,
        ),
        groups.len() != 1 && groups.contains_key(local_dc) ==> serving_group(groups, local_dc)
            == Some(local_dc),
        groups.len() != 1 && !groups.contains_key(local_dc) && groups.contains_key(
            DEFAULT_DC_NAME@,
        ) ==> serving_group(groups, local_dc) == Some(DEFAULT_DC_NAME@),
        groups.len() != 1 && !groups.contains_key(local_dc) && !groups.contains_key(
            DEFAULT_DC_NAME@,
        ) ==> serving_group(groups, local_dc) is None,
{
    if groups.len() == 1 && groups.contains_key(only) {
        let id = groups.dom().choose();
        if id != only {
            let rest = groups.dom().remove(only);
            assert(rest.len() == 0);
            assert(rest.contains(id));
        }
    }
}

} // verus!
