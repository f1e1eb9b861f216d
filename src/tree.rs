use std::collections::HashMap;
use vstd::prelude::*;
use crate::process::{NodeView, ProcessNode};

verus! {

broadcast use vstd::std_specs::hash::group_hash_axioms;

/// Why a set of process records could not be assembled into a tree.
#[derive(Debug, Clone, Copy, PartialEq, Eq, Structural)]
pub enum TreeError {
    /// The record for `pid` names a parent `ppid` that no record has.
    DanglingParent { pid: i32, ppid: i32 },
}

/// The records of `process_list` as mathematical nodes.
pub open spec fn records_view(process_list: Seq<ProcessNode>) -> Seq<NodeView> {
    process_list.map_values(|n: ProcessNode| n@)
}

/// A pid-keyed map of nodes, seen through the nodes' views.
pub open spec fn tree_view(t: Map<i32, ProcessNode>) -> Map<i32, NodeView> {
    t.map_values(|n: ProcessNode| n@)
}

/// Some record of `recs` has pid `p`.
pub open spec fn has_record(recs: Seq<NodeView>, p: i32) -> bool {
    exists|i: int| 0 <= i < recs.len() && (#[trigger] recs[i]).pid == p
}

/// Every non-zero parent pid named by a record is the pid of some record.
pub open spec fn parents_present(recs: Seq<NodeView>) -> bool {
    forall|i: int|
        0 <= i < recs.len() && (#[trigger] recs[i]).ppid != 0 ==> has_record(recs, recs[i].ppid)
}

/// Every record entered under its pid, in order, so that a later record
/// replaces an earlier one with the same pid.
pub open spec fn inserted(recs: Seq<NodeView>) -> Map<i32, NodeView>
    decreases recs.len(),
{
    if recs.len() == 0 {
        Map::empty()
    } else {
        inserted(recs.drop_last()).insert(recs.last().pid, recs.last())
    }
}

/// `base` after appending, record by record in order, each record's pid to
/// the children of its parent.
pub open spec fn linked(base: Map<i32, NodeView>, recs: Seq<NodeView>) -> Map<i32, NodeView>
    decreases recs.len(),
{
    if recs.len() == 0 {
        base
    } else {
        let m = linked(base, recs.drop_last());
        let r = recs.last();
        if r.ppid != 0 && m.contains_key(r.ppid) {
            m.insert(r.ppid, NodeView { children: m[r.ppid].children.push(r.pid), ..m[r.ppid] })
        } else {
            m
        }
    }
}

/// The tree assembled from a flat list of records.
pub open spec fn assemble(recs: Seq<NodeView>) -> Map<i32, NodeView> {
    linked(inserted(recs), recs)
}

proof fn lemma_inserted_keys(recs: Seq<NodeView>, p: i32)
    ensures
        inserted(recs).contains_key(p) <==> has_record(recs, p),
    decreases recs.len(),
{
    if recs.len() > 0 {
        let init = recs.drop_last();
        lemma_inserted_keys(init, p);
        if has_record(init, p) {
            let i = choose|i: int| 0 <= i < init.len() && (#[trigger] init[i]).pid == p;
            assert(recs[i] == init[i]);
        }
        if has_record(recs, p) {
            let i = choose|i: int| 0 <= i < recs.len() && (#[trigger] recs[i]).pid == p;
            if i < init.len() {
                assert(recs[i] == init[i]);
            }
        }
    }
}

proof fn lemma_linked_keys(base: Map<i32, NodeView>, recs: Seq<NodeView>)
    ensures
        linked(base, recs).dom() == base.dom(),
    decreases recs.len(),
{
    if recs.len() > 0 {
        lemma_linked_keys(base, recs.drop_last());
        let m = linked(base, recs.drop_last());
        let r = recs.last();
        if r.ppid != 0 && m.contains_key(r.ppid) {
            assert(m.dom().insert(r.ppid) =~= m.dom());
        }
    }
}

/// The pids of the records that name `p` as their parent, in record order.
pub open spec fn child_pids(recs: Seq<NodeView>, p: i32) -> Seq<i32>
    decreases recs.len(),
{
    if recs.len() == 0 {
        seq![]
    } else {
        let c = child_pids(recs.drop_last(), p);
        if p != 0 && recs.last().ppid == p {
            c.push(recs.last().pid)
        } else {
            c
        }
    }
}

/// No two records share a pid.
pub open spec fn pids_unique(recs: Seq<NodeView>) -> bool {
    forall|i: int, j: int|
        0 <= i < recs.len() && 0 <= j < recs.len() && (#[trigger] recs[i]).pid == (
        #[trigger] recs[j]).pid ==> i == j
}

proof fn lemma_linked_entry(base: Map<i32, NodeView>, recs: Seq<NodeView>, p: i32)
    requires
        base.contains_key(p),
    ensures
        linked(base, recs).contains_key(p),
        linked(base, recs)[p] == (NodeView {
            children: base[p].children + child_pids(recs, p),
            ..base[p]
        }),
    decreases recs.len(),
{
    if recs.len() == 0 {
        assert(base[p].children + Seq::<i32>::empty() =~= base[p].children);
    } else {
        lemma_linked_entry(base, recs.drop_last(), p);
        let c = child_pids(recs.drop_last(), p);
        assert((base[p].children + c).push(recs.last().pid) =~= base[p].children + c.push(
            recs.last().pid,
        ));
    }
}

proof fn lemma_inserted_entry(recs: Seq<NodeView>, i: int)
    requires
        pids_unique(recs),
        0 <= i < recs.len(),
    ensures
        inserted(recs).contains_key(recs[i].pid),
        inserted(recs)[recs[i].pid] == recs[i],
    decreases recs.len(),
{
    let init = recs.drop_last();
    if i < recs.len() - 1 {
        assert(pids_unique(init)) by {
            assert forall|a: int, b: int|
                0 <= a < init.len() && 0 <= b < init.len() && (#[trigger] init[a]).pid == (
                #[trigger] init[b]).pid implies a == b by {
                assert(init[a] == recs[a] && init[b] == recs[b]);
            }
        }
        assert(init[i] == recs[i]);
        lemma_inserted_entry(init, i);
        assert(recs.last() == recs[recs.len() - 1]);
    }
}

/// When no two records share a pid, the assembled tree holds each record
/// under its pid, unchanged but for its children, which gain, in record
/// order, the pids of the records that name it as parent.
pub proof fn lemma_assembled_node(recs: Seq<NodeView>, i: int)
    requires
        pids_unique(recs),
        0 <= i < recs.len(),
    ensures
        assemble(recs).contains_key(recs[i].pid),
        assemble(recs)[recs[i].pid] == (NodeView {
            children: recs[i].children + child_pids(recs, recs[i].pid),
            ..recs[i]
        }),
{
    lemma_inserted_entry(recs, i);
    lemma_linked_entry(inserted(recs), recs, recs[i].pid);
}

/// The assembled tree has a node for exactly the pids that some record has.
pub proof fn lemma_assembled_keys(recs: Seq<NodeView>, p: i32)
    ensures
        assemble(recs).contains_key(p) <==> has_record(recs, p),
{
    lemma_inserted_keys(recs, p);
    lemma_linked_keys(inserted(recs), recs);
}

/// Builds the pid-keyed tree from a flat list of records: each record is
/// entered under its pid, then each record with a non-zero parent pid is
/// appended, in list order, to its parent's children. Fails when a parent
/// pid names no record.
pub fn build_process_tree(process_list: Vec<ProcessNode>) -> (r: Result<
    HashMap<i32, ProcessNode>,
    TreeError,
>)
    ensures
        match r {
            Ok(t) => parents_present(records_view(process_list@)) && tree_view(t@) == assemble(
                records_view(process_list@),
            ),
            Err(TreeError::DanglingParent { pid, ppid }) => {
                let v = records_view(process_list@);
                &&& !parents_present(v)
                &&& ppid != 0
                &&& !has_record(v, ppid)
                &&& exists|i: int| 0 <= i < v.len() && (#[trigger] v[i]).pid == pid && v[i].ppid == ppid
            },
        },
{
    let ghost v = records_view(process_list@);
    let n = process_list.len();
    let mut tree: HashMap<i32, ProcessNode> = HashMap::new();
    let mut i: usize = 0;
    while i < n
        invariant
            n == process_list.len(),
            v == records_view(process_list@),
            0 <= i <= n,
            tree_view(tree@) == inserted(v.take(i as int)),
        decreases n - i,
    {
        let node = process_list[i].duplicate();
        let ghost before = tree@;
        tree.insert(process_list[i].pid, node);
        assert(v.take(i + 1).drop_last() =~= v.take(i as int));
        assert(tree_view(tree@) =~= tree_view(before).insert(v[i as int].pid, v[i as int]));
        i = i + 1;
    }
    assert(v.take(n as int) =~= v);
    let mut i: usize = 0;
    while i < n
        invariant
            n == process_list.len(),
            v == records_view(process_list@),
            0 <= i <= n,
            tree_view(tree@) == linked(inserted(v), v.take(i as int)),
            forall|j: int| 0 <= j < i && (#[trigger] v[j]).ppid != 0 ==> has_record(v, v[j].ppid),
        decreases n - i,
    {
        let pid = process_list[i].pid;
        let ppid = process_list[i].ppid;
        let ghost before = tree@;
        proof {
            assert(v.take(i + 1).drop_last() =~= v.take(i as int));
            assert(v.take(i + 1).last() == v[i as int]);
            lemma_linked_keys(inserted(v), v.take(i as int));
            lemma_inserted_keys(v, ppid);
        }
        if ppid != 0 {
            match tree.remove(&ppid) {
                Some(mut parent) => {
                    parent.add_child(pid);
                    tree.insert(ppid, parent);
                    assert(tree_view(tree@) =~= linked(inserted(v), v.take(i + 1)));
                },
                None => {
                    assert(tree_view(before).contains_key(ppid) == before.contains_key(ppid));
                    assert(v[i as int].ppid == ppid);
                    return Err(TreeError::DanglingParent { pid, ppid });
                },
            }
        } else {
            assert(tree_view(tree@) =~= linked(inserted(v), v.take(i + 1)));
        }
        i = i + 1;
    }
    assert(v.take(n as int) =~= v);
    Ok(tree)
}

} // verus!
