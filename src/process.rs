use vstd::prelude::*;

verus! {

/// Coarse run state of a process.
#[derive(Debug, Clone, Copy, PartialEq, Eq, Structural)]
pub enum ProcessState {
    Running,
    Sleeping,
    Zombie,
    TracingStop,
    Dead,
    Idle,
}

/// Mathematical picture of one process and the pids of its children.
pub struct NodeView {
    pub pid: i32,
    pub ppid: i32,
    pub name: Seq<char>,
    pub state: ProcessState,
    pub children: Seq<i32>,
}

/// One process: its identity, its parent, its name and state, and the pids
/// of the children discovered so far, in discovery order.
#[derive(Debug, Clone)]
pub struct ProcessNode {
    pub pid: i32,
    pub ppid: i32,
    pub name: String,
    pub state: ProcessState,
    pub children: Vec<i32>,
}

impl View for ProcessNode {
    type V = NodeView;

    open spec fn view(&self) -> NodeView {
        NodeView {
            pid: self.pid,
            ppid: self.ppid,
            name: self.name@,
            state: self.state,
            children: self.children@,
        }
    }
}

impl ProcessNode {
    /// A node for pid 1 with no parent, an empty name, state `Idle` and no
    /// children.
    pub fn new() -> (r: ProcessNode)
        ensures
            r.pid == 1,
            r.ppid == 0,
            r.name@ == Seq::<char>::empty(),
            r.state == ProcessState::Idle,
            r.children@ == Seq::<i32>::empty(),
    {
        ProcessNode {
            pid: 1,
            ppid: 0,
            name: String::new(),
            state: ProcessState::Idle,
            children: Vec::new(),
        }
    }

    /// Appends `child` to the end of the children list; nothing else changes.
    pub fn add_child(&mut self, child: i32)
        ensures
            final(self)@ == (NodeView {
                children: old(self)@.children.push(child),
                ..old(self)@
            }),
    {
        self.children.push(child);
    }

    /// A field-by-field copy of the node.
    pub fn duplicate(&self) -> (r: ProcessNode)
        ensures
            r@ == self@,
    {
        ProcessNode {
            pid: self.pid,
            ppid: self.ppid,
            name: self.name.clone(),
            state: self.state,
            children: self.children.clone(),
        }
    }
}

} // verus!
