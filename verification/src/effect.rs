//! Changes to the file system that the panel decides on and its caller carries
//! out, in order.

use vstd::prelude::*;

verus! {

/// What a change to the file system is.
#[derive(Debug, PartialEq, Eq)]
pub enum Change {
    /// Creates a directory and the ones above it.
    MakeDir(String),
    SetMode(String, u32),
    Own(String, u32, u32),
    /// Gives a directory tree to an account, apart from what stays root's.
    OwnTree(String, u32, u32),
    RemoveFile(String),
    /// Removes a directory that is empty.
    RemoveDir(String),
    RemoveTree(String),
    /// Creates an empty file where nothing stands yet, and fails where something
    /// does: of two callers at once, one comes too late.
    Create(String),
    /// Replaces a file by one with this content, at once.
    Write(String, String),
    /// Gives the first file the name of the second, whose place it takes.
    Rename(String, String),
}

pub enum ChangeV {
    MakeDir(Seq<char>),
    SetMode(Seq<char>, int),
    Own(Seq<char>, int, int),
    OwnTree(Seq<char>, int, int),
    RemoveFile(Seq<char>),
    RemoveDir(Seq<char>),
    RemoveTree(Seq<char>),
    Create(Seq<char>),
    Write(Seq<char>, Seq<char>),
    Rename(Seq<char>, Seq<char>),
}

impl View for Change {
    type V = ChangeV;

    open spec fn view(&self) -> ChangeV {
        match self {
            Change::MakeDir(p) => ChangeV::MakeDir(p@),
            Change::SetMode(p, m) => ChangeV::SetMode(p@, *m as int),
            Change::Own(p, u, g) => ChangeV::Own(p@, *u as int, *g as int),
            Change::OwnTree(p, u, g) => ChangeV::OwnTree(p@, *u as int, *g as int),
            Change::RemoveFile(p) => ChangeV::RemoveFile(p@),
            Change::RemoveDir(p) => ChangeV::RemoveDir(p@),
            Change::RemoveTree(p) => ChangeV::RemoveTree(p@),
            Change::Create(p) => ChangeV::Create(p@),
            Change::Write(p, c) => ChangeV::Write(p@, c@),
            Change::Rename(p, q) => ChangeV::Rename(p@, q@),
        }
    }
}

/// A change, and whether the command fails with it. One that need not succeed
/// is tried and its outcome ignored.
#[derive(Debug, PartialEq, Eq)]
pub struct Step {
    pub change: Change,
    pub must: bool,
}

pub struct StepV {
    pub change: ChangeV,
    pub must: bool,
}

impl View for Step {
    type V = StepV;

    open spec fn view(&self) -> StepV {
        StepV { change: self.change@, must: self.must }
    }
}

pub open spec fn needed(change: ChangeV) -> StepV {
    StepV { change, must: true }
}

pub open spec fn tried(change: ChangeV) -> StepV {
    StepV { change, must: false }
}

pub open spec fn step_views(v: Seq<Step>) -> Seq<StepV> {
    Seq::new(v.len(), |i: int| v[i]@)
}

/// Changes in the order in which they are to be made.
#[derive(Debug, PartialEq, Eq)]
pub struct Steps {
    pub list: Vec<Step>,
}

impl View for Steps {
    type V = Seq<StepV>;

    open spec fn view(&self) -> Seq<StepV> {
        step_views(self.list@)
    }
}

impl Steps {
    pub fn new() -> (r: Steps)
        ensures
            r@ == Seq::<StepV>::empty(),
    {
        let r = Steps { list: Vec::new() };
        assert(r@ =~= Seq::<StepV>::empty());
        r
    }

    /// Adds a change that has to succeed.
    pub fn need(&mut self, change: Change)
        ensures
            final(self)@ == old(self)@.push(needed(change@)),
    {
        let ghost before = self@;
        self.list.push(Step { change, must: true });
        assert(self@ =~= before.push(needed(change@)));
    }

    /// Adds a change whose outcome does not matter.
    pub fn try_to(&mut self, change: Change)
        ensures
            final(self)@ == old(self)@.push(tried(change@)),
    {
        let ghost before = self@;
        self.list.push(Step { change, must: false });
        assert(self@ =~= before.push(tried(change@)));
    }

    pub fn try_remove(&mut self, path: String)
        ensures
            final(self)@ == old(self)@.push(tried(ChangeV::RemoveFile(path@))),
    {
        self.try_to(Change::RemoveFile(path))
    }
}

/// Steps that each try to remove one of these files.
pub open spec fn removals(paths: Seq<Seq<char>>) -> Seq<StepV> {
    Seq::new(paths.len(), |i: int| tried(ChangeV::RemoveFile(paths[i])))
}

/// A removal is tried for each of these files, and none of them has to succeed.
pub proof fn law_removals_are_tried(paths: Seq<Seq<char>>, i: int)
    requires
        0 <= i < paths.len(),
    ensures
        removals(paths).len() == paths.len(),
        removals(paths)[i].change == ChangeV::RemoveFile(paths[i]),
        !removals(paths)[i].must,
        forall|c: ChangeV| (#[trigger] needed(c)).must && needed(c).change == c,
        forall|c: ChangeV| !(#[trigger] tried(c)).must && tried(c).change == c,
{
}

} // verus!
