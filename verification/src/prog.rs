//! Programs: calls in order, each with its arguments.

use crate::types::{FnId, GroupId, TypeId};
use crate::value::Value;
use vstd::prelude::*;

verus! {

#[derive(Debug, PartialEq, Eq)]
pub struct Arg {
    pub tid: TypeId,
    pub val: Value,
}

impl Arg {
    /// An argument of type `tid` whose value is still to come.
    pub fn new(tid: TypeId) -> (a: Arg)
        ensures
            a == (Arg { tid, val: Value::Null }),
    {
        Arg { tid, val: Value::Null }
    }
}

#[derive(Debug, PartialEq, Eq)]
pub struct Call {
    pub fid: FnId,
    pub args: Vec<Arg>,
    pub ret: Option<Arg>,
}

impl Call {
    pub fn new(fid: FnId) -> (c: Call)
        ensures
            c.fid == fid,
            c.args@ == Seq::<Arg>::empty(),
            c.ret is None,
    {
        Call { fid, args: Vec::new(), ret: None }
    }

    /// Appends `arg` and hands it back to be filled in.
    pub fn add_arg(&mut self, arg: Arg) -> (added: &mut Arg)
        ensures
            *added == arg,
            final(self).fid == old(self).fid,
            final(self).ret == old(self).ret,
            final(self).args@ == old(self).args@.push(*final(added)),
    {
        self.args.push(arg);
        let last = self.args.len() - 1;
        &mut self.args[last]
    }
}

#[derive(Debug, PartialEq, Eq)]
pub struct Prog {
    pub gid: GroupId,
    pub calls: Vec<Call>,
}

impl Prog {
    pub fn new(gid: GroupId) -> (p: Prog)
        ensures
            p.gid == gid,
            p.calls@ == Seq::<Call>::empty(),
    {
        Prog { gid, calls: Vec::new() }
    }

    pub fn len(&self) -> (n: usize)
        ensures
            n == self.calls@.len(),
    {
        self.calls.len()
    }

    /// Appends `call` and hands it back to be filled in.
    pub fn add_call(&mut self, call: Call) -> (added: &mut Call)
        ensures
            *added == call,
            final(self).gid == old(self).gid,
            final(self).calls@ == old(self).calls@.push(*final(added)),
    {
        self.calls.push(call);
        let last = self.calls.len() - 1;
        &mut self.calls[last]
    }
}

} // verus!
