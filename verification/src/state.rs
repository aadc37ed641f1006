//! What generation remembers while one program is built: the program so
//! far, the slots that produced resources, and the strings already made.

use crate::config::Config;
use crate::prog::{Arg, Call, Prog};
use crate::rng::{pick, random};
use crate::types::{StrType, TypeId};
use crate::value::{ArgIndex, ArgPos, Value};
use std::collections::HashMap;
use vstd::prelude::*;
use vstd::string::StringExecFns;

verus! {

/// Through how many pointers, one inside the other, a value is built at
/// most, so that building a value of a type that holds a pointer to itself
/// comes to an end whatever the draws are.
pub const PTR_DEPTH_MAX: usize = 1024;

pub struct State<'a> {
    /// Through how many more pointers the value under construction may go.
    pub depth_left: usize,
    pub res: HashMap<TypeId, Vec<ArgIndex>>,
    pub strs: Vec<String>,
    pub cstrs: Vec<String>,
    pub filenames: Vec<String>,
    pub prog: Prog,
    pub conf: &'a Config,
}

/// Replacing the last call leaves the calls before it.
proof fn lemma_last_replaced(calls: Seq<Call>)
    requires
        calls.len() > 0,
    ensures
        forall|c: Call| (#[trigger] calls.update(calls.len() - 1, c)).drop_last() == calls.drop_last(),
{
    assert forall|c: Call| (#[trigger] calls.update(calls.len() - 1, c)).drop_last()
        == calls.drop_last() by {
        assert(calls.update(calls.len() - 1, c).drop_last() =~= calls.drop_last());
    }
}

/// The texts of a pool of strings.
pub open spec fn texts(pool: Seq<String>) -> Seq<Seq<char>> {
    Seq::new(pool.len(), |i: int| pool[i]@)
}

impl<'a> State<'a> {
    /// The slots recorded as producers of the resource `tid`, oldest first.
    pub open spec fn handles(&self, tid: TypeId) -> Seq<ArgIndex> {
        if self.res@.contains_key(tid) {
            self.res@[tid]@
        } else {
            Seq::empty()
        }
    }

    /// The strings recorded under `kind`, oldest first.
    pub open spec fn pool(&self, kind: StrType) -> Seq<Seq<char>> {
        match kind {
            StrType::Str => texts(self.strs@),
            StrType::CStr => texts(self.cstrs@),
            StrType::FileName => texts(self.filenames@),
        }
    }

    /// The call under construction.
    pub open spec fn last_call(&self) -> Call {
        self.prog.calls@.last()
    }

    pub fn new(prog: Prog, conf: &'a Config) -> (s: Self)
        ensures
            s.prog == prog,
            s.conf == conf,
            s.depth_left == PTR_DEPTH_MAX,
            s.res@ == Map::<TypeId, Vec<ArgIndex>>::empty(),
            s.strs@ == Seq::<String>::empty(),
            s.cstrs@ == Seq::<String>::empty(),
            s.filenames@ == Seq::<String>::empty(),
    {
        Self {
            depth_left: PTR_DEPTH_MAX,
            res: HashMap::new(),
            strs: Vec::new(),
            cstrs: Vec::new(),
            filenames: Vec::new(),
            prog,
            conf,
        }
    }

    /// Records the slot just added to the last call, its return slot or its
    /// last argument, as a producer of the resource `tid`.
    pub fn record_res(&mut self, tid: TypeId, is_ret: bool)
        requires
            old(self).prog.calls@.len() > 0,
            !is_ret ==> old(self).last_call().args@.len() > 0,
        ensures
            final(self).handles(tid) == old(self).handles(tid).push(
                ArgIndex {
                    call: (old(self).prog.calls@.len() - 1) as usize,
                    pos: if is_ret {
                        ArgPos::Ret
                    } else {
                        ArgPos::Arg((old(self).last_call().args@.len() - 1) as usize)
                    },
                },
            ),
            forall|other: TypeId| other != tid ==> final(self).handles(other) == old(self).handles(other),
            final(self).prog == old(self).prog,
            final(self).conf == old(self).conf,
            final(self).depth_left == old(self).depth_left,
            final(self).strs == old(self).strs,
            final(self).cstrs == old(self).cstrs,
            final(self).filenames == old(self).filenames,
    {
        let cid = self.prog.len() - 1;
        let pos = if is_ret {
            ArgPos::Ret
        } else {
            ArgPos::Arg(self.prog.calls[cid].args.len() - 1)
        };
        let mut list = match self.res.remove(&tid) {
            Some(list) => list,
            None => Vec::new(),
        };
        list.push(ArgIndex { call: cid, pos });
        self.res.insert(tid, list);
        assert(final(self).handles(tid) =~= old(self).handles(tid).push(ArgIndex { call: cid, pos }));
    }

    /// Records `val` as a string made under `t`.
    pub fn record_str(&mut self, t: StrType, val: &str)
        ensures
            final(self).pool(t) == old(self).pool(t).push(val@),
            forall|other: StrType| other != t ==> final(self).pool(other) == old(self).pool(other),
            final(self).prog == old(self).prog,
            final(self).conf == old(self).conf,
            final(self).depth_left == old(self).depth_left,
            final(self).res == old(self).res,
    {
        let owned = String::from_str(val);
        match t {
            StrType::Str => {
                self.strs.push(owned);
            },
            StrType::CStr => {
                self.cstrs.push(owned);
            },
            StrType::FileName => {
                self.filenames.push(owned);
            },
        }
        assert(final(self).pool(t) =~= old(self).pool(t).push(val@));
    }

    /// A reference to one of the recorded producers of the resource `tid`,
    /// where there is any.
    pub fn try_reuse_res(&self, tid: TypeId) -> (r: Option<Value>)
        ensures
            match r {
                Some(v) => v matches Value::Ref(idx) && self.handles(tid).contains(idx),
                None => self.handles(tid).len() == 0,
            },
    {
        if let Some(res) = self.res.get(&tid) {
            if res.len() > 0 {
                let r = pick(res.as_slice());
                return Some(Value::Ref(*r));
            }
        }
        None
    }

    /// The strings recorded under `str_type`, oldest first.
    pub fn strs_of(&self, str_type: StrType) -> (strs: &Vec<String>)
        ensures
            texts(strs@) == self.pool(str_type),
    {
        match str_type {
            StrType::Str => &self.strs,
            StrType::CStr => &self.cstrs,
            StrType::FileName => &self.filenames,
        }
    }

    /// One of the strings recorded under `str_type` where the coin `reuse`
    /// has come up and there is any, else nothing.
    pub fn reuse_str_if(&self, str_type: StrType, reuse: bool) -> (r: Option<Value>)
        ensures
            r is Some <==> reuse && self.pool(str_type).len() > 0,
            r matches Some(v) ==> v matches Value::Str(s) && self.pool(str_type).contains(s@),
    {
        let strs = self.strs_of(str_type);
        if reuse && strs.len() > 0 {
            let s = pick(strs.as_slice());
            proof {
                let i = choose|i: int| 0 <= i < strs@.len() && strs@[i] == *s;
                assert(texts(strs@)[i] == s@);
            }
            Some(Value::Str(s.clone()))
        } else {
            None
        }
    }

    /// One of the strings recorded under `str_type`, or nothing: where there
    /// are such strings, a fair coin decides, and `reuse_str_if` acts on it.
    pub fn try_reuse_str(&self, str_type: StrType) -> (r: Option<Value>)
        ensures
            match r {
                Some(v) => v matches Value::Str(s) && self.pool(str_type).contains(s@),
                None => true,
            },
            self.pool(str_type).len() == 0 ==> r is None,
    {
        let reuse = self.strs_of(str_type).len() > 0 && random::<bool>();
        self.reuse_str_if(str_type, reuse)
    }

    /// The calls before the one under construction.
    pub open spec fn done(&self) -> Seq<Call> {
        self.prog.calls@.drop_last()
    }

    /// The index of the argument under construction.
    pub open spec fn pos(&self) -> int {
        self.last_call().args@.len() - 1
    }

    /// What `before` remembered is remembered still, and what was added came
    /// after it.
    pub open spec fn remembers(&self, before: &Self) -> bool {
        &&& self.conf == before.conf
        &&& forall|tid: TypeId| #[trigger] before.handles(tid).is_prefix_of(self.handles(tid))
        &&& forall|kind: StrType| #[trigger] before.pool(kind).is_prefix_of(self.pool(kind))
    }

    /// The program is that of `before`, and what is remembered has grown at
    /// the end only.
    pub open spec fn grows_from(&self, before: &Self) -> bool {
        &&& self.prog == before.prog
        &&& self.depth_left == before.depth_left
        &&& self.remembers(before)
    }

    pub proof fn lemma_remembers_trans(&self, mid: &Self, before: &Self)
        requires
            mid.remembers(before),
            self.remembers(mid),
        ensures
            self.remembers(before),
    {
        assert forall|tid: TypeId| #[trigger]
            before.handles(tid).is_prefix_of(self.handles(tid)) by {
            assert(before.handles(tid).is_prefix_of(mid.handles(tid)));
            assert(mid.handles(tid).is_prefix_of(self.handles(tid)));
        }
        assert forall|kind: StrType| #[trigger] before.pool(kind).is_prefix_of(self.pool(kind)) by {
            assert(before.pool(kind).is_prefix_of(mid.pool(kind)));
            assert(mid.pool(kind).is_prefix_of(self.pool(kind)));
        }
    }

    pub proof fn lemma_grows_trans(&self, mid: &Self, before: &Self)
        requires
            mid.grows_from(before),
            self.grows_from(mid),
        ensures
            self.grows_from(before),
    {
        self.lemma_remembers_trans(mid, before);
    }

    /// A state with the memory of `before` remembers what `before` did.
    pub proof fn lemma_keeps_remembers(&self, before: &Self)
        requires
            self.keeps_memory(before),
        ensures
            self.remembers(before),
            forall|tid: TypeId| self.handles(tid) == before.handles(tid),
            forall|kind: StrType| self.pool(kind) == before.pool(kind),
    {
        assert forall|tid: TypeId| self.handles(tid) == before.handles(tid) by {}
        assert forall|kind: StrType| self.pool(kind) == before.pool(kind) by {}
        assert forall|tid: TypeId| #[trigger]
            before.handles(tid).is_prefix_of(self.handles(tid)) by {
            assert(self.handles(tid) == before.handles(tid));
        }
        assert forall|kind: StrType| #[trigger] before.pool(kind).is_prefix_of(self.pool(kind)) by {
            assert(self.pool(kind) == before.pool(kind));
        }
    }

    /// Nothing but the program differs from `before`.
    pub open spec fn keeps_memory(&self, before: &Self) -> bool {
        &&& self.conf == before.conf
        &&& self.depth_left == before.depth_left
        &&& self.res == before.res
        &&& self.strs == before.strs
        &&& self.cstrs == before.cstrs
        &&& self.filenames == before.filenames
    }

    /// The pools of strings are those of `before`.
    pub open spec fn keeps_pools(&self, before: &Self) -> bool {
        forall|kind: StrType| self.pool(kind) == before.pool(kind)
    }

    /// The program differs from that of `before` in its last call at most.
    pub open spec fn keeps_earlier_calls(&self, before: &Self) -> bool {
        &&& self.prog.gid == before.prog.gid
        &&& self.prog.calls@.len() == before.prog.calls@.len()
        &&& self.prog.calls@.drop_last() == before.prog.calls@.drop_last()
    }

    /// Appends `call` to the program and hands it back to be filled in.
    pub fn add_call(&mut self, call: Call) -> (added: &mut Call)
        ensures
            *added == call,
            final(self).prog.gid == old(self).prog.gid,
            final(self).prog.calls@ == old(self).prog.calls@.push(*final(added)),
            final(self).keeps_memory(old(self)),
    {
        self.prog.add_call(call)
    }

    /// Appends `arg` to the last call and hands it back to be filled in.
    pub fn add_arg(&mut self, arg: Arg) -> (added: &mut Arg)
        requires
            old(self).prog.calls@.len() > 0,
        ensures
            *added == arg,
            final(self).keeps_earlier_calls(old(self)),
            final(self).last_call().fid == old(self).last_call().fid,
            final(self).last_call().ret == old(self).last_call().ret,
            final(self).last_call().args@ == old(self).last_call().args@.push(*final(added)),
            final(self).keeps_memory(old(self)),
    {
        let i = self.prog.len() - 1;
        proof {
            lemma_last_replaced(self.prog.calls@);
        }
        self.prog.calls[i].add_arg(arg)
    }

    /// Makes `arg` the return slot of the last call and hands it back to be
    /// filled in.
    pub fn add_ret(&mut self, arg: Arg) -> (added: &mut Arg)
        requires
            old(self).prog.calls@.len() > 0,
        ensures
            *added == arg,
            final(self).keeps_earlier_calls(old(self)),
            final(self).last_call().fid == old(self).last_call().fid,
            final(self).last_call().ret == Some(*final(added)),
            final(self).last_call().args == old(self).last_call().args,
            final(self).keeps_memory(old(self)),
    {
        let i = self.prog.len() - 1;
        proof {
            lemma_last_replaced(self.prog.calls@);
        }
        self.prog.calls[i].ret = Some(arg);
        proof {
            lemma_last_replaced(self.prog.calls@);
        }
        self.prog.calls[i].ret.as_mut().unwrap()
    }

    /// Gives the last argument of the last call the value `val`.
    pub fn update_val(&mut self, val: Value)
        requires
            old(self).prog.calls@.len() > 0,
            old(self).last_call().args@.len() > 0,
        ensures
            final(self).keeps_earlier_calls(old(self)),
            final(self).last_call().fid == old(self).last_call().fid,
            final(self).last_call().ret == old(self).last_call().ret,
            final(self).last_call().args@.len() == old(self).last_call().args@.len(),
            final(self).last_call().args@.drop_last() == old(self).last_call().args@.drop_last(),
            final(self).last_call().args@.last().tid == old(self).last_call().args@.last().tid,
            final(self).last_call().args@.last().val == val,
            final(self).keeps_memory(old(self)),
    {
        let i = self.prog.len() - 1;
        let arg_index = self.prog.calls[i].args.len() - 1;
        self.prog.calls[i].args[arg_index].val = val;
        assert(final(self).prog.calls@.drop_last() =~= old(self).prog.calls@.drop_last());
        assert(final(self).last_call().args@.drop_last() =~= old(self).last_call().args@.drop_last());
    }
}

} // verus!
