//! Generation: one program, call by call and value by value, for a schema
//! and the relation tables of its groups.

use crate::analyze::RTable;
use crate::config::Config;
use crate::flag::gen_flag;
use crate::num::gen_num;
use crate::plan::{choose_seq, plan_cap};
use crate::prog::{Arg, Call, Prog};
use crate::rng::{pick_key, random_ratio, uniform};
use crate::state::State;
use crate::target::{Target, Walk};
use crate::text::{gen_str, lemma_pools_kept, pools_ok};
use crate::types::{slice_bounds_ok, Field, FnInfo, GroupId, PtrDir, StrType, TypeId, TypeInfo};
use crate::typing::{
    call_ok, follows, has_out_ptr, is_pointee, made_by, prog_ok, ref_ok, slice_len_ok, value_ok,
};
use crate::valid::keys_of;
use crate::value::{ArgIndex, ArgPos, NumValue, Value};
use std::collections::HashMap;
use std::hash::BuildHasher;
use vstd::prelude::*;
use vstd::std_specs::hash::builds_valid_hashers;

verus! {

/// Every slot that `s` remembers may stand for its resource in argument
/// `pos` of the call that follows `done`.
pub open spec fn handles_ok(t: &Target, s: &State, done: Seq<Call>, pos: int) -> bool {
    forall|tid: TypeId, i: int|
        0 <= i < s.handles(tid).len() ==> ref_ok(t, done, pos, tid, #[trigger] s.handles(tid)[i])
}

/// `s` is in the middle of a call: the call has an argument under
/// construction, and what `s` remembers fits the program.
pub open spec fn building(t: &Target, s: &State) -> bool {
    &&& s.conf.wf()
    &&& s.prog.calls@.len() > 0
    &&& s.last_call().args@.len() > 0
    &&& handles_ok(t, s, s.done(), s.pos())
    &&& pools_ok(s)
}

/// What fits at one argument of a call fits at every later one, as long as
/// the state remembers the same slots.
proof fn lemma_handles_kept(
    t: &Target,
    before: &State,
    after: &State,
    done: Seq<Call>,
    pos: int,
    later: int,
)
    requires
        handles_ok(t, before, done, pos),
        after.res == before.res,
        pos <= later,
    ensures
        handles_ok(t, after, done, later),
        forall|tid: TypeId| after.handles(tid) == before.handles(tid),
{
    assert forall|tid: TypeId, i: int| 0 <= i < after.handles(tid).len() implies ref_ok(
        t,
        done,
        later,
        tid,
        #[trigger] after.handles(tid)[i],
    ) by {
        assert(ref_ok(t, done, pos, tid, before.handles(tid)[i]));
    }
}

/// A state that differs from `before` only in how deep it may go remembers
/// the same, and is in the middle of the same call.
proof fn lemma_depth_changed(t: &Target, before: &State, after: &State)
    requires
        building(t, before),
        after.prog == before.prog,
        after.conf == before.conf,
        after.res == before.res,
        after.strs == before.strs,
        after.cstrs == before.cstrs,
        after.filenames == before.filenames,
    ensures
        building(t, after),
        after.remembers(before),
{
    lemma_pools_kept(before, after);
    lemma_handles_kept(t, before, after, before.done(), before.pos(), before.pos());
    assert forall|tid: TypeId| #[trigger] before.handles(tid).is_prefix_of(after.handles(tid)) by {
        assert(after.handles(tid) == before.handles(tid));
    }
    assert forall|kind: StrType| #[trigger] before.pool(kind).is_prefix_of(after.pool(kind)) by {
        assert(after.pool(kind) == before.pool(kind));
    }
}

/// A state that has only gained strings since `before` has grown from it,
/// and is in the middle of the same call.
proof fn lemma_strings_gained(t: &Target, before: &State, after: &State)
    requires
        building(t, before),
        after.prog == before.prog,
        after.conf == before.conf,
        after.depth_left == before.depth_left,
        after.res == before.res,
        pools_ok(after),
        forall|kind: StrType| #[trigger]
            after.pool(kind) == before.pool(kind) || exists|text: Seq<char>|
                after.pool(kind) == before.pool(kind).push(text),
    ensures
        after.grows_from(before),
        building(t, after),
{
    lemma_handles_kept(t, before, after, before.done(), before.pos(), before.pos());
    assert forall|tid: TypeId| #[trigger] before.handles(tid).is_prefix_of(after.handles(tid)) by {
        assert(after.handles(tid) == before.handles(tid));
    }
}

/// Recording the argument under construction as a producer keeps what the
/// state remembers in line with the program.
proof fn lemma_slot_recorded(t: &Target, before: &State, after: &State, tid: TypeId)
    requires
        building(t, before),
        has_out_ptr(t, tid),
        after.prog == before.prog,
        after.conf == before.conf,
        after.depth_left == before.depth_left,
        after.strs == before.strs,
        after.cstrs == before.cstrs,
        after.filenames == before.filenames,
        after.handles(tid) == before.handles(tid).push(current_slot(before)),
        forall|other: TypeId| other != tid ==> after.handles(other) == before.handles(other),
    ensures
        after.grows_from(before),
        building(t, after),
{
    lemma_pools_kept(before, after);
    assert forall|other: TypeId| #[trigger]
        before.handles(other).is_prefix_of(after.handles(other)) by {
        if other != tid {
            assert(after.handles(other) == before.handles(other));
        }
    }
    assert forall|kind: StrType| #[trigger] before.pool(kind).is_prefix_of(after.pool(kind)) by {
        assert(after.pool(kind) == before.pool(kind));
    }
    assert(before.prog.calls.len() == before.prog.calls@.len());
    assert(before.last_call().args.len() == before.last_call().args@.len());
    assert forall|other: TypeId, i: int| 0 <= i < after.handles(other).len() implies ref_ok(
        t,
        after.done(),
        after.pos(),
        other,
        #[trigger] after.handles(other)[i],
    ) by {
        if other == tid && i == before.handles(tid).len() {
            assert(after.handles(other)[i] == current_slot(before));
        } else {
            assert(after.handles(other)[i] == before.handles(other)[i]);
            assert(ref_ok(t, before.done(), before.pos(), other, before.handles(other)[i]));
        }
    }
}

/// The slot of the argument under construction.
pub open spec fn current_slot(s: &State) -> ArgIndex {
    ArgIndex { call: (s.prog.calls@.len() - 1) as usize, pos: ArgPos::Arg(s.pos() as usize) }
}

/// Draws a value of the type `tid`.
pub fn gen_value(tid: TypeId, t: &Target, s: &mut State) -> (v: Value)
    requires
        t.wf(),
        t.types@.contains_key(tid),
        building(t, old(s)),
    ensures
        value_ok(t, old(s).conf, old(s).done(), old(s).pos(), tid, v),
        final(s).grows_from(old(s)),
        building(t, final(s)),
    decreases old(s).depth_left, t.rank_of(Walk::Build, tid), 1nat,
{
    proof {
        t.lemma_type_ok(tid);
    }
    match t.type_of(tid) {
        TypeInfo::Num(num_info) => gen_num(num_info),
        TypeInfo::Ptr { dir, tid: inner, depth } => {
            assert(is_pointee(t, *dir, *inner)) by {
                assert(t.types@.contains_key(tid));
            }
            gen_ptr(*dir, *inner, t, s)
        },
        TypeInfo::Slice { tid: inner, l, h } => gen_slice(*inner, *l, *h, t, s),
        TypeInfo::Str { str_type, vals } => {
            let v = gen_str(str_type, vals, s);
            proof {
                lemma_strings_gained(t, old(s), s);
            }
            v
        },
        TypeInfo::Struct { fields, .. } => gen_struct(tid, fields.as_slice(), t, s),
        TypeInfo::Union { fields, .. } => gen_union(tid, fields.as_slice(), t, s),
        TypeInfo::Flag { flags, .. } => gen_flag(flags.as_slice()),
        TypeInfo::Alias { tid: under_id, .. } => gen_alias(tid, *under_id, t, s),
        TypeInfo::Res { tid: under_tid } => gen_res(tid, *under_tid, t, s),
        TypeInfo::Len { .. } => Value::Num(NumValue::Unsigned(0)),
    }
}

/// Draws a value for the alias `tid` of `under_id`: as for a resource where
/// it names one, else as for the type it stands for.
pub fn gen_alias(tid: TypeId, under_id: TypeId, t: &Target, s: &mut State) -> (v: Value)
    requires
        t.wf(),
        t.types@.contains_key(tid),
        t.types@[tid] matches TypeInfo::Alias { tid: under, .. } && under == under_id,
        building(t, old(s)),
    ensures
        value_ok(t, old(s).conf, old(s).done(), old(s).pos(), tid, v),
        final(s).grows_from(old(s)),
        building(t, final(s)),
    decreases old(s).depth_left, t.rank_of(Walk::Build, tid), 0nat,
{
    proof {
        t.lemma_type_ok(tid);
    }
    if t.is_res(tid) {
        gen_res(tid, under_id, t, s)
    } else {
        gen_value(under_id, t, s)
    }
}

/// Draws a value for the resource `res_tid`: a reference to a slot that
/// produced one, where `s` remembers any, else a fresh value of the type
/// `tid` that the resource is made of.
pub fn gen_res(res_tid: TypeId, tid: TypeId, t: &Target, s: &mut State) -> (v: Value)
    requires
        t.wf(),
        t.types@.contains_key(tid),
        building(t, old(s)),
    ensures
        (v matches Value::Ref(idx) && old(s).handles(res_tid).contains(idx) && ref_ok(
            t,
            old(s).done(),
            old(s).pos(),
            res_tid,
            idx,
        )) || (old(s).handles(res_tid).len() == 0 && value_ok(
            t,
            old(s).conf,
            old(s).done(),
            old(s).pos(),
            tid,
            v,
        )),
        final(s).grows_from(old(s)),
        building(t, final(s)),
    decreases old(s).depth_left, t.rank_of(Walk::Build, tid), 2nat,
{
    if let Some(res) = s.try_reuse_res(res_tid) {
        res
    } else {
        gen_value(tid, t, s)
    }
}

/// Draws a value for a pointer to the type `tid`. An output pointer gets
/// the placeholder of its pointee, and where the pointee is a resource the
/// slot is remembered as one that produces it. An input pointer gets a
/// value of its pointee nine times in ten, else the null pointer; it gets
/// the null pointer too where the value has gone through `PTR_DEPTH_MAX`
/// pointers already.
pub fn gen_ptr(dir: PtrDir, tid: TypeId, t: &Target, s: &mut State) -> (v: Value)
    requires
        t.wf(),
        t.types@.contains_key(tid),
        is_pointee(t, dir, tid),
        building(t, old(s)),
    ensures
        dir == PtrDir::In ==> (v == Value::Null || value_ok(
            t,
            old(s).conf,
            old(s).done(),
            old(s).pos(),
            tid,
            v,
        )),
        dir != PtrDir::In ==> v == Value::Default(tid),
        dir != PtrDir::In && t.res_type(tid) ==> final(s).handles(tid) == old(s).handles(tid).push(
            current_slot(old(s)),
        ),
        final(s).grows_from(old(s)),
        building(t, final(s)),
    decreases old(s).depth_left, 0nat, 0nat,
{
    let is_in = match dir {
        PtrDir::In => true,
        _ => false,
    };
    if !is_in {
        if t.is_res(tid) {
            s.record_res(tid, false);
            proof {
                let p = choose|p: TypeId| #[trigger]
                    t.types@.contains_key(p) && (t.types@[p] matches TypeInfo::Ptr {
                        dir: d,
                        tid: inner,
                        ..
                    } && d == dir && inner == tid);
                assert(t.types@.contains_key(p));
                lemma_slot_recorded(t, old(s), s, tid);
            }
        }
        return Value::default_val(tid);
    }
    if s.depth_left > 0 && random_ratio(9, 10) {
        s.depth_left = s.depth_left - 1;
        let ghost deeper = *s;
        proof {
            lemma_depth_changed(t, old(s), s);
        }
        let v = gen_value(tid, t, s);
        let ghost built = *s;
        s.depth_left = s.depth_left + 1;
        proof {
            lemma_depth_changed(t, &built, s);
            built.lemma_remembers_trans(&deeper, old(s));
            s.lemma_remembers_trans(&built, old(s));
        }
        v
    } else {
        Value::Null
    }
}

/// Draws a value for a union type: one of its fields, each as likely, and a
/// value of that field's type.
pub fn gen_union(tid: TypeId, fields: &[Field], t: &Target, s: &mut State) -> (v: Value)
    requires
        t.wf(),
        t.types@.contains_key(tid),
        t.types@[tid] matches TypeInfo::Union { fields: list, .. } && list@ == fields@,
        building(t, old(s)),
    ensures
        value_ok(t, old(s).conf, old(s).done(), old(s).pos(), tid, v),
        final(s).grows_from(old(s)),
        building(t, final(s)),
    decreases old(s).depth_left, t.rank_of(Walk::Build, tid), 0nat,
{
    proof {
        t.lemma_type_ok(tid);
    }
    let i = uniform(0, fields.len() as i128) as usize;
    let field = &fields[i];
    Value::Opt { choice: i, val: Box::new(gen_value(field.tid, t, s)) }
}

/// Draws a value for a struct type: a value for each field, in order.
pub fn gen_struct(tid: TypeId, fields: &[Field], t: &Target, s: &mut State) -> (v: Value)
    requires
        t.wf(),
        t.types@.contains_key(tid),
        t.types@[tid] matches TypeInfo::Struct { fields: list, .. } && list@ == fields@,
        building(t, old(s)),
    ensures
        value_ok(t, old(s).conf, old(s).done(), old(s).pos(), tid, v),
        final(s).grows_from(old(s)),
        building(t, final(s)),
    decreases old(s).depth_left, t.rank_of(Walk::Build, tid), 0nat,
{
    proof {
        t.lemma_type_ok(tid);
    }
    let mut vals: Vec<Value> = Vec::new();
    let mut i: usize = 0;
    while i < fields.len()
        invariant
            t.wf(),
            t.types@.contains_key(tid),
            t.type_ok(Walk::Build, t.rank(Walk::Build), tid),
            t.types@[tid] matches TypeInfo::Struct { fields: list, .. } && list@ == fields@,
            0 <= i <= fields@.len(),
            vals@.len() == i,
            forall|k: int|
                0 <= k < i ==> value_ok(
                    t,
                    old(s).conf,
                    old(s).done(),
                    old(s).pos(),
                    fields@[k].tid,
                    #[trigger] vals@[k],
                ),
            s.grows_from(old(s)),
            building(t, s),
        decreases fields@.len() - i,
    {
        let ghost before = *s;
        let val = gen_value(fields[i].tid, t, s);
        proof {
            s.lemma_grows_trans(&before, old(s));
        }
        vals.push(val);
        i += 1;
    }
    Value::Group(vals)
}

/// Draws how many items a slice with the bounds `l` and `h` gets, where
/// `-1` leaves a side open: under 8 with both sides open, under `l` with
/// only the upper side open, else out of `l..h`.
pub fn gen_slice_len(l: isize, h: isize) -> (len: usize)
    requires
        slice_bounds_ok(l as int, h as int),
    ensures
        slice_len_ok(l as int, h as int, len as int),
{
    if l == -1 && h == -1 {
        uniform(0, 8) as usize
    } else if h == -1 {
        uniform(0, l as i128) as usize
    } else {
        uniform(l as i128, h as i128) as usize
    }
}

/// Draws a value for a slice of the type `tid`: a length within the bounds,
/// and as many values.
pub fn gen_slice(tid: TypeId, l: isize, h: isize, t: &Target, s: &mut State) -> (v: Value)
    requires
        t.wf(),
        t.types@.contains_key(tid),
        slice_bounds_ok(l as int, h as int),
        building(t, old(s)),
    ensures
        v matches Value::Group(vals) && slice_len_ok(l as int, h as int, vals@.len() as int)
            && forall|i: int|
            0 <= i < vals@.len() ==> value_ok(
                t,
                old(s).conf,
                old(s).done(),
                old(s).pos(),
                tid,
                #[trigger] vals@[i],
            ),
        final(s).grows_from(old(s)),
        building(t, final(s)),
    decreases old(s).depth_left, t.rank_of(Walk::Build, tid), 2nat,
{
    let len: usize = gen_slice_len(l, h);
    let mut vals: Vec<Value> = Vec::new();
    let mut i: usize = 0;
    while i < len
        invariant
            t.wf(),
            t.types@.contains_key(tid),
            0 <= i <= len,
            vals@.len() == i,
            forall|k: int|
                0 <= k < i ==> value_ok(
                    t,
                    old(s).conf,
                    old(s).done(),
                    old(s).pos(),
                    tid,
                    #[trigger] vals@[k],
                ),
            s.grows_from(old(s)),
            building(t, s),
        decreases len - i,
    {
        let ghost before = *s;
        let val = gen_value(tid, t, s);
        proof {
            s.lemma_grows_trans(&before, old(s));
        }
        vals.push(val);
        i += 1;
    }
    Value::Group(vals)
}

/// `s` stands between two calls: what it remembers fits the program.
pub open spec fn settled(t: &Target, s: &State) -> bool {
    &&& s.conf.wf()
    &&& handles_ok(t, s, s.prog.calls@, -1)
    &&& pools_ok(s)
}

/// Once a call is complete, what the state remembers fits the program with
/// the call in it.
proof fn lemma_call_settles(t: &Target, s: &State, done: Seq<Call>)
    requires
        handles_ok(t, s, done, s.last_call().args@.len() - 1),
        s.prog.calls@.len() == done.len() + 1,
        s.done() == done,
        s.last_call().ret is None,
    ensures
        handles_ok(t, s, s.prog.calls@, -1),
{
    let call = s.last_call();
    assert(s.prog.calls@ =~= done.push(call));
    assert forall|tid: TypeId, k: int| 0 <= k < s.handles(tid).len() implies ref_ok(
        t,
        s.prog.calls@,
        -1,
        tid,
        #[trigger] s.handles(tid)[k],
    ) by {
        let idx = s.handles(tid)[k];
        assert(ref_ok(t, done, call.args@.len() - 1, tid, idx));
        if idx.call < done.len() {
            assert(done.push(call)[idx.call as int] == done[idx.call as int]);
        }
    }
}

/// Giving a complete call its return slot and recording the slot keeps what
/// the state remembers in line with the program.
proof fn lemma_ret_recorded(t: &Target, before: &State, after: &State, tid: TypeId)
    requires
        settled(t, before),
        before.prog.calls@.len() > 0,
        before.last_call().ret is None,
        after.keeps_earlier_calls(before),
        after.last_call().args == before.last_call().args,
        after.last_call().ret == Some(Arg { tid, val: Value::Null }),
        after.conf == before.conf,
        after.strs == before.strs,
        after.cstrs == before.cstrs,
        after.filenames == before.filenames,
        after.handles(tid) == before.handles(tid).push(
            ArgIndex { call: (before.prog.calls@.len() - 1) as usize, pos: ArgPos::Ret },
        ),
        forall|other: TypeId| other != tid ==> after.handles(other) == before.handles(other),
    ensures
        settled(t, after),
        after.remembers(before),
{
    lemma_pools_kept(before, after);
    assert(before.prog.calls.len() == before.prog.calls@.len());
    assert(after.prog.calls@ =~= before.done().push(after.last_call()));
    assert(before.prog.calls@ =~= before.done().push(before.last_call()));
    assert forall|other: TypeId| #[trigger]
        before.handles(other).is_prefix_of(after.handles(other)) by {
        if other != tid {
            assert(after.handles(other) == before.handles(other));
        }
    }
    assert forall|kind: StrType| #[trigger] before.pool(kind).is_prefix_of(after.pool(kind)) by {
        assert(after.pool(kind) == before.pool(kind));
    }
    assert forall|other: TypeId, k: int| 0 <= k < after.handles(other).len() implies ref_ok(
        t,
        after.prog.calls@,
        -1,
        other,
        #[trigger] after.handles(other)[k],
    ) by {
        if other == tid && k == before.handles(tid).len() {
        } else {
            let idx = before.handles(other)[k];
            assert(after.handles(other)[k] == idx);
            assert(ref_ok(t, before.prog.calls@, -1, other, idx));
            if idx.call < before.done().len() {
                assert(after.prog.calls@[idx.call as int] == before.prog.calls@[idx.call as int]);
            } else {
                assert(idx.pos is Arg);
            }
        }
    }
}

/// Appends a call of `f` to the program of `s`: a value for each parameter
/// in order, and a return slot, remembered as a producer, where `f` returns
/// a resource.
pub fn gen_call(t: &Target, f: &FnInfo, s: &mut State)
    requires
        t.wf(),
        t.fn_ok(*f),
        settled(t, old(s)),
    ensures
        final(s).prog.gid == old(s).prog.gid,
        final(s).prog.calls@.len() == old(s).prog.calls@.len() + 1,
        final(s).prog.calls@.drop_last() == old(s).prog.calls@,
        call_ok(t, old(s).conf, old(s).prog.calls@, *f, final(s).last_call()),
        final(s).remembers(old(s)),
        settled(t, final(s)),
        match made_by(t, *f) {
            Some(r) => final(s).handles(r).len() > 0 && final(s).handles(r).last() == (ArgIndex {
                call: old(s).prog.calls@.len() as usize,
                pos: ArgPos::Ret,
            }),
            None => true,
        },
{
    let ghost done = s.prog.calls@;
    let ghost conf = s.conf;
    s.add_call(Call::new(f.id));
    proof {
        s.lemma_keeps_remembers(old(s));
        lemma_pools_kept(old(s), s);
        lemma_handles_kept(t, old(s), s, done, -1, -1);
        assert(s.prog.calls@.drop_last() =~= done);
    }
    let mut i: usize = 0;
    while i < f.params.len()
        invariant
            t.wf(),
            t.fn_ok(*f),
            0 <= i <= f.params@.len(),
            s.conf == conf,
            conf.wf(),
            s.prog.gid == old(s).prog.gid,
            s.prog.calls@.len() == done.len() + 1,
            s.done() == done,
            s.last_call().fid == f.id,
            s.last_call().ret is None,
            s.last_call().args@.len() == i,
            forall|k: int|
                0 <= k < i ==> (#[trigger] s.last_call().args@[k]).tid == f.params@[k].tid
                    && value_ok(t, conf, done, k, f.params@[k].tid, s.last_call().args@[k].val),
            handles_ok(t, s, done, i - 1),
            pools_ok(s),
            s.remembers(old(s)),
        decreases f.params@.len() - i,
    {
        let p = &f.params[i];
        let ghost before_arg = *s;
        s.add_arg(Arg::new(p.tid));
        let ghost with_arg = *s;
        proof {
            s.lemma_keeps_remembers(&before_arg);
            lemma_pools_kept(&before_arg, s);
            lemma_handles_kept(t, &before_arg, s, done, i - 1, i as int);
        }
        let val = gen_value(p.tid, t, s);
        let ghost with_value = *s;
        s.update_val(val);
        proof {
            s.lemma_keeps_remembers(&with_value);
            lemma_pools_kept(&with_value, s);
            lemma_handles_kept(t, &with_value, s, done, i as int, i as int);
            with_value.lemma_remembers_trans(&with_arg, &before_arg);
            with_value.lemma_remembers_trans(&before_arg, old(s));
            s.lemma_remembers_trans(&with_value, old(s));
            let args = s.last_call().args@;
            assert forall|k: int| 0 <= k < i + 1 implies (#[trigger] args[k]).tid == f.params@[k].tid
                && value_ok(t, conf, done, k, f.params@[k].tid, args[k].val) by {
                if k < i {
                    assert(args[k] == args.drop_last()[k]);
                    assert(with_value.last_call().args@.drop_last()[k]
                        == with_value.last_call().args@[k]);
                    assert(with_arg.last_call().args@[k] == before_arg.last_call().args@[k]);
                } else {
                    assert(args[k] == args.last());
                }
            }
        }
        i += 1;
    }
    proof {
        lemma_call_settles(t, s, done);
    }
    if let Some(tid) = f.r_tid {
        if t.is_res(tid) {
            let ghost with_args = *s;
            s.add_ret(Arg::new(tid));
            s.record_res(tid, true);
            proof {
                lemma_ret_recorded(t, &with_args, s, tid);
                s.lemma_remembers_trans(&with_args, old(s));
            }
        }
    }
}

/// Generates the program of group `gid` that calls the functions that `seq`
/// names, in that order.
pub fn gen_prog(t: &Target, gid: GroupId, seq: &Vec<usize>, conf: &Config) -> (p: Prog)
    requires
        t.wf(),
        conf.wf(),
        t.groups@.contains_key(gid),
        forall|k: int| 0 <= k < seq@.len() ==> #[trigger] seq@[k] < t.groups@[gid].fns@.len(),
    ensures
        p.gid == gid,
        follows(t, conf, p, seq@),
{
    let found = t.groups.get(&gid);
    let g = found.unwrap();
    let mut s = State::new(Prog::new(gid), conf);
    let mut n: usize = 0;
    while n < seq.len()
        invariant
            t.wf(),
            t.groups@.contains_key(gid),
            *g == t.groups@[gid],
            forall|k: int| 0 <= k < seq@.len() ==> #[trigger] seq@[k] < g.fns@.len(),
            0 <= n <= seq@.len(),
            s.conf == conf,
            s.prog.gid == gid,
            s.prog.calls@.len() == n,
            settled(t, &s),
            forall|k: int|
                0 <= k < n ==> call_ok(
                    t,
                    conf,
                    s.prog.calls@.take(k),
                    g.fns@[seq@[k] as int],
                    #[trigger] s.prog.calls@[k],
                ),
        decreases seq@.len() - n,
    {
        let i = seq[n];
        let ghost before = s.prog.calls@;
        gen_call(t, &g.fns[i], &mut s);
        proof {
            assert(s.prog.calls@ =~= before.push(s.last_call()));
            assert forall|k: int| 0 <= k < n + 1 implies call_ok(
                t,
                conf,
                s.prog.calls@.take(k),
                g.fns@[seq@[k] as int],
                #[trigger] s.prog.calls@[k],
            ) by {
                if k < n {
                    assert(s.prog.calls@.take(k) =~= before.take(k));
                    assert(s.prog.calls@[k] == before[k]);
                } else {
                    assert(s.prog.calls@.take(k) =~= before);
                }
            }
        }
        n += 1;
    }
    s.prog
}

/// What `gen` needs of the tables `rs`: there is one for each group of `t`
/// and for nothing else, and the table of a group is square, with a row
/// for each of its functions, of which there is one at least.
pub open spec fn tables_ok(t: &Target, rs: Map<GroupId, RTable>) -> bool {
    &&& rs.dom() =~= t.groups@.dom()
    &&& exists|gid: GroupId| rs.contains_key(gid)
    &&& forall|gid: GroupId| #[trigger]
        rs.contains_key(gid) ==> {
            &&& rs[gid].is_square()
            &&& rs[gid]@.len() == t.groups@[gid].fns@.len()
            &&& 0 < rs[gid]@.len()
            &&& rs[gid]@.len() + 63 <= usize::MAX
        }
}

/// Generates one program: picks a group at random, plans the calls over
/// its relation table, and generates them in order.
pub fn gen<S: BuildHasher>(t: &Target, rs: &HashMap<GroupId, RTable, S>, conf: &Config) -> (p:
    Prog)
    requires
        builds_valid_hashers::<S>(),
        t.wf(),
        conf.wf(),
        tables_ok(t, rs@),
    ensures
        rs@.contains_key(p.gid),
        1 <= p.calls@.len() <= plan_cap(&rs@[p.gid], conf),
        prog_ok(t, conf, p),
{
    // pick a group
    let gid = pick_key(rs);
    assert(t.groups@.dom().contains(gid));

    // plan its calls
    let found = rs.get(&gid);
    let r = found.unwrap();
    let seq = choose_seq(r, conf);

    // fill them in
    gen_prog(t, gid, &seq, conf)
}

/// Whether `rs` holds the tables that `gen` needs for `t`.
pub fn tables_valid<S: BuildHasher>(t: &Target, rs: &HashMap<GroupId, RTable, S>) -> (b: bool)
    requires
        builds_valid_hashers::<S>(),
    ensures
        b == tables_ok(t, rs@),
{
    let gids = keys_of(rs);
    if gids.len() == 0 {
        assert forall|gid: GroupId| !rs@.contains_key(gid) by {
            assert(!gids@.to_set().contains(gid));
        }
        return false;
    }
    assert(gids@.to_set().contains(gids@[0]));
    let mut n: usize = 0;
    while n < gids.len()
        invariant
            builds_valid_hashers::<S>(),
            gids@.to_set() == rs@.dom(),
            0 <= n <= gids@.len(),
            forall|m: int|
                0 <= m < n ==> {
                    let gid = #[trigger] gids@[m];
                    &&& t.groups@.contains_key(gid)
                    &&& rs@[gid].is_square()
                    &&& rs@[gid]@.len() == t.groups@[gid].fns@.len()
                    &&& 0 < rs@[gid]@.len()
                    &&& rs@[gid]@.len() + 63 <= usize::MAX
                },
        decreases gids@.len() - n,
    {
        let gid = gids[n];
        assert(gids@.to_set().contains(gid));
        let found = rs.get(&gid);
        let table = found.unwrap();
        let fits = match t.groups.get(&gid) {
            Some(g) => {
                let side = table.rows();
                table.square() && side == g.fns.len() && 0 < side && side <= usize::MAX - 63
            },
            None => false,
        };
        if !fits {
            assert(rs@.contains_key(gid));
            assert(!t.groups@.dom().contains(gid) || !(rs@[gid].is_square() && rs@[gid]@.len()
                == t.groups@[gid].fns@.len() && 0 < rs@[gid]@.len() && rs@[gid]@.len() + 63
                <= usize::MAX));
            return false;
        }
        n += 1;
    }
    let all = keys_of(&t.groups);
    let mut n: usize = 0;
    while n < all.len()
        invariant
            builds_valid_hashers::<S>(),
            all@.to_set() == t.groups@.dom(),
            0 <= n <= all@.len(),
            forall|m: int| 0 <= m < n ==> rs@.contains_key(#[trigger] all@[m]),
        decreases all@.len() - n,
    {
        if !rs.contains_key(&all[n]) {
            assert(all@.to_set().contains(all@[n as int]));
            assert(!(rs@.dom() =~= t.groups@.dom()));
            return false;
        }
        n += 1;
    }
    proof {
        assert forall|gid: GroupId| rs@.dom().contains(gid) == t.groups@.dom().contains(gid) by {
            if rs@.dom().contains(gid) {
                assert(gids@.to_set().contains(gid));
                let m = choose|m: int| 0 <= m < gids@.len() && gids@[m] == gid;
                assert(t.groups@.contains_key(gids@[m]));
            }
            if t.groups@.dom().contains(gid) {
                assert(all@.to_set().contains(gid));
                let m = choose|m: int| 0 <= m < all@.len() && all@[m] == gid;
                assert(rs@.contains_key(all@[m]));
            }
        }
        assert(rs@.dom() =~= t.groups@.dom());
        assert forall|gid: GroupId| #[trigger] rs@.contains_key(gid) implies {
            &&& rs@[gid].is_square()
            &&& rs@[gid]@.len() == t.groups@[gid].fns@.len()
            &&& 0 < rs@[gid]@.len()
            &&& rs@[gid]@.len() + 63 <= usize::MAX
        } by {
            assert(gids@.to_set().contains(gid));
            let m = choose|m: int| 0 <= m < gids@.len() && gids@[m] == gid;
            assert(t.groups@.contains_key(gids@[m]));
        }
    }
    true
}

/// Generates one program where the schema, the tables and the knobs allow
/// it, and nothing where they do not.
pub fn try_gen(t: &Target, rs: &HashMap<GroupId, RTable>, conf: &Config) -> (out: Option<Prog>)
    ensures
        out is Some <==> t.wf() && conf.wf() && tables_ok(t, rs@),
        out matches Some(p) ==> {
            &&& rs@.contains_key(p.gid)
            &&& 1 <= p.calls@.len() <= plan_cap(&rs@[p.gid], conf)
            &&& prog_ok(t, conf, p)
        },
{
    if conf.str_min_len < conf.str_max_len && t.validate() && tables_valid(t, rs) {
        Some(gen(t, rs, conf))
    } else {
        None
    }
}

} // verus!
