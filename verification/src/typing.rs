//! What it means for a value, a call and a program to fit a schema.

use crate::config::Config;
use crate::flag::flag_ok;
use crate::num::num_ok;
use crate::prog::{Arg, Call, Prog};
use crate::state::texts;
use crate::target::{Target, Walk};
use crate::text::str_ok;
use crate::types::{FnInfo, NumLimit, PtrDir, TypeId, TypeInfo};
use crate::value::{ArgIndex, ArgPos, NumValue, Value};
use vstd::prelude::*;

verus! {

/// Some output pointer of `t` points to the type `res`.
pub open spec fn has_out_ptr(t: &Target, res: TypeId) -> bool {
    exists|p: TypeId| #[trigger]
        t.types@.contains_key(p) && (t.types@[p] matches TypeInfo::Ptr { dir, tid, .. } && dir
            != PtrDir::In && tid == res)
}

/// Some pointer of `t` of direction `dir` points to the type `tid`.
pub open spec fn is_pointee(t: &Target, dir: PtrDir, tid: TypeId) -> bool {
    exists|p: TypeId| #[trigger]
        t.types@.contains_key(p) && (t.types@[p] matches TypeInfo::Ptr { dir: d, tid: inner, .. }
            && d == dir && inner == tid)
}

/// `idx` may stand for the resource `res` in argument `pos` of the call
/// that follows the calls `done`. A return slot is that of an earlier call
/// and has the type `res`. An argument slot is one of an earlier call, or
/// one of the call itself up to `pos`; there is none unless some output
/// pointer of the schema points to `res`.
pub open spec fn ref_ok(t: &Target, done: Seq<Call>, pos: int, res: TypeId, idx: ArgIndex) -> bool {
    match idx.pos {
        ArgPos::Ret => idx.call < done.len() && (done[idx.call as int].ret matches Some(arg)
            && arg.tid == res),
        ArgPos::Arg(j) => has_out_ptr(t, res) && if idx.call < done.len() {
            j < done[idx.call as int].args@.len()
        } else {
            idx.call == done.len() && j <= pos
        },
    }
}

/// A slice with the bounds `l` and `h` may have `n` items.
pub open spec fn slice_len_ok(l: int, h: int, n: int) -> bool {
    if l == -1 && h == -1 {
        0 <= n < 8
    } else if h == -1 {
        0 <= n < l
    } else {
        l <= n < h
    }
}

/// `v` is a value of the type `tid` of `t`, in argument `pos` of the call
/// that follows the calls `done`.
pub open spec fn value_ok(
    t: &Target,
    conf: &Config,
    done: Seq<Call>,
    pos: int,
    tid: TypeId,
    v: Value,
) -> bool
    decreases v, t.rank_of(Walk::See, tid),
{
    if t.wf() && t.types@.contains_key(tid) {
        proof {
            t.lemma_type_ok(tid);
        }
        match t.types@[tid] {
            TypeInfo::Num(info) => v matches Value::Num(n) && num_ok(info, n),
            TypeInfo::Ptr { dir, tid: inner, .. } => if dir == PtrDir::In {
                v == Value::Null || value_ok(t, conf, done, pos, inner, v)
            } else {
                v == Value::Default(inner)
            },
            TypeInfo::Slice { tid: inner, l, h } => v matches Value::Group(vals) && slice_len_ok(
                l as int,
                h as int,
                vals@.len() as int,
            ) && forall|i: int|
                0 <= i < vals@.len() ==> value_ok(t, conf, done, pos, inner, #[trigger] vals@[i]),
            TypeInfo::Str { str_type, vals } => v matches Value::Str(s) && str_ok(
                conf,
                str_type,
                vals,
                s@,
            ),
            TypeInfo::Struct { fields, .. } => v matches Value::Group(vals) && vals@.len()
                == fields@.len() && forall|i: int|
                0 <= i < fields@.len() ==> value_ok(
                    t,
                    conf,
                    done,
                    pos,
                    fields@[i].tid,
                    #[trigger] vals@[i],
                ),
            TypeInfo::Union { fields, .. } => v matches Value::Opt { choice, val } && choice
                < fields@.len() && value_ok(t, conf, done, pos, fields@[choice as int].tid, *val),
            TypeInfo::Flag { flags, .. } => v matches Value::Num(NumValue::Signed(n)) && flag_ok(
                flags@,
                n,
            ),
            TypeInfo::Alias { tid: under, .. } => if t.res_type(tid) {
                (v matches Value::Ref(idx) && ref_ok(t, done, pos, tid, idx)) || value_ok(
                    t,
                    conf,
                    done,
                    pos,
                    under,
                    v,
                )
            } else {
                value_ok(t, conf, done, pos, under, v)
            },
            TypeInfo::Res { tid: under } => (v matches Value::Ref(idx) && ref_ok(
                t,
                done,
                pos,
                tid,
                idx,
            )) || value_ok(t, conf, done, pos, under, v),
            TypeInfo::Len { .. } => v == Value::Num(NumValue::Unsigned(0)),
        }
    } else {
        false
    }
}

/// `idx` occurs in `v` as a reference.
pub open spec fn refers_to(v: Value, idx: ArgIndex) -> bool
    decreases v,
{
    match v {
        Value::Ref(i) => i == idx,
        Value::Group(vals) => exists|k: int|
            0 <= k < vals@.len() && refers_to(#[trigger] vals@[k], idx),
        Value::Opt { val, .. } => refers_to(*val, idx),
        _ => false,
    }
}

/// A slot that may stand for a resource lies in the call itself or before
/// it. A return slot lies before it and has the type of the resource. Where
/// no output pointer of the schema points to the resource, the slot is a
/// return slot.
pub proof fn lemma_ref_ok(t: &Target, done: Seq<Call>, pos: int, res: TypeId, idx: ArgIndex)
    requires
        ref_ok(t, done, pos, res, idx),
    ensures
        idx.call <= done.len(),
        idx.pos is Ret ==> idx.call < done.len() && (done[idx.call as int].ret matches Some(arg)
            && arg.tid == res),
        idx.pos matches ArgPos::Arg(j) ==> (idx.call < done.len() ==> j < done[idx.call as int].args@.len())
            && (idx.call == done.len() ==> j <= pos),
        !has_out_ptr(t, res) ==> idx.pos is Ret && idx.call < done.len(),
{
}

/// Every reference in a value of a type of the schema may stand for some
/// resource where the value stands: it names a slot of an earlier call, or
/// an argument up to its own of its own call.
pub proof fn lemma_refs_point_back(
    t: &Target,
    conf: &Config,
    done: Seq<Call>,
    pos: int,
    tid: TypeId,
    v: Value,
    idx: ArgIndex,
)
    requires
        value_ok(t, conf, done, pos, tid, v),
        refers_to(v, idx),
    ensures
        exists|res: TypeId| #[trigger] t.res_type(res) && ref_ok(t, done, pos, res, idx),
    decreases v, t.rank_of(Walk::See, tid),
{
    t.lemma_type_ok(tid);
    match t.types@[tid] {
        TypeInfo::Ptr { dir, tid: inner, .. } => {
            if dir == PtrDir::In && v != Value::Null {
                lemma_refs_point_back(t, conf, done, pos, inner, v, idx);
            }
        },
        TypeInfo::Slice { tid: inner, .. } => {
            let vals = v->Group_0;
            let k = choose|k: int| 0 <= k < vals@.len() && refers_to(#[trigger] vals@[k], idx);
            lemma_refs_point_back(t, conf, done, pos, inner, vals@[k], idx);
        },
        TypeInfo::Struct { fields, .. } => {
            let vals = v->Group_0;
            let k = choose|k: int| 0 <= k < vals@.len() && refers_to(#[trigger] vals@[k], idx);
            lemma_refs_point_back(t, conf, done, pos, fields@[k].tid, vals@[k], idx);
        },
        TypeInfo::Union { fields, .. } => {
            let choice = v->Opt_choice;
            lemma_refs_point_back(t, conf, done, pos, fields@[choice as int].tid, *v->Opt_val, idx);
        },
        TypeInfo::Alias { tid: under, .. } => {
            if t.res_type(tid) && (v matches Value::Ref(i) && ref_ok(t, done, pos, tid, i)) {
                assert(t.res_type(tid) && ref_ok(t, done, pos, tid, idx));
            } else {
                lemma_refs_point_back(t, conf, done, pos, under, v, idx);
            }
        },
        TypeInfo::Res { tid: under } => {
            if v matches Value::Ref(i) && ref_ok(t, done, pos, tid, i) {
                assert(t.res_type(tid) && ref_ok(t, done, pos, tid, idx));
            } else {
                lemma_refs_point_back(t, conf, done, pos, under, v, idx);
            }
        },
        _ => {},
    }
}

/// A value of a union type names one of the fields of the type.
pub proof fn lemma_union_choice(
    t: &Target,
    conf: &Config,
    done: Seq<Call>,
    pos: int,
    tid: TypeId,
    v: Value,
)
    requires
        value_ok(t, conf, done, pos, tid, v),
        t.types@[tid] is Union,
    ensures
        v matches Value::Opt { choice, .. } && choice < t.types@[tid]->Union_fields@.len(),
{
}

/// A value of a struct type has a value for each field of the type, and a
/// value of a slice type has a length within the bounds of the type.
pub proof fn lemma_group_len(
    t: &Target,
    conf: &Config,
    done: Seq<Call>,
    pos: int,
    tid: TypeId,
    v: Value,
)
    requires
        value_ok(t, conf, done, pos, tid, v),
    ensures
        t.types@[tid] matches TypeInfo::Struct { fields, .. } ==> (v matches Value::Group(vals)
            && vals@.len() == fields@.len()),
        t.types@[tid] matches TypeInfo::Slice { l, h, .. } ==> (v matches Value::Group(vals)
            && slice_len_ok(l as int, h as int, vals@.len() as int)),
{
}

/// A value of a number type is one of the listed values of the type, or
/// lies in its range.
pub proof fn lemma_num_limit(
    t: &Target,
    conf: &Config,
    done: Seq<Call>,
    pos: int,
    tid: TypeId,
    v: Value,
)
    requires
        value_ok(t, conf, done, pos, tid, v),
        t.types@[tid] is Num,
    ensures
        v matches Value::Num(n) && match t.types@[tid]->Num_0.limit {
            NumLimit::Any => true,
            NumLimit::Vals(vals) => vals@.contains(n.as_int() as i128),
            NumLimit::Range { lo, hi } => lo <= n.as_int() < hi,
        },
{
}

/// A value of a string type that lists values is one of them.
pub proof fn lemma_str_listed(
    t: &Target,
    conf: &Config,
    done: Seq<Call>,
    pos: int,
    tid: TypeId,
    v: Value,
)
    requires
        value_ok(t, conf, done, pos, tid, v),
    ensures
        t.types@[tid] matches TypeInfo::Str { vals: Some(list), .. } ==> list@.len() > 0 ==> (v matches Value::Str(
            s,
        ) && texts(list@).contains(s@)),
{
}

/// The resource that a call of `f` produces, where it returns one.
pub open spec fn made_by(t: &Target, f: FnInfo) -> Option<TypeId> {
    match f.r_tid {
        Some(r) => if t.res_type(r) {
            Some(r)
        } else {
            None
        },
        None => None,
    }
}

/// `c` is a call of `f` that may follow the calls `done`: it has a value of
/// the right type for each parameter, and a return slot exactly where `f`
/// returns a resource.
pub open spec fn call_ok(t: &Target, conf: &Config, done: Seq<Call>, f: FnInfo, c: Call) -> bool {
    &&& c.fid == f.id
    &&& c.args@.len() == f.params@.len()
    &&& forall|i: int|
        0 <= i < c.args@.len() ==> (#[trigger] c.args@[i]).tid == f.params@[i].tid && value_ok(
            t,
            conf,
            done,
            i,
            f.params@[i].tid,
            c.args@[i].val,
        )
    &&& match made_by(t, f) {
        Some(r) => c.ret == Some(Arg { tid: r, val: Value::Null }),
        None => c.ret is None,
    }
}

/// `p` carries out the plan `seq` over the functions of its group: call
/// `k` is a call of function `seq[k]` that may follow the calls before it.
pub open spec fn follows(t: &Target, conf: &Config, p: Prog, seq: Seq<usize>) -> bool {
    &&& t.groups@.contains_key(p.gid)
    &&& p.calls@.len() == seq.len()
    &&& forall|k: int|
        0 <= k < seq.len() ==> seq[k] < t.groups@[p.gid].fns@.len() && call_ok(
            t,
            conf,
            p.calls@.take(k),
            t.groups@[p.gid].fns@[seq[k] as int],
            #[trigger] p.calls@[k],
        )
}

/// `p` is a program for `t`: its calls are calls of functions of one group,
/// each of them well-typed after the calls before it.
pub open spec fn prog_ok(t: &Target, conf: &Config, p: Prog) -> bool {
    exists|seq: Seq<usize>| follows(t, conf, p, seq)
}

/// Every reference in a program points back: from argument `a` of call `k`
/// to a slot of an earlier call, or to an argument up to `a` of call `k`
/// itself. A return slot that is referred to belongs to an earlier call and
/// holds a resource; an argument slot that is referred to exists. Where no
/// output pointer of the schema points to a resource, every reference is to
/// the return slot of an earlier call.
pub proof fn lemma_prog_refs(
    t: &Target,
    conf: &Config,
    p: Prog,
    seq: Seq<usize>,
    k: int,
    a: int,
    idx: ArgIndex,
)
    requires
        follows(t, conf, p, seq),
        0 <= k < p.calls@.len(),
        0 <= a < p.calls@[k].args@.len(),
        refers_to(p.calls@[k].args@[a].val, idx),
    ensures
        idx.call <= k,
        idx.pos is Ret ==> idx.call < k && (p.calls@[idx.call as int].ret matches Some(arg)
            && t.res_type(arg.tid)),
        idx.pos matches ArgPos::Arg(j) ==> (idx.call < k ==> j < p.calls@[idx.call as int].args@.len())
            && (idx.call == k ==> j <= a),
        (forall|res: TypeId| t.res_type(res) ==> !has_out_ptr(t, res)) ==> idx.pos is Ret,
{
    let call = p.calls@[k];
    let f = t.groups@[p.gid].fns@[seq[k] as int];
    let done = p.calls@.take(k);
    assert(call_ok(t, conf, done, f, call));
    assert(call.args@[a].tid == f.params@[a].tid);
    lemma_refs_point_back(t, conf, done, a, f.params@[a].tid, call.args@[a].val, idx);
    let res = choose|res: TypeId| #[trigger] t.res_type(res) && ref_ok(t, done, a, res, idx);
    lemma_ref_ok(t, done, a, res, idx);
    if idx.call < k {
        assert(done[idx.call as int] == p.calls@[idx.call as int]);
    }
}

} // verus!
