//! The schema a program is generated for, and what makes it usable.

use crate::types::{slice_bounds_ok, FnInfo, Group, GroupId, TypeId, TypeInfo};
use std::collections::HashMap;
use vstd::prelude::*;

verus! {

pub struct Target {
    pub types: HashMap<TypeId, TypeInfo>,
    pub groups: HashMap<GroupId, Group>,
}

/// A way to walk from a type to the types it is built from. Building a
/// value walks from a struct, a union or a slice to its members, and looking
/// at a value walks through a pointer to what it points to; both walk
/// through an alias and through a resource to the type behind it.
#[derive(Debug, Clone, Copy, PartialEq, Eq, Structural)]
pub enum Walk {
    Build,
    See,
}

impl Target {
    /// `tid` is a type of the schema, and where `walk` leads to it from the
    /// type `top`, it ranks below `top`.
    pub open spec fn below(
        &self,
        rank: Map<TypeId, nat>,
        walk: Walk,
        leads: Walk,
        tid: TypeId,
        top: TypeId,
    ) -> bool {
        self.types@.contains_key(tid) && (walk == leads ==> rank[tid] < rank[top])
    }

    /// `tid` is a type of the schema and ranks below `top`.
    pub open spec fn under(&self, rank: Map<TypeId, nat>, tid: TypeId, top: TypeId) -> bool {
        self.types@.contains_key(tid) && rank[tid] < rank[top]
    }

    /// What generation needs of the type `me`: its parts exist, the parts
    /// that `walk` leads to rank below it, a pointer has one level, and
    /// nothing it is picked from is empty.
    pub open spec fn type_ok(&self, walk: Walk, rank: Map<TypeId, nat>, me: TypeId) -> bool {
        match self.types@[me] {
            TypeInfo::Num(info) => info.wf(),
            TypeInfo::Ptr { dir, tid, depth } => depth == 1 && self.below(
                rank,
                walk,
                Walk::See,
                tid,
                me,
            ),
            TypeInfo::Slice { tid, l, h } => slice_bounds_ok(l as int, h as int) && self.below(
                rank,
                walk,
                Walk::Build,
                tid,
                me,
            ),
            TypeInfo::Str { .. } => true,
            TypeInfo::Struct { fields, .. } => forall|i: int|
                0 <= i < fields@.len() ==> self.below(
                    rank,
                    walk,
                    Walk::Build,
                    #[trigger] fields@[i].tid,
                    me,
                ),
            TypeInfo::Union { fields, .. } => fields@.len() > 0 && forall|i: int|
                0 <= i < fields@.len() ==> self.below(
                    rank,
                    walk,
                    Walk::Build,
                    #[trigger] fields@[i].tid,
                    me,
                ),
            TypeInfo::Flag { flags, .. } => flags@.len() > 0,
            TypeInfo::Alias { tid, .. } => self.under(rank, tid, me),
            TypeInfo::Res { tid } => self.under(rank, tid, me),
            TypeInfo::Len { .. } => true,
        }
    }

    /// `rank` orders the types so that each ranks above the parts that
    /// `walk` leads to.
    pub open spec fn ranked(&self, walk: Walk, rank: Map<TypeId, nat>) -> bool {
        forall|tid: TypeId|
            self.types@.contains_key(tid) ==> #[trigger] self.type_ok(walk, rank, tid)
    }

    /// The types that `f` names are types of the schema.
    pub open spec fn fn_ok(&self, f: FnInfo) -> bool {
        &&& forall|i: int|
            0 <= i < f.params@.len() ==> self.types@.contains_key(#[trigger] f.params@[i].tid)
        &&& f.r_tid matches Some(r) ==> self.types@.contains_key(r)
    }

    /// The schema can be generated from. Generation walks from a type to the
    /// types it is built from, so these must exist; and neither walk may
    /// come back to where it set out, so a type is built from itself only
    /// through a pointer, and no pointer points to itself through aliases
    /// and resources.
    pub open spec fn wf(&self) -> bool {
        &&& exists|rank: Map<TypeId, nat>| self.ranked(Walk::Build, rank)
        &&& exists|rank: Map<TypeId, nat>| self.ranked(Walk::See, rank)
        &&& forall|gid: GroupId, i: int|
            self.groups@.contains_key(gid) && 0 <= i < self.groups@[gid].fns@.len()
                ==> self.fn_ok(#[trigger] self.groups@[gid].fns@[i])
    }

    /// One ranking of the types for `walk`, where there is any.
    pub open spec fn rank(&self, walk: Walk) -> Map<TypeId, nat> {
        choose|rank: Map<TypeId, nat>| self.ranked(walk, rank)
    }

    pub open spec fn rank_of(&self, walk: Walk, tid: TypeId) -> nat {
        self.rank(walk)[tid]
    }

    pub proof fn lemma_type_ok(&self, tid: TypeId)
        requires
            self.wf(),
            self.types@.contains_key(tid),
        ensures
            self.type_ok(Walk::Build, self.rank(Walk::Build), tid),
            self.type_ok(Walk::See, self.rank(Walk::See), tid),
    {
    }

    /// Whether `tid` names a resource: a resource type, or an alias of one.
    pub open spec fn res_type(&self, tid: TypeId) -> bool
        decreases self.rank_of(Walk::Build, tid),
    {
        if self.wf() && self.types@.contains_key(tid) {
            match self.types@[tid] {
                TypeInfo::Res { .. } => true,
                TypeInfo::Alias { tid: under, .. } => {
                    proof {
                        self.lemma_type_ok(tid);
                    }
                    self.res_type(under)
                },
                _ => false,
            }
        } else {
            false
        }
    }

    pub fn type_of(&self, tid: TypeId) -> (info: &TypeInfo)
        requires
            self.types@.contains_key(tid),
        ensures
            *info == self.types@[tid],
    {
        let found = self.types.get(&tid);
        found.unwrap()
    }

    pub fn is_res(&self, tid: TypeId) -> (b: bool)
        requires
            self.wf(),
            self.types@.contains_key(tid),
        ensures
            b == self.res_type(tid),
        decreases self.rank_of(Walk::Build, tid),
    {
        proof {
            self.lemma_type_ok(tid);
        }
        match self.type_of(tid) {
            TypeInfo::Res { .. } => true,
            TypeInfo::Alias { tid: under, .. } => self.is_res(*under),
            _ => false,
        }
    }

    pub fn group_name_of(&self, gid: GroupId) -> (name: &str)
        requires
            self.groups@.contains_key(gid),
        ensures
            name@ == self.groups@[gid].ident@,
    {
        let found = self.groups.get(&gid);
        found.unwrap().ident.as_str()
    }
}

} // verus!
