//! Telling whether a schema can be generated from: whether its types are
//! closed, well-shaped and free of cycles.

use crate::target::{Target, Walk};
use crate::types::{slice_bounds_ok, Field, FnInfo, NumInfo, NumKind, NumLimit, TypeId, TypeInfo};
use std::collections::HashMap;
use std::hash::BuildHasher;
use vstd::prelude::*;
use vstd::std_specs::hash::builds_valid_hashers;
use vstd::std_specs::iter::IteratorSpec;

verus! {

/// The least and the greatest value of `kind`.
pub fn kind_bounds(kind: NumKind) -> (b: (i128, i128))
    ensures
        b.0 == kind.lowest(),
        b.1 == kind.highest(),
{
    match kind {
        NumKind::I8 => (i8::MIN as i128, i8::MAX as i128),
        NumKind::I16 => (i16::MIN as i128, i16::MAX as i128),
        NumKind::I32 => (i32::MIN as i128, i32::MAX as i128),
        NumKind::I64 => (i64::MIN as i128, i64::MAX as i128),
        NumKind::Isize => (isize::MIN as i128, isize::MAX as i128),
        NumKind::U8 => (0, u8::MAX as i128),
        NumKind::U16 => (0, u16::MAX as i128),
        NumKind::U32 => (0, u32::MAX as i128),
        NumKind::U64 => (0, u64::MAX as i128),
        NumKind::Usize => (0, usize::MAX as i128),
    }
}

/// Whether the limit of `info` is not empty and stays within its kind.
pub fn num_info_ok(info: &NumInfo) -> (b: bool)
    ensures
        b == info.wf(),
{
    let (lowest, highest) = kind_bounds(info.kind);
    match &info.limit {
        NumLimit::Any => true,
        NumLimit::Vals(vals) => {
            if vals.len() == 0 {
                return false;
            }
            let mut i: usize = 0;
            while i < vals.len()
                invariant
                    0 <= i <= vals@.len(),
                    info.limit == NumLimit::Vals(*vals),
                    lowest == info.kind.lowest(),
                    highest == info.kind.highest(),
                    forall|k: int| 0 <= k < i ==> info.kind.holds(#[trigger] vals@[k] as int),
                decreases vals@.len() - i,
            {
                if vals[i] < lowest || vals[i] > highest {
                    assert(!info.kind.holds(vals@[i as int] as int));
                    return false;
                }
                i += 1;
            }
            true
        },
        NumLimit::Range { lo, hi } => lowest <= *lo && *lo < *hi && *hi <= highest + 1,
    }
}

/// The type `info` is well-shaped in itself, the types it is built from are
/// all among `all`, and those that `walk` leads to are among `done`.
pub open spec fn parts_in(walk: Walk, info: TypeInfo, done: Set<TypeId>, all: Set<TypeId>) -> bool {
    match info {
        TypeInfo::Num(info) => info.wf(),
        TypeInfo::Ptr { dir, tid, depth } => depth == 1 && part_in(walk, Walk::See, tid, done, all),
        TypeInfo::Slice { tid, l, h } => slice_bounds_ok(l as int, h as int) && part_in(
            walk,
            Walk::Build,
            tid,
            done,
            all,
        ),
        TypeInfo::Str { .. } => true,
        TypeInfo::Struct { fields, .. } => forall|i: int|
            0 <= i < fields@.len() ==> part_in(
                walk,
                Walk::Build,
                #[trigger] fields@[i].tid,
                done,
                all,
            ),
        TypeInfo::Union { fields, .. } => fields@.len() > 0 && forall|i: int|
            0 <= i < fields@.len() ==> part_in(
                walk,
                Walk::Build,
                #[trigger] fields@[i].tid,
                done,
                all,
            ),
        TypeInfo::Flag { flags, .. } => flags@.len() > 0,
        TypeInfo::Alias { tid, .. } => all.contains(tid) && done.contains(tid),
        TypeInfo::Res { tid } => all.contains(tid) && done.contains(tid),
        TypeInfo::Len { .. } => true,
    }
}

/// The part `tid` is among `all`, and among `done` where `walk` leads to it.
pub open spec fn part_in(walk: Walk, leads: Walk, tid: TypeId, done: Set<TypeId>, all: Set<TypeId>) -> bool {
    all.contains(tid) && (walk == leads ==> done.contains(tid))
}

fn same_walk(a: Walk, b: Walk) -> (same: bool)
    ensures
        same == (a == b),
{
    match (a, b) {
        (Walk::Build, Walk::Build) => true,
        (Walk::See, Walk::See) => true,
        _ => false,
    }
}

fn part_settled(
    walk: Walk,
    leads: Walk,
    tid: TypeId,
    level: &HashMap<TypeId, usize>,
    types: &HashMap<TypeId, TypeInfo>,
) -> (b: bool)
    ensures
        b == part_in(walk, leads, tid, level@.dom(), types@.dom()),
{
    types.contains_key(&tid) && (!same_walk(walk, leads) || level.contains_key(&tid))
}

fn fields_settled(
    walk: Walk,
    fields: &Vec<Field>,
    level: &HashMap<TypeId, usize>,
    types: &HashMap<TypeId, TypeInfo>,
) -> (b: bool)
    ensures
        b == forall|i: int|
            0 <= i < fields@.len() ==> part_in(
                walk,
                Walk::Build,
                #[trigger] fields@[i].tid,
                level@.dom(),
                types@.dom(),
            ),
{
    let mut i: usize = 0;
    while i < fields.len()
        invariant
            0 <= i <= fields@.len(),
            forall|k: int|
                0 <= k < i ==> part_in(
                    walk,
                    Walk::Build,
                    #[trigger] fields@[k].tid,
                    level@.dom(),
                    types@.dom(),
                ),
        decreases fields@.len() - i,
    {
        if !part_settled(walk, Walk::Build, fields[i].tid, level, types) {
            return false;
        }
        i += 1;
    }
    true
}

fn parts_settled(
    walk: Walk,
    info: &TypeInfo,
    level: &HashMap<TypeId, usize>,
    types: &HashMap<TypeId, TypeInfo>,
) -> (b: bool)
    ensures
        b == parts_in(walk, *info, level@.dom(), types@.dom()),
{
    match info {
        TypeInfo::Num(num_info) => num_info_ok(num_info),
        TypeInfo::Ptr { dir, tid, depth } => *depth == 1 && part_settled(
            walk,
            Walk::See,
            *tid,
            level,
            types,
        ),
        TypeInfo::Slice { tid, l, h } => {
            let bounds = (*l == -1 && *h == -1) || (0 < *l && *h == -1) || (0 <= *l && *l < *h);
            bounds && part_settled(walk, Walk::Build, *tid, level, types)
        },
        TypeInfo::Str { .. } => true,
        TypeInfo::Struct { fields, .. } => fields_settled(walk, fields, level, types),
        TypeInfo::Union { fields, .. } => fields.len() > 0 && fields_settled(
            walk,
            fields,
            level,
            types,
        ),
        TypeInfo::Flag { flags, .. } => flags.len() > 0,
        TypeInfo::Alias { tid, .. } => types.contains_key(tid) && level.contains_key(tid),
        TypeInfo::Res { tid } => types.contains_key(tid) && level.contains_key(tid),
        TypeInfo::Len { .. } => true,
    }
}

/// The keys of `m`, each once.
pub fn keys_of<V, S: BuildHasher>(m: &HashMap<usize, V, S>) -> (keys: Vec<usize>)
    requires
        builds_valid_hashers::<S>(),
    ensures
        keys@.to_set() == m@.dom(),
        keys@.no_duplicates(),
{
    let mut keys: Vec<usize> = Vec::new();
    let it0 = m.keys();
    let ghost all = it0.remaining();
    assert(all.unref().to_set() == m@.dom());
    for k in it: it0
        invariant
            it.seq() == all,
            keys@.len() == it.index(),
            forall|i: int| 0 <= i < keys@.len() ==> keys@[i] == *it.seq()[i],
    {
        keys.push(*k);
    }
    assert(keys@ =~= all.unref());
    keys
}

/// The ranking that the order of settling gives: a settled type ranks by
/// its turn, above every type that is not settled.
pub open spec fn rank_by(level: Map<TypeId, usize>) -> Map<TypeId, nat> {
    Map::new(
        |tid: TypeId| true,
        |tid: TypeId|
            if level.contains_key(tid) {
                (level[tid] + 1) as nat
            } else {
                0nat
            },
    )
}

/// What holds of the types settled so far: each is a type of the schema
/// that ranks above the parts that `walk` leads to, which are settled too.
pub open spec fn settled_ok(t: &Target, walk: Walk, level: Map<TypeId, usize>) -> bool {
    &&& forall|tid: TypeId| #[trigger]
        level.contains_key(tid) ==> {
            &&& t.types@.contains_key(tid)
            &&& level[tid] < level.dom().len()
            &&& parts_in(walk, t.types@[tid], level.dom(), t.types@.dom())
            &&& t.type_ok(walk, rank_by(level), tid)
        }
    &&& level.dom().finite()
}

proof fn lemma_settle(t: &Target, walk: Walk, level: Map<TypeId, usize>, tid: TypeId)
    requires
        settled_ok(t, walk, level),
        t.types@.contains_key(tid),
        !level.contains_key(tid),
        parts_in(walk, t.types@[tid], level.dom(), t.types@.dom()),
        level.dom().len() < usize::MAX,
    ensures
        settled_ok(t, walk, level.insert(tid, level.dom().len() as usize)),
        level.insert(tid, level.dom().len() as usize).dom().len() == level.dom().len() + 1,
{
    let n = level.dom().len();
    let after = level.insert(tid, n as usize);
    let old_rank = rank_by(level);
    let rank = rank_by(after);
    assert(after.dom() =~= level.dom().insert(tid));
    assert(after.dom().len() == n + 1);
    assert forall|x: TypeId| #[trigger] after.contains_key(x) implies {
        &&& t.types@.contains_key(x)
        &&& after[x] < after.dom().len()
        &&& parts_in(walk, t.types@[x], after.dom(), t.types@.dom())
        &&& t.type_ok(walk, rank, x)
    } by {
        if x == tid {
            assert forall|c: TypeId| level.dom().contains(c) implies rank[c] < rank[x] by {
                assert(level.contains_key(c));
            }
            lemma_type_new(t, walk, level.dom(), after.dom(), rank, x);
        } else {
            assert(level.contains_key(x));
            assert forall|c: TypeId| level.dom().contains(c) implies rank[c] == old_rank[c] by {
                assert(level.contains_key(c));
            }
            lemma_type_kept(t, walk, level.dom(), after.dom(), old_rank, rank, x);
        }
    }
}

/// A type whose parts are settled keeps its rank over them when more types
/// settle.
proof fn lemma_type_kept(
    t: &Target,
    walk: Walk,
    before: Set<TypeId>,
    done: Set<TypeId>,
    old_rank: Map<TypeId, nat>,
    rank: Map<TypeId, nat>,
    me: TypeId,
)
    requires
        parts_in(walk, t.types@[me], before, t.types@.dom()),
        t.type_ok(walk, old_rank, me),
        before.subset_of(done),
        forall|x: TypeId| before.contains(x) ==> rank[x] == old_rank[x],
        rank[me] == old_rank[me],
    ensures
        parts_in(walk, t.types@[me], done, t.types@.dom()),
        t.type_ok(walk, rank, me),
{
    let all = t.types@.dom();
    match t.types@[me] {
        TypeInfo::Struct { fields, .. } => {
            assert forall|i: int| 0 <= i < fields@.len() implies t.below(
                rank,
                walk,
                Walk::Build,
                #[trigger] fields@[i].tid,
                me,
            ) && part_in(walk, Walk::Build, fields@[i].tid, done, all) by {
                assert(part_in(walk, Walk::Build, fields@[i].tid, before, all));
                assert(t.below(old_rank, walk, Walk::Build, fields@[i].tid, me));
            }
        },
        TypeInfo::Union { fields, .. } => {
            assert forall|i: int| 0 <= i < fields@.len() implies t.below(
                rank,
                walk,
                Walk::Build,
                #[trigger] fields@[i].tid,
                me,
            ) && part_in(walk, Walk::Build, fields@[i].tid, done, all) by {
                assert(part_in(walk, Walk::Build, fields@[i].tid, before, all));
                assert(t.below(old_rank, walk, Walk::Build, fields@[i].tid, me));
            }
        },
        _ => {},
    }
}

/// A type whose parts are settled ranks above them once it ranks above
/// every settled type.
proof fn lemma_type_new(
    t: &Target,
    walk: Walk,
    before: Set<TypeId>,
    done: Set<TypeId>,
    rank: Map<TypeId, nat>,
    me: TypeId,
)
    requires
        parts_in(walk, t.types@[me], before, t.types@.dom()),
        before.subset_of(done),
        forall|x: TypeId| before.contains(x) ==> rank[x] < rank[me],
    ensures
        parts_in(walk, t.types@[me], done, t.types@.dom()),
        t.type_ok(walk, rank, me),
{
    let all = t.types@.dom();
    match t.types@[me] {
        TypeInfo::Struct { fields, .. } => {
            assert forall|i: int| 0 <= i < fields@.len() implies t.below(
                rank,
                walk,
                Walk::Build,
                #[trigger] fields@[i].tid,
                me,
            ) && part_in(walk, Walk::Build, fields@[i].tid, done, all) by {
                assert(part_in(walk, Walk::Build, fields@[i].tid, before, all));
            }
        },
        TypeInfo::Union { fields, .. } => {
            assert forall|i: int| 0 <= i < fields@.len() implies t.below(
                rank,
                walk,
                Walk::Build,
                #[trigger] fields@[i].tid,
                me,
            ) && part_in(walk, Walk::Build, fields@[i].tid, done, all) by {
                assert(part_in(walk, Walk::Build, fields@[i].tid, before, all));
            }
        },
        _ => {},
    }
}

/// No type is left that could settle: every type of the schema is among
/// `done`, or is ill-shaped, or lacks a part, or is led by `walk` to a type
/// outside `done`.
pub open spec fn stuck(t: &Target, walk: Walk, done: Set<TypeId>) -> bool {
    forall|tid: TypeId| #[trigger]
        t.types@.contains_key(tid) ==> done.contains(tid) || !parts_in(
            walk,
            t.types@[tid],
            done,
            t.types@.dom(),
        )
}

/// Where the types can be ranked and none is left that could settle, they
/// have all settled.
proof fn lemma_all_settle(
    t: &Target,
    walk: Walk,
    rank: Map<TypeId, nat>,
    done: Set<TypeId>,
    tid: TypeId,
)
    requires
        t.ranked(walk, rank),
        stuck(t, walk, done),
        t.types@.contains_key(tid),
    ensures
        done.contains(tid),
    decreases rank[tid],
{
    let all = t.types@.dom();
    assert(t.type_ok(walk, rank, tid));
    match t.types@[tid] {
        TypeInfo::Ptr { tid: part, .. } => {
            if walk == Walk::See {
                lemma_all_settle(t, walk, rank, done, part);
            }
        },
        TypeInfo::Slice { tid: part, .. } => {
            if walk == Walk::Build {
                lemma_all_settle(t, walk, rank, done, part);
            }
        },
        TypeInfo::Alias { tid: part, .. } => {
            lemma_all_settle(t, walk, rank, done, part);
        },
        TypeInfo::Res { tid: part } => {
            lemma_all_settle(t, walk, rank, done, part);
        },
        TypeInfo::Struct { fields, .. } => {
            assert forall|i: int| 0 <= i < fields@.len() implies part_in(
                walk,
                Walk::Build,
                #[trigger] fields@[i].tid,
                done,
                all,
            ) by {
                assert(t.below(rank, walk, Walk::Build, fields@[i].tid, tid));
                if walk == Walk::Build {
                    lemma_all_settle(t, walk, rank, done, fields@[i].tid);
                }
            }
        },
        TypeInfo::Union { fields, .. } => {
            assert forall|i: int| 0 <= i < fields@.len() implies part_in(
                walk,
                Walk::Build,
                #[trigger] fields@[i].tid,
                done,
                all,
            ) by {
                assert(t.below(rank, walk, Walk::Build, fields@[i].tid, tid));
                if walk == Walk::Build {
                    lemma_all_settle(t, walk, rank, done, fields@[i].tid);
                }
            }
        },
        _ => {},
    }
    assert(parts_in(walk, t.types@[tid], done, all));
}

proof fn lemma_level_bound(t: &Target, walk: Walk, level: Map<TypeId, usize>, ids: Seq<TypeId>)
    requires
        settled_ok(t, walk, level),
        ids.to_set() == t.types@.dom(),
        ids.no_duplicates(),
    ensures
        level.dom().len() <= ids.len(),
        forall|tid: TypeId|
            t.types@.contains_key(tid) && !level.contains_key(tid) ==> level.dom().len() < ids.len(),
{
    ids.unique_seq_to_set();
    assert(level.dom().subset_of(t.types@.dom())) by {
        assert forall|x: TypeId| level.dom().contains(x) implies t.types@.dom().contains(x) by {
            assert(level.contains_key(x));
        }
    }
    vstd::set_lib::lemma_len_subset(level.dom(), t.types@.dom());
    assert forall|tid: TypeId|
        t.types@.contains_key(tid) && !level.contains_key(tid) implies level.dom().len()
        < ids.len() by {
        let more = level.dom().insert(tid);
        assert(more.subset_of(t.types@.dom()));
        vstd::set_lib::lemma_len_subset(more, t.types@.dom());
    }
}

impl Target {
    /// Whether the types can be ranked so that each ranks above the types
    /// that `walk` leads to from it: all parts exist, every type is
    /// well-shaped, and `walk` never comes back to where it set out.
    pub fn types_ranked(&self, walk: Walk) -> (b: bool)
        ensures
            b == exists|rank: Map<TypeId, nat>| self.ranked(walk, rank),
    {
        let ids = keys_of(&self.types);
        let mut level: HashMap<TypeId, usize> = HashMap::new();
        assert(level@.dom() =~= Set::<TypeId>::empty());
        loop
            invariant
                ids@.to_set() == self.types@.dom(),
                ids@.no_duplicates(),
                settled_ok(self, walk, level@),
            ensures
                settled_ok(self, walk, level@),
                stuck(self, walk, level@.dom()),
            decreases ids@.len() - level@.dom().len(),
        {
            proof {
                lemma_level_bound(self, walk, level@, ids@);
            }
            let mut progress = false;
            let ghost start = level@;
            let mut i: usize = 0;
            while i < ids.len()
                invariant
                    ids@.to_set() == self.types@.dom(),
                    ids@.no_duplicates(),
                    settled_ok(self, walk, level@),
                    settled_ok(self, walk, start),
                    0 <= i <= ids@.len(),
                    !progress ==> level@ == start,
                    !progress ==> forall|j: int|
                        0 <= j < i ==> level@.dom().contains(#[trigger] ids@[j]) || !parts_in(
                            walk,
                            self.types@[ids@[j]],
                            level@.dom(),
                            self.types@.dom(),
                        ),
                    progress ==> level@.dom().len() > start.dom().len(),
                decreases ids@.len() - i,
            {
                let tid = ids[i];
                assert(ids@.to_set().contains(tid));
                if !level.contains_key(&tid) {
                    let info = self.type_of(tid);
                    if parts_settled(walk, info, &level, &self.types) {
                        proof {
                            lemma_level_bound(self, walk, level@, ids@);
                            lemma_settle(self, walk, level@, tid);
                        }
                        let n = level.len();
                        level.insert(tid, n);
                        progress = true;
                    }
                }
                i += 1;
            }
            if !progress {
                proof {
                    assert forall|tid: TypeId| #[trigger]
                        self.types@.contains_key(tid) implies level@.dom().contains(tid)
                        || !parts_in(walk, self.types@[tid], level@.dom(), self.types@.dom()) by {
                        assert(ids@.to_set().contains(tid));
                        let j = choose|j: int| 0 <= j < ids@.len() && ids@[j] == tid;
                        assert(level@.dom().contains(ids@[j]) || !parts_in(
                            walk,
                            self.types@[ids@[j]],
                            level@.dom(),
                            self.types@.dom(),
                        ));
                    }
                }
                break ;
            }
            proof {
                lemma_level_bound(self, walk, level@, ids@);
            }
        }
        let mut i: usize = 0;
        while i < ids.len()
            invariant
                ids@.to_set() == self.types@.dom(),
                settled_ok(self, walk, level@),
                stuck(self, walk, level@.dom()),
                0 <= i <= ids@.len(),
                forall|j: int| 0 <= j < i ==> level@.contains_key(#[trigger] ids@[j]),
            decreases ids@.len() - i,
        {
            if !level.contains_key(&ids[i]) {
                proof {
                    let tid = ids@[i as int];
                    assert(ids@.to_set().contains(tid));
                    if exists|rank: Map<TypeId, nat>| self.ranked(walk, rank) {
                        let rank = choose|rank: Map<TypeId, nat>| self.ranked(walk, rank);
                        lemma_all_settle(self, walk, rank, level@.dom(), tid);
                    }
                }
                return false;
            }
            i += 1;
        }
        proof {
            let rank = rank_by(level@);
            assert forall|tid: TypeId| self.types@.contains_key(tid) implies #[trigger] self.type_ok(
                walk,
                rank,
                tid,
            ) by {
                assert(ids@.to_set().contains(tid));
                let j = choose|j: int| 0 <= j < ids@.len() && ids@[j] == tid;
                assert(level@.contains_key(ids@[j]));
            }
            assert(self.ranked(walk, rank));
        }
        true
    }

    /// Whether the types that `f` names are types of the schema.
    pub fn fn_valid(&self, f: &FnInfo) -> (b: bool)
        ensures
            b == self.fn_ok(*f),
    {
        let mut i: usize = 0;
        while i < f.params.len()
            invariant
                0 <= i <= f.params@.len(),
                forall|k: int| 0 <= k < i ==> self.types@.contains_key(#[trigger] f.params@[k].tid),
            decreases f.params@.len() - i,
        {
            if !self.types.contains_key(&f.params[i].tid) {
                return false;
            }
            i += 1;
        }
        match f.r_tid {
            Some(r) => self.types.contains_key(&r),
            None => true,
        }
    }

    /// Whether every function of every group names types of the schema
    /// only.
    pub fn fns_valid(&self) -> (b: bool)
        ensures
            b == forall|gid: usize, i: int|
                self.groups@.contains_key(gid) && 0 <= i < self.groups@[gid].fns@.len()
                    ==> self.fn_ok(#[trigger] self.groups@[gid].fns@[i]),
    {
        let gids = keys_of(&self.groups);
        let mut n: usize = 0;
        while n < gids.len()
            invariant
                gids@.to_set() == self.groups@.dom(),
                0 <= n <= gids@.len(),
                forall|m: int, i: int|
                    0 <= m < n && 0 <= i < self.groups@[gids@[m]].fns@.len() ==> self.fn_ok(
                        #[trigger] self.groups@[gids@[m]].fns@[i],
                    ),
            decreases gids@.len() - n,
        {
            let gid = gids[n];
            assert(gids@.to_set().contains(gid));
            let found = self.groups.get(&gid);
            let g = found.unwrap();
            let mut i: usize = 0;
            while i < g.fns.len()
                invariant
                    self.groups@.contains_key(gid),
                    *g == self.groups@[gid],
                    0 <= i <= g.fns@.len(),
                    forall|k: int| 0 <= k < i ==> self.fn_ok(#[trigger] g.fns@[k]),
                decreases g.fns@.len() - i,
            {
                if !self.fn_valid(&g.fns[i]) {
                    return false;
                }
                i += 1;
            }
            n += 1;
        }
        proof {
            assert forall|gid: usize, i: int|
                self.groups@.contains_key(gid) && 0 <= i < self.groups@[gid].fns@.len() implies self.fn_ok(
                #[trigger] self.groups@[gid].fns@[i],
            ) by {
                assert(gids@.to_set().contains(gid));
                let m = choose|m: int| 0 <= m < gids@.len() && gids@[m] == gid;
                assert(self.fn_ok(self.groups@[gids@[m]].fns@[i]));
            }
        }
        true
    }

    /// Whether programs can be generated for the schema.
    pub fn validate(&self) -> (b: bool)
        ensures
            b == self.wf(),
    {
        self.types_ranked(Walk::Build) && self.types_ranked(Walk::See) && self.fns_valid()
    }
}

} // verus!
