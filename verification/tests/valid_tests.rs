use healer::analyze::{RTable, Relation};
use healer::config::Config;
use healer::gen::{tables_valid, try_gen};
use healer::target::{Target, Walk};
use healer::types::{
    Field, Flag, FnInfo, Group, NumInfo, NumKind, NumLimit, Param, PtrDir, StrType, TypeInfo,
};
use healer::valid::{keys_of, kind_bounds, num_info_ok};
use std::collections::HashMap;

fn num(kind: NumKind, limit: NumLimit) -> TypeInfo {
    TypeInfo::Num(NumInfo { kind, limit })
}

fn member(name: &str, tid: usize) -> Field {
    Field { ident: String::from(name), tid }
}

fn schema(types: Vec<(usize, TypeInfo)>, fns: Vec<FnInfo>) -> Target {
    let mut groups = HashMap::new();
    groups.insert(0, Group { id: 0, ident: String::from("g"), fns });
    Target { types: types.into_iter().collect(), groups }
}

fn call(params: Vec<usize>, r_tid: Option<usize>) -> FnInfo {
    FnInfo {
        id: 1,
        gid: 0,
        name: String::from("f"),
        params: params.into_iter().map(|tid| Param { ident: String::from("p"), tid }).collect(),
        r_tid,
    }
}

fn sound_types() -> Vec<(usize, TypeInfo)> {
    vec![
        (9, TypeInfo::Struct { ident: String::from("s"), fields: vec![member("a", 7), member("b", 3)] }),
        (7, TypeInfo::Ptr { dir: PtrDir::In, tid: 5, depth: 1 }),
        (5, TypeInfo::Union { ident: String::from("u"), fields: vec![member("x", 3), member("y", 2)] }),
        (3, TypeInfo::Res { tid: 1 }),
        (2, TypeInfo::Slice { tid: 4, l: -1, h: -1 }),
        (4, TypeInfo::Alias { ident: String::from("a"), tid: 1 }),
        (1, num(NumKind::I32, NumLimit::Range { lo: -4, hi: 9 })),
        (6, TypeInfo::Str { str_type: StrType::Str, vals: None }),
        (8, TypeInfo::Flag { ident: String::from("f"), flags: vec![Flag { ident: String::from("A"), val: 1 }] }),
        (10, TypeInfo::Len { tid: 2, path: String::from("p"), is_param: false }),
    ]
}

#[test]
fn a_sound_schema_is_valid() {
    let t = schema(sound_types(), vec![call(vec![9, 6, 8, 10], Some(3))]);
    assert!(t.types_ranked(Walk::Build));
    assert!(t.types_ranked(Walk::See));
    assert!(t.fns_valid());
    assert!(t.validate());
    assert!(schema(vec![], vec![]).validate());
    assert!(schema(vec![], vec![call(vec![], None)]).validate());
}

#[test]
fn a_type_may_hold_a_pointer_to_itself() {
    let mut list = sound_types();
    list.push((11, TypeInfo::Struct { ident: String::from("l"), fields: vec![member("next", 12)] }));
    list.push((12, TypeInfo::Ptr { dir: PtrDir::In, tid: 11, depth: 1 }));
    let t = schema(list, vec![call(vec![11], None)]);
    assert!(t.types_ranked(Walk::Build));
    assert!(t.types_ranked(Walk::See));
    assert!(t.validate());
    let tree = vec![
        (1, TypeInfo::Union { ident: String::from("t"), fields: vec![member("leaf", 2), member("node", 3)] }),
        (2, num(NumKind::U8, NumLimit::Any)),
        (3, TypeInfo::Slice { tid: 4, l: 0, h: 3 }),
        (4, TypeInfo::Ptr { dir: PtrDir::InOut, tid: 5, depth: 1 }),
        (5, TypeInfo::Alias { ident: String::from("a"), tid: 1 }),
    ];
    assert!(schema(tree, vec![]).validate());
}

#[test]
fn types_built_from_themselves_are_refused() {
    let own = vec![(1, TypeInfo::Alias { ident: String::from("a"), tid: 1 })];
    assert!(!schema(own, vec![]).validate());
    let pair = vec![(1, TypeInfo::Res { tid: 2 }), (2, TypeInfo::Res { tid: 1 })];
    assert!(!schema(pair.clone(), vec![]).types_ranked(Walk::Build));
    assert!(!schema(pair, vec![]).types_ranked(Walk::See));
    let nested = vec![
        (1, TypeInfo::Struct { ident: String::from("s"), fields: vec![member("u", 2)] }),
        (2, TypeInfo::Union { ident: String::from("u"), fields: vec![member("s", 1)] }),
    ];
    let t = schema(nested, vec![]);
    assert!(!t.types_ranked(Walk::Build));
    assert!(t.types_ranked(Walk::See));
    assert!(!t.validate());
    let items = vec![(1, TypeInfo::Slice { tid: 1, l: 0, h: 2 })];
    assert!(!schema(items, vec![]).validate());
    let around = vec![
        (1, TypeInfo::Ptr { dir: PtrDir::In, tid: 2, depth: 1 }),
        (2, TypeInfo::Alias { ident: String::from("a"), tid: 3 }),
        (3, TypeInfo::Ptr { dir: PtrDir::In, tid: 2, depth: 1 }),
    ];
    let t = schema(around, vec![]);
    assert!(t.types_ranked(Walk::Build));
    assert!(!t.types_ranked(Walk::See));
    assert!(!t.validate());
    let itself = vec![(1, TypeInfo::Ptr { dir: PtrDir::Out, tid: 1, depth: 1 })];
    assert!(!schema(itself, vec![]).validate());
}

#[test]
fn missing_parts_are_refused() {
    assert!(!schema(vec![(1, TypeInfo::Res { tid: 2 })], vec![]).validate());
    let gap = vec![
        (1, num(NumKind::U8, NumLimit::Any)),
        (2, TypeInfo::Struct { ident: String::from("s"), fields: vec![member("a", 1), member("b", 3)] }),
    ];
    assert!(!schema(gap, vec![]).validate());
    let t = schema(vec![(1, num(NumKind::U8, NumLimit::Any))], vec![call(vec![1, 2], None)]);
    assert!(t.types_ranked(Walk::Build));
    assert!(!t.fns_valid());
    assert!(!t.validate());
    assert!(!t.fn_valid(&call(vec![], Some(5))));
    assert!(t.fn_valid(&call(vec![1, 1], Some(1))));
}

#[test]
fn ill_shaped_types_are_refused() {
    let base = (1, num(NumKind::U8, NumLimit::Any));
    let bad: Vec<TypeInfo> = vec![
        TypeInfo::Ptr { dir: PtrDir::Out, tid: 1, depth: 2 },
        TypeInfo::Ptr { dir: PtrDir::In, tid: 1, depth: 0 },
        TypeInfo::Slice { tid: 1, l: 0, h: -1 },
        TypeInfo::Slice { tid: 1, l: 3, h: 3 },
        TypeInfo::Slice { tid: 1, l: -1, h: 4 },
        TypeInfo::Slice { tid: 1, l: -2, h: -1 },
        TypeInfo::Union { ident: String::from("u"), fields: vec![] },
        TypeInfo::Flag { ident: String::from("f"), flags: vec![] },
        num(NumKind::U8, NumLimit::Vals(vec![])),
        num(NumKind::U8, NumLimit::Vals(vec![1, 256])),
        num(NumKind::I8, NumLimit::Vals(vec![-129])),
        num(NumKind::U8, NumLimit::Range { lo: 5, hi: 5 }),
        num(NumKind::U8, NumLimit::Range { lo: -1, hi: 5 }),
        num(NumKind::U8, NumLimit::Range { lo: 0, hi: 257 }),
    ];
    for info in bad {
        let t = schema(vec![base.clone(), (2, info.clone())], vec![]);
        assert!(!t.validate(), "{:?} passed", info);
    }
    let fine: Vec<TypeInfo> = vec![
        TypeInfo::Ptr { dir: PtrDir::Out, tid: 1, depth: 1 },
        TypeInfo::Slice { tid: 1, l: 1, h: -1 },
        TypeInfo::Slice { tid: 1, l: 0, h: 1 },
        TypeInfo::Struct { ident: String::from("s"), fields: vec![] },
        num(NumKind::U8, NumLimit::Vals(vec![0, 255])),
        num(NumKind::U8, NumLimit::Range { lo: 0, hi: 256 }),
        num(NumKind::I64, NumLimit::Range { lo: i64::MIN as i128, hi: i64::MAX as i128 + 1 }),
    ];
    for info in fine {
        let t = schema(vec![base.clone(), (2, info.clone())], vec![]);
        assert!(t.validate(), "{:?} refused", info);
    }
}

#[test]
fn number_limits_stay_within_the_kind() {
    assert_eq!(kind_bounds(NumKind::I8), (-128, 127));
    assert_eq!(kind_bounds(NumKind::U16), (0, 65535));
    assert_eq!(kind_bounds(NumKind::I64), (i64::MIN as i128, i64::MAX as i128));
    assert_eq!(kind_bounds(NumKind::Usize), (0, usize::MAX as i128));
    assert!(num_info_ok(&NumInfo { kind: NumKind::I16, limit: NumLimit::Any }));
    assert!(num_info_ok(&NumInfo { kind: NumKind::I16, limit: NumLimit::Vals(vec![-32768, 32767]) }));
    assert!(!num_info_ok(&NumInfo { kind: NumKind::I16, limit: NumLimit::Vals(vec![0, 32768]) }));
    assert!(!num_info_ok(&NumInfo { kind: NumKind::U32, limit: NumLimit::Range { lo: 9, hi: 3 } }));
}

#[test]
fn keys_come_once_each() {
    let mut m = HashMap::new();
    assert!(keys_of(&m).is_empty());
    for k in [5usize, 1, 9, 3] {
        m.insert(k, ());
    }
    let mut keys = keys_of(&m);
    keys.sort();
    assert_eq!(keys, vec![1, 3, 5, 9]);
}

#[test]
fn tables_must_fit_the_groups() {
    let t = schema(vec![], vec![call(vec![], None), call(vec![], None)]);
    let table = |side: usize| RTable::from_cells(side, vec![Relation::No; side * side]).unwrap();
    let mut rs = HashMap::new();
    assert!(!tables_valid(&t, &rs));
    rs.insert(0, table(2));
    assert!(tables_valid(&t, &rs));
    assert!(rs[&0].square());
    rs.insert(1, table(1));
    assert!(!tables_valid(&t, &rs));
    rs.remove(&1);
    rs.insert(0, table(3));
    assert!(!tables_valid(&t, &rs));
    rs.remove(&0);
    rs.insert(4, table(2));
    assert!(!tables_valid(&t, &rs));
    let none = schema(vec![], vec![]);
    let mut empty = HashMap::new();
    empty.insert(0, table(0));
    assert!(!tables_valid(&none, &empty));
}

#[test]
fn generation_is_refused_where_it_cannot_work() {
    let table = RTable::from_cells(1, vec![Relation::Yes]).unwrap();
    let mut rs = HashMap::new();
    rs.insert(0, table);
    let conf = Config::default();
    let good = schema(vec![(1, num(NumKind::U8, NumLimit::Any))], vec![call(vec![1], None)]);
    for _ in 0..50 {
        let p = try_gen(&good, &rs, &conf).unwrap();
        assert_eq!(p.gid, 0);
        assert!(!p.calls.is_empty() && p.calls.len() <= conf.prog_max_len + 1);
    }
    let no_len = Config { str_min_len: 4, str_max_len: 4, ..Config::default() };
    assert_eq!(try_gen(&good, &rs, &no_len), None);
    let bad = schema(vec![(1, TypeInfo::Res { tid: 1 })], vec![call(vec![1], None)]);
    assert_eq!(try_gen(&bad, &rs, &conf), None);
    let two = schema(vec![], vec![call(vec![], None), call(vec![], None)]);
    assert_eq!(try_gen(&two, &rs, &conf), None);
    assert_eq!(try_gen(&good, &HashMap::new(), &conf), None);
}
