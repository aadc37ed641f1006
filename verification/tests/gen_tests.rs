use healer::analyze::{RTable, Relation};
use healer::config::Config;
use healer::flag::{combine, gen_flag};
use healer::gen::{gen, gen_prog, gen_slice_len};
use healer::num::{gen_num, num_value, random_of_kind};
use healer::prog::{Arg, Call, Prog};
use healer::state::State;
use healer::target::Target;
use healer::text::{gen_path, gen_str, gen_str_len};
use healer::types::{
    Field, Flag, FnInfo, Group, NumInfo, NumKind, NumLimit, Param, PtrDir, StrType, TypeInfo,
};
use healer::value::{ArgIndex, ArgPos, NumValue, Value};
use std::collections::HashMap;

fn field(name: &str, tid: usize) -> Field {
    Field { ident: String::from(name), tid }
}

fn param(name: &str, tid: usize) -> Param {
    Param { ident: String::from(name), tid }
}

fn func(id: usize, name: &str, params: Vec<Param>, r_tid: Option<usize>) -> FnInfo {
    FnInfo { id: 100 + id, gid: 0, name: String::from(name), params, r_tid }
}

fn flags_abc() -> Vec<Flag> {
    vec![
        Flag { ident: String::from("A"), val: 1 },
        Flag { ident: String::from("B"), val: 2 },
        Flag { ident: String::from("C"), val: 4 },
    ]
}

fn rich_target() -> (Target, HashMap<usize, RTable>) {
    let mut types = HashMap::new();
    types.insert(1, TypeInfo::Num(NumInfo { kind: NumKind::U32, limit: NumLimit::Range { lo: 10, hi: 20 } }));
    types.insert(2, TypeInfo::Num(NumInfo { kind: NumKind::I8, limit: NumLimit::Any }));
    types.insert(3, TypeInfo::Num(NumInfo { kind: NumKind::I64, limit: NumLimit::Vals(vec![-5, 7, 9]) }));
    types.insert(4, TypeInfo::Res { tid: 1 });
    types.insert(5, TypeInfo::Alias { ident: String::from("fd_t"), tid: 4 });
    types.insert(6, TypeInfo::Ptr { dir: PtrDir::In, tid: 7, depth: 1 });
    types.insert(
        7,
        TypeInfo::Struct {
            ident: String::from("rec"),
            fields: vec![field("a", 1), field("b", 8), field("c", 10)],
        },
    );
    types.insert(8, TypeInfo::Str { str_type: StrType::CStr, vals: None });
    types.insert(9, TypeInfo::Str { str_type: StrType::FileName, vals: None });
    types.insert(10, TypeInfo::Flag { ident: String::from("abc"), flags: flags_abc() });
    types.insert(
        11,
        TypeInfo::Union { ident: String::from("either"), fields: vec![field("x", 2), field("y", 9)] },
    );
    types.insert(12, TypeInfo::Slice { tid: 3, l: 2, h: 5 });
    types.insert(13, TypeInfo::Slice { tid: 2, l: -1, h: -1 });
    types.insert(14, TypeInfo::Ptr { dir: PtrDir::Out, tid: 4, depth: 1 });
    types.insert(15, TypeInfo::Len { tid: 12, path: String::from("s"), is_param: true });
    types.insert(
        16,
        TypeInfo::Str {
            str_type: StrType::Str,
            vals: Some(vec![String::from("alpha"), String::from("beta")]),
        },
    );
    types.insert(17, TypeInfo::Alias { ident: String::from("num_t"), tid: 1 });
    types.insert(18, TypeInfo::Slice { tid: 1, l: 3, h: -1 });
    types.insert(19, TypeInfo::Ptr { dir: PtrDir::InOut, tid: 2, depth: 1 });
    types.insert(20, TypeInfo::Str { str_type: StrType::Str, vals: None });

    let fns = vec![
        func(0, "open", vec![], Some(4)),
        func(1, "close", vec![param("fd", 4)], None),
        func(2, "use_alias", vec![param("fd", 5), param("p", 6)], Some(2)),
        func(3, "make", vec![param("out", 14), param("fd", 4)], None),
        func(
            4,
            "misc",
            vec![
                param("u", 11),
                param("s", 12),
                param("t", 13),
                param("n", 15),
                param("l", 16),
                param("a", 17),
                param("w", 18),
                param("io", 19),
                param("free", 20),
                param("file", 9),
            ],
            None,
        ),
    ];
    let mut groups = HashMap::new();
    groups.insert(0, Group { id: 0, ident: String::from("files"), fns });
    let t = Target { types, groups };

    let (no, yes, unknown) = (Relation::No, Relation::Yes, Relation::Unknown);
    let cells = vec![
        no, no, no, no, no, //
        yes, no, no, unknown, no, //
        yes, no, no, yes, unknown, //
        no, no, no, no, no, //
        no, unknown, no, no, yes,
    ];
    let mut rs = HashMap::new();
    rs.insert(0, RTable::from_cells(5, cells).unwrap());
    (t, rs)
}

fn is_alnum_text(s: &str) -> bool {
    s.chars().all(|c| c.is_ascii_alphanumeric())
}

fn is_file_name(conf: &Config, s: &str) -> bool {
    let mut parts = s.split('/');
    if parts.next() != Some(".") {
        return false;
    }
    let segs: Vec<&str> = parts.collect();
    let cap = if conf.path_max_depth == 0 { 1 } else { conf.path_max_depth };
    if segs.is_empty() || segs.len() > cap {
        return false;
    }
    let n = segs[0].len();
    conf.str_min_len <= n
        && n < conf.str_max_len
        && segs.iter().all(|seg| seg.len() == n && is_alnum_text(seg))
}

fn is_res(t: &Target, tid: usize) -> bool {
    match &t.types[&tid] {
        TypeInfo::Res { .. } => true,
        TypeInfo::Alias { tid: under, .. } => is_res(t, *under),
        _ => false,
    }
}

fn ref_fits(done: &[Call], pos: usize, res: usize, idx: &ArgIndex) -> bool {
    match idx.pos {
        ArgPos::Ret => {
            idx.call < done.len()
                && match &done[idx.call].ret {
                    Some(arg) => arg.tid == res,
                    None => false,
                }
        }
        ArgPos::Arg(j) => {
            if idx.call < done.len() {
                j < done[idx.call].args.len()
            } else {
                idx.call == done.len() && j <= pos
            }
        }
    }
}

fn value_fits(t: &Target, conf: &Config, done: &[Call], pos: usize, tid: usize, v: &Value) -> bool {
    match &t.types[&tid] {
        TypeInfo::Num(info) => match v {
            Value::Num(n) => {
                let (signed, x) = match n {
                    NumValue::Signed(x) => (true, *x as i128),
                    NumValue::Unsigned(x) => (false, *x as i128),
                };
                let kind_ok = match info.kind {
                    NumKind::I8 => signed && -128 <= x && x <= 127,
                    NumKind::I64 => signed,
                    NumKind::U32 => !signed && x <= u32::MAX as i128,
                    _ => true,
                };
                kind_ok
                    && match &info.limit {
                        NumLimit::Any => true,
                        NumLimit::Vals(vals) => vals.contains(&x),
                        NumLimit::Range { lo, hi } => *lo <= x && x < *hi,
                    }
            }
            _ => false,
        },
        TypeInfo::Ptr { dir, tid: inner, .. } => match dir {
            PtrDir::In => *v == Value::Null || value_fits(t, conf, done, pos, *inner, v),
            _ => *v == Value::Default(*inner),
        },
        TypeInfo::Slice { tid: inner, l, h } => match v {
            Value::Group(vals) => {
                let n = vals.len() as isize;
                let len_ok = if *l == -1 && *h == -1 {
                    n < 8
                } else if *h == -1 {
                    n < *l
                } else {
                    *l <= n && n < *h
                };
                len_ok && vals.iter().all(|x| value_fits(t, conf, done, pos, *inner, x))
            }
            _ => false,
        },
        TypeInfo::Str { str_type, vals } => match v {
            Value::Str(s) => match vals {
                Some(list) if !list.is_empty() => list.contains(s),
                _ => {
                    let n = s.chars().count();
                    match str_type {
                        StrType::Str | StrType::CStr => conf.str_min_len <= n && n < conf.str_max_len,
                        StrType::FileName => is_file_name(conf, s),
                    }
                }
            },
            _ => false,
        },
        TypeInfo::Struct { fields, .. } => match v {
            Value::Group(vals) => {
                vals.len() == fields.len()
                    && fields
                        .iter()
                        .zip(vals.iter())
                        .all(|(f, x)| value_fits(t, conf, done, pos, f.tid, x))
            }
            _ => false,
        },
        TypeInfo::Union { fields, .. } => match v {
            Value::Opt { choice, val } => {
                *choice < fields.len() && value_fits(t, conf, done, pos, fields[*choice].tid, val)
            }
            _ => false,
        },
        TypeInfo::Flag { flags, .. } => match v {
            Value::Num(NumValue::Signed(n)) => {
                (i32::MIN as i64 <= *n && *n <= i32::MAX as i64)
                    || flags.iter().any(|f| n & f.val == *n)
            }
            _ => false,
        },
        TypeInfo::Alias { tid: under, .. } => {
            let own = match v {
                Value::Ref(idx) => is_res(t, tid) && ref_fits(done, pos, tid, idx),
                _ => false,
            };
            own || value_fits(t, conf, done, pos, *under, v)
        }
        TypeInfo::Res { tid: under } => {
            let own = match v {
                Value::Ref(idx) => ref_fits(done, pos, tid, idx),
                _ => false,
            };
            own || value_fits(t, conf, done, pos, *under, v)
        }
        TypeInfo::Len { .. } => *v == Value::Num(NumValue::Unsigned(0)),
    }
}

fn prog_fits(t: &Target, conf: &Config, p: &Prog) -> bool {
    let g = &t.groups[&p.gid];
    for (k, c) in p.calls.iter().enumerate() {
        let f = match g.fns.iter().find(|f| f.id == c.fid) {
            Some(f) => f,
            None => return false,
        };
        if c.args.len() != f.params.len() {
            return false;
        }
        for (i, a) in c.args.iter().enumerate() {
            if a.tid != f.params[i].tid {
                return false;
            }
            if !value_fits(t, conf, &p.calls[..k], i, a.tid, &a.val) {
                return false;
            }
        }
        let want = match f.r_tid {
            Some(r) if is_res(t, r) => Some(Arg { tid: r, val: Value::Null }),
            _ => None,
        };
        if c.ret != want {
            return false;
        }
    }
    true
}

#[test]
fn trivial_group() {
    let f = FnInfo { id: 7, gid: 1, name: String::from("f"), params: vec![], r_tid: None };
    let g = Group { id: 1, ident: String::from("g"), fns: vec![f] };
    let mut groups = HashMap::new();
    groups.insert(1, g);
    let t = Target { types: HashMap::new(), groups };
    let mut rs = HashMap::new();
    rs.insert(1, RTable::from_cells(1, vec![Relation::No]).unwrap());
    let conf = Config::default();
    let mut longest = 0;
    for _ in 0..2000 {
        let p = gen(&t, &rs, &conf);
        assert_eq!(p.gid, 1);
        assert!(1 <= p.calls.len() && p.calls.len() <= conf.prog_max_len + 1);
        longest = longest.max(p.calls.len());
        for c in p.calls.iter() {
            assert_eq!(*c, Call { fid: 7, args: vec![], ret: None });
        }
    }
    assert!(longest > 1);
}

#[test]
fn two_function_chain() {
    let mut types = HashMap::new();
    types.insert(1, TypeInfo::Num(NumInfo { kind: NumKind::I32, limit: NumLimit::Any }));
    types.insert(2, TypeInfo::Res { tid: 1 });
    let open = FnInfo { id: 10, gid: 0, name: String::from("open"), params: vec![], r_tid: Some(2) };
    let close = FnInfo {
        id: 11,
        gid: 0,
        name: String::from("close"),
        params: vec![param("fd", 2)],
        r_tid: None,
    };
    let mut groups = HashMap::new();
    groups.insert(0, Group { id: 0, ident: String::from("fs"), fns: vec![open, close] });
    let t = Target { types, groups };
    let cells = vec![Relation::No, Relation::No, Relation::Yes, Relation::No];
    let mut rs = HashMap::new();
    rs.insert(0, RTable::from_cells(2, cells).unwrap());
    let conf = Config::default();
    let mut chained = 0;
    for _ in 0..2000 {
        let p = gen(&t, &rs, &conf);
        assert!(!p.calls.is_empty());
        let mut opened = false;
        for (k, c) in p.calls.iter().enumerate() {
            if c.fid == 10 {
                assert!(c.args.is_empty());
                assert_eq!(c.ret, Some(Arg { tid: 2, val: Value::Null }));
                opened = true;
            } else {
                assert_eq!(c.fid, 11);
                assert_eq!(c.ret, None);
                assert_eq!(c.args.len(), 1);
                assert_eq!(c.args[0].tid, 2);
                if opened {
                    match &c.args[0].val {
                        Value::Ref(idx) => {
                            assert!(idx.call < k);
                            assert_eq!(idx.pos, ArgPos::Ret);
                            assert_eq!(p.calls[idx.call].fid, 10);
                            chained += 1;
                        }
                        other => panic!("close after open got {:?}", other),
                    }
                } else {
                    assert!(matches!(&c.args[0].val, Value::Num(NumValue::Signed(_))));
                }
            }
        }
    }
    assert!(chained > 0);
}

#[test]
fn range_numeric() {
    let info = NumInfo { kind: NumKind::U32, limit: NumLimit::Range { lo: 10, hi: 20 } };
    let mut seen = [false; 10];
    for _ in 0..10_000 {
        match gen_num(&info) {
            Value::Num(NumValue::Unsigned(n)) => {
                assert!(10 <= n && n < 20);
                seen[(n - 10) as usize] = true;
            }
            other => panic!("not an unsigned number: {:?}", other),
        }
    }
    assert!(seen.iter().all(|s| *s));
}

#[test]
fn listed_numbers_come_from_the_list() {
    let info = NumInfo { kind: NumKind::I64, limit: NumLimit::Vals(vec![-5, 7, 9]) };
    let mut seen = Vec::new();
    for _ in 0..1000 {
        match gen_num(&info) {
            Value::Num(NumValue::Signed(n)) => {
                assert!(n == -5 || n == 7 || n == 9);
                if !seen.contains(&n) {
                    seen.push(n);
                }
            }
            other => panic!("not a signed number: {:?}", other),
        }
    }
    assert_eq!(seen.len(), 3);
}

#[test]
fn any_number_has_the_width_of_its_kind() {
    let mut low = false;
    let mut high = false;
    for _ in 0..2000 {
        let n = random_of_kind(NumKind::I8);
        assert!(-128 <= n && n <= 127);
        low |= n < 0;
        high |= n > 0;
        let m = random_of_kind(NumKind::U16);
        assert!(0 <= m && m <= 65535);
    }
    assert!(low && high);
    let info = NumInfo { kind: NumKind::U8, limit: NumLimit::Any };
    for _ in 0..1000 {
        match gen_num(&info) {
            Value::Num(NumValue::Unsigned(n)) => assert!(n <= 255),
            other => panic!("not an unsigned number: {:?}", other),
        }
    }
}

#[test]
fn num_value_keeps_the_number() {
    assert_eq!(num_value(NumKind::I16, -300), NumValue::Signed(-300));
    assert_eq!(num_value(NumKind::Isize, 12), NumValue::Signed(12));
    assert_eq!(num_value(NumKind::U64, u64::MAX as i128), NumValue::Unsigned(u64::MAX));
    assert_eq!(num_value(NumKind::U8, 0), NumValue::Unsigned(0));
}

#[test]
fn flag_combination() {
    let flags = flags_abc();
    let mut within = 0;
    let mut zero = 0;
    for _ in 0..10_000 {
        match gen_flag(&flags) {
            Value::Num(NumValue::Signed(v)) => {
                if v & !(1 | 2 | 4) == 0 {
                    within += 1;
                    if v == 0 {
                        zero += 1;
                    }
                } else {
                    assert!(i32::MIN as i64 <= v && v <= i32::MAX as i64);
                }
            }
            other => panic!("not a signed number: {:?}", other),
        }
    }
    assert!(within >= 7800, "only {} of 10000 within the mask", within);
    assert!(zero > 0);
}

#[test]
fn combine_keeps_shared_bits() {
    assert_eq!(combine(&vec![6]), 6);
    assert_eq!(combine(&vec![6, 3]), 2);
    assert_eq!(combine(&vec![1, 2, 4]), 0);
    assert_eq!(combine(&vec![-1, 12, 10]), 8);
}

#[test]
fn filename_depth() {
    let conf = Config { path_max_depth: 3, ..Config::default() };
    let mut deepest = 0;
    for _ in 0..500 {
        let mut s = State::new(Prog::new(0), &conf);
        match gen_str(&StrType::FileName, &None, &mut s) {
            Value::Str(name) => {
                assert!(name.starts_with("./"));
                let seps = name.chars().filter(|c| *c == '/').count();
                assert!(1 <= seps && seps <= 3);
                assert!(is_file_name(&conf, &name));
                deepest = deepest.max(seps);
                assert_eq!(s.filenames, vec![name]);
            }
            other => panic!("not a string: {:?}", other),
        }
    }
    assert_eq!(deepest, 3);
}

#[test]
fn path_without_depth_has_one_segment() {
    for _ in 0..100 {
        let p = gen_path(5, 0);
        assert_eq!(p.len(), 7);
        assert!(is_alnum_text(&p[2..]));
        let q = gen_path(3, 1);
        assert_eq!(q.len(), 5);
    }
}

#[test]
fn string_lengths_come_from_the_config() {
    let conf = Config { str_min_len: 2, str_max_len: 5, ..Config::default() };
    let mut seen = [false; 3];
    for _ in 0..300 {
        let n = gen_str_len(&conf);
        assert!(2 <= n && n < 5);
        seen[n - 2] = true;
    }
    assert!(seen.iter().all(|s| *s));
}

#[test]
fn fresh_strings_are_recorded_and_taken_again() {
    let conf = Config::default();
    let mut s = State::new(Prog::new(0), &conf);
    let first = match gen_str(&StrType::Str, &None, &mut s) {
        Value::Str(text) => text,
        other => panic!("not a string: {:?}", other),
    };
    let n = first.chars().count();
    assert!(4 <= n && n < 128);
    assert_eq!(s.strs, vec![first.clone()]);
    let mut reused = false;
    for _ in 0..200 {
        let before = s.strs.len();
        match gen_str(&StrType::Str, &None, &mut s) {
            Value::Str(text) => {
                if s.strs.len() == before {
                    assert!(s.strs.contains(&text));
                    reused = true;
                } else {
                    assert_eq!(s.strs.len(), before + 1);
                    assert_eq!(s.strs[before], text);
                }
            }
            other => panic!("not a string: {:?}", other),
        }
    }
    assert!(reused);
    assert!(s.cstrs.is_empty() && s.filenames.is_empty());
}

#[test]
fn c_strings_are_taken_from_free_text() {
    let conf = Config::default();
    let mut s = State::new(Prog::new(0), &conf);
    let mut fresh = 0;
    for _ in 0..50 {
        match gen_str(&StrType::CStr, &None, &mut s) {
            Value::Str(text) => {
                assert!(is_alnum_text(&text));
                fresh += 1;
            }
            other => panic!("not a string: {:?}", other),
        }
    }
    assert_eq!(s.cstrs.len(), fresh);
    assert!(s.strs.is_empty());
    s.record_str(StrType::Str, "free text!");
    let mut reused = false;
    for _ in 0..200 {
        if gen_str(&StrType::CStr, &None, &mut s) == Value::Str(String::from("free text!")) {
            reused = true;
        }
    }
    assert!(reused);
}

#[test]
fn listed_strings_win() {
    let conf = Config::default();
    let mut s = State::new(Prog::new(0), &conf);
    let vals = Some(vec![String::from("alpha"), String::from("beta")]);
    let mut seen = [false; 2];
    for _ in 0..200 {
        match gen_str(&StrType::FileName, &vals, &mut s) {
            Value::Str(text) => {
                assert!(text == "alpha" || text == "beta");
                seen[if text == "alpha" { 0 } else { 1 }] = true;
            }
            other => panic!("not a string: {:?}", other),
        }
    }
    assert!(seen[0] && seen[1]);
    assert!(s.filenames.is_empty());
    let empty: Option<Vec<String>> = Some(vec![]);
    match gen_str(&StrType::FileName, &empty, &mut s) {
        Value::Str(text) => assert!(text.starts_with("./")),
        other => panic!("not a string: {:?}", other),
    }
}

#[test]
fn slice_lengths_respect_bounds() {
    let mut both_open = [false; 8];
    let mut upper_open = [false; 3];
    let mut closed = [false; 4];
    for _ in 0..2000 {
        let a = gen_slice_len(-1, -1);
        assert!(a < 8);
        both_open[a] = true;
        let b = gen_slice_len(3, -1);
        assert!(b < 3);
        upper_open[b] = true;
        let c = gen_slice_len(2, 6);
        assert!(2 <= c && c < 6);
        closed[c - 2] = true;
    }
    assert!(both_open.iter().all(|s| *s));
    assert!(upper_open.iter().all(|s| *s));
    assert!(closed.iter().all(|s| *s));
    assert_eq!(gen_slice_len(0, 1), 0);
}

#[test]
fn generated_programs_are_well_typed() {
    let (t, rs) = rich_target();
    let conf = Config::default();
    let mut same_call_ref = false;
    let mut earlier_ref = false;
    for _ in 0..3000 {
        let p = gen(&t, &rs, &conf);
        assert_eq!(p.gid, 0);
        assert!(1 <= p.calls.len() && p.calls.len() <= conf.prog_max_len + 5 - 1);
        assert!(prog_fits(&t, &conf, &p));
        for (k, c) in p.calls.iter().enumerate() {
            if c.fid == 103 {
                assert_eq!(c.args[0].val, Value::Default(4));
                match &c.args[1].val {
                    Value::Ref(idx) => {
                        assert!(idx.call <= k);
                        if idx.call == k {
                            assert_eq!(idx.pos, ArgPos::Arg(0));
                            same_call_ref = true;
                        } else {
                            earlier_ref = true;
                        }
                    }
                    other => panic!("a resource was in reach, got {:?}", other),
                }
            }
        }
    }
    assert!(same_call_ref && earlier_ref);
}

#[test]
fn programs_follow_their_plan() {
    let (t, _) = rich_target();
    let conf = Config::default();
    let seq = vec![0, 1, 3, 2, 0, 1];
    for _ in 0..200 {
        let p = gen_prog(&t, 0, &seq, &conf);
        assert_eq!(p.gid, 0);
        assert_eq!(p.calls.len(), seq.len());
        for (k, c) in p.calls.iter().enumerate() {
            assert_eq!(c.fid, 100 + seq[k]);
        }
        assert!(prog_fits(&t, &conf, &p));
        assert_eq!(p.calls[0].ret, Some(Arg { tid: 4, val: Value::Null }));
        match &p.calls[1].args[0].val {
            Value::Ref(idx) => assert_eq!(*idx, ArgIndex { call: 0, pos: ArgPos::Ret }),
            other => panic!("close must take the open before it, got {:?}", other),
        }
        match &p.calls[5].args[0].val {
            Value::Ref(idx) => {
                assert!(idx.call < 5);
                let slot_ok = match idx.pos {
                    ArgPos::Ret => p.calls[idx.call].fid == 100,
                    ArgPos::Arg(j) => p.calls[idx.call].fid == 103 && j == 0,
                };
                assert!(slot_ok);
            }
            other => panic!("close must take a handle, got {:?}", other),
        }
    }
    let none = gen_prog(&t, 0, &vec![], &conf);
    assert!(none.calls.is_empty());
}

fn chain_len(v: &Value) -> usize {
    match v {
        Value::Group(vals) => match vals.as_slice() {
            [_, Value::Null] => 1,
            [_, next] => 1 + chain_len(next),
            other => panic!("not a link: {:?}", other),
        },
        other => panic!("not a link: {:?}", other),
    }
}

#[test]
fn values_of_types_that_point_to_themselves_come_to_an_end() {
    let mut types = HashMap::new();
    types.insert(1, TypeInfo::Num(NumInfo { kind: NumKind::U8, limit: NumLimit::Any }));
    types.insert(
        2,
        TypeInfo::Struct { ident: String::from("link"), fields: vec![field("item", 1), field("next", 3)] },
    );
    types.insert(3, TypeInfo::Ptr { dir: PtrDir::In, tid: 2, depth: 1 });
    let fns = vec![func(0, "walk", vec![param("head", 2)], None)];
    let mut groups = HashMap::new();
    groups.insert(0, Group { id: 0, ident: String::from("lists"), fns });
    let t = Target { types, groups };
    assert!(t.validate());
    let conf = Config::default();
    let mut longest = 0;
    for _ in 0..300 {
        let p = gen_prog(&t, 0, &vec![0], &conf);
        assert!(prog_fits(&t, &conf, &p));
        let n = chain_len(&p.calls[0].args[0].val);
        assert!(n <= healer::state::PTR_DEPTH_MAX + 1);
        longest = longest.max(n);
    }
    assert!(longest > 5);
}

#[test]
fn every_group_gets_its_turn() {
    let f = FnInfo { id: 1, gid: 0, name: String::from("f"), params: vec![], r_tid: None };
    let h = FnInfo { id: 2, gid: 9, name: String::from("h"), params: vec![], r_tid: None };
    let mut groups = HashMap::new();
    groups.insert(0, Group { id: 0, ident: String::from("a"), fns: vec![f] });
    groups.insert(9, Group { id: 9, ident: String::from("b"), fns: vec![h] });
    let t = Target { types: HashMap::new(), groups };
    let mut rs = HashMap::new();
    rs.insert(0, RTable::from_cells(1, vec![Relation::No]).unwrap());
    rs.insert(9, RTable::from_cells(1, vec![Relation::Unknown]).unwrap());
    let conf = Config::default();
    let mut seen = [false; 2];
    for _ in 0..200 {
        let p = gen(&t, &rs, &conf);
        if p.gid == 0 {
            assert!(p.calls.iter().all(|c| c.fid == 1));
            seen[0] = true;
        } else {
            assert_eq!(p.gid, 9);
            assert!(p.calls.iter().all(|c| c.fid == 2));
            seen[1] = true;
        }
    }
    assert!(seen[0] && seen[1]);
}

#[test]
fn default_config() {
    let c = Config::default();
    assert_eq!(c.prog_max_len, 15);
    assert_eq!(c.prog_min_len, 3);
    assert_eq!(c.str_min_len, 4);
    assert_eq!(c.str_max_len, 128);
    assert_eq!(c.path_max_depth, 4);
}
