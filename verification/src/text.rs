//! Strings: free text, C strings and file names, drawn afresh or taken
//! again from what the program already holds.

use crate::config::Config;
use crate::rng::{is_alnum, pick, random_alnum, random_ratio, random_text, uniform};
use crate::state::{texts, State};
use crate::types::StrType;
use crate::value::Value;
use vstd::prelude::*;
use vstd::string::StringExecFns;

verus! {

/// `s` is `.` followed by `depth` segments, each a `/` and `seg_len`
/// letters or digits.
pub open spec fn is_path(s: Seq<char>, seg_len: int, depth: int) -> bool
    decreases depth,
{
    if depth <= 0 {
        s == seq!['.']
    } else {
        let cut = s.len() - seg_len - 1;
        &&& cut >= 1
        &&& is_path(s.take(cut), seg_len, depth - 1)
        &&& s[cut] == '/'
        &&& forall|i: int| cut < i < s.len() ==> is_alnum(#[trigger] s[i])
    }
}

/// The greatest number of segments in a file name: `path_max_depth`, and
/// one where that is zero.
pub open spec fn depth_cap(conf: &Config) -> int {
    if conf.path_max_depth == 0 {
        1
    } else {
        conf.path_max_depth as int
    }
}

/// `s` is a file name that `conf` allows: a path of one segment at least and
/// `depth_cap(conf)` at most, all of one length out of
/// `str_min_len..str_max_len`.
pub open spec fn is_file_name(conf: &Config, s: Seq<char>) -> bool {
    exists|seg_len: int, depth: int|
        conf.str_min_len <= seg_len < conf.str_max_len && 1 <= depth <= depth_cap(conf)
            && #[trigger] is_path(s, seg_len, depth)
}

/// `s` counts as many characters as `conf` allows a string.
pub open spec fn len_ok(conf: &Config, s: Seq<char>) -> bool {
    conf.str_min_len <= s.len() < conf.str_max_len
}

/// `s` is made of letters and digits only.
pub open spec fn all_alnum(s: Seq<char>) -> bool {
    forall|i: int| 0 <= i < s.len() ==> is_alnum(#[trigger] s[i])
}

/// What a string drawn afresh under `kind` looks like.
pub open spec fn fresh_ok(conf: &Config, kind: StrType, s: Seq<char>) -> bool {
    match kind {
        StrType::Str => len_ok(conf, s),
        StrType::CStr => len_ok(conf, s) && all_alnum(s),
        StrType::FileName => is_file_name(conf, s),
    }
}

/// The pool that a string of `kind` is taken from again: its own, but for C
/// strings, which are taken from the pool of free text.
pub open spec fn reuse_pool(kind: StrType) -> StrType {
    match kind {
        StrType::CStr => StrType::Str,
        _ => kind,
    }
}

/// Every string that `s` holds looks as a fresh one of its pool would.
pub open spec fn pools_ok(s: &State) -> bool {
    forall|kind: StrType, i: int|
        0 <= i < s.pool(kind).len() ==> fresh_ok(s.conf, kind, #[trigger] s.pool(kind)[i])
}

/// A state with the strings of `before` holds them as well as `before`.
pub proof fn lemma_pools_kept(before: &State, after: &State)
    requires
        pools_ok(before),
        after.conf == before.conf,
        after.strs == before.strs,
        after.cstrs == before.cstrs,
        after.filenames == before.filenames,
    ensures
        pools_ok(after),
        after.keeps_pools(before),
{
    assert forall|kind: StrType| after.pool(kind) == before.pool(kind) by {}
    assert forall|kind: StrType, i: int| 0 <= i < after.pool(kind).len() implies fresh_ok(
        after.conf,
        kind,
        #[trigger] after.pool(kind)[i],
    ) by {
        assert(after.pool(kind) == before.pool(kind));
    }
}

/// `s` is a value of a string type of kind `kind` with the listed values
/// `vals`: one of the listed values where there are any, else a string as
/// the pool of `kind` holds them.
pub open spec fn str_ok(conf: &Config, kind: StrType, vals: Option<Vec<String>>, s: Seq<char>) -> bool {
    match vals {
        Some(list) if list@.len() > 0 => texts(list@).contains(s),
        _ => fresh_ok(conf, reuse_pool(kind), s) || fresh_ok(conf, kind, s),
    }
}

pub proof fn lemma_path_nonempty(s: Seq<char>, seg_len: int, depth: int)
    requires
        seg_len >= 0,
        is_path(s, seg_len, depth),
    ensures
        s.len() >= 1,
{
    if depth <= 0 {
        assert(s.len() == 1);
    }
}

/// A path stays a path when one more segment is appended.
pub proof fn lemma_path_push(p: Seq<char>, seg: Seq<char>, depth: int)
    requires
        depth >= 0,
        is_path(p, seg.len() as int, depth),
        all_alnum(seg),
    ensures
        is_path(p + seq!['/'] + seg, seg.len() as int, depth + 1),
{
    let s = p + seq!['/'] + seg;
    let cut = s.len() - seg.len() - 1;
    lemma_path_nonempty(p, seg.len() as int, depth);
    assert(cut == p.len());
    assert(s.take(cut) =~= p);
    assert forall|i: int| cut < i < s.len() implies is_alnum(#[trigger] s[i]) by {
        assert(s[i] == seg[i - cut - 1]);
    }
}

/// How many separators `s` holds.
pub open spec fn separators(s: Seq<char>) -> nat
    decreases s.len(),
{
    if s.len() == 0 {
        0
    } else {
        separators(s.drop_last()) + if s.last() == '/' {
            1nat
        } else {
            0nat
        }
    }
}

proof fn lemma_separators_tail(s: Seq<char>, cut: int)
    requires
        0 <= cut <= s.len(),
        forall|i: int| cut <= i < s.len() ==> is_alnum(#[trigger] s[i]),
    ensures
        separators(s) == separators(s.take(cut)),
    decreases s.len() - cut,
{
    if cut == s.len() {
        assert(s.take(cut) =~= s);
    } else {
        assert(is_alnum(s[s.len() - 1]));
        assert(s.drop_last().take(cut) =~= s.take(cut));
        lemma_separators_tail(s.drop_last(), cut);
    }
}

/// A path has as many separators as segments.
pub proof fn lemma_path_separators(s: Seq<char>, seg_len: int, depth: int)
    requires
        seg_len >= 0,
        depth >= 0,
        is_path(s, seg_len, depth),
    ensures
        separators(s) == depth,
    decreases depth,
{
    if depth == 0 {
        assert(s.len() == 1);
        assert(s.drop_last() =~= Seq::<char>::empty());
        assert(separators(s.drop_last()) == 0);
        assert(s.last() == '.');
    } else {
        let cut = s.len() - seg_len - 1;
        lemma_separators_tail(s, cut + 1);
        let head = s.take(cut + 1);
        assert(head.drop_last() =~= s.take(cut));
        assert(head.last() == '/');
        lemma_path_separators(s.take(cut), seg_len, depth - 1);
        assert(separators(head) == separators(head.drop_last()) + 1);
    }
}

/// A file name has one separator at least and `depth_cap(conf)` at most.
pub proof fn lemma_file_name_depth(conf: &Config, s: Seq<char>)
    requires
        is_file_name(conf, s),
    ensures
        1 <= separators(s) <= depth_cap(conf),
{
    let (seg_len, depth) = choose|seg_len: int, depth: int|
        conf.str_min_len <= seg_len < conf.str_max_len && 1 <= depth <= depth_cap(conf)
            && #[trigger] is_path(s, seg_len, depth);
    lemma_path_separators(s, seg_len, depth);
}

/// Draws a file name: `.` and one segment of `len` letters or digits, then,
/// while the depth is under `max_depth` and three times in five, one more.
pub fn gen_path(len: usize, max_depth: usize) -> (path: String)
    ensures
        exists|depth: int|
            1 <= depth && (depth <= max_depth || depth == 1) && #[trigger] is_path(
                path@,
                len as int,
                depth,
            ),
{
    let mut path = String::from_str(".");
    let first = random_alnum(len);
    proof {
        reveal_strlit(".");
        reveal_strlit("/");
        assert(path@ =~= seq!['.']);
        assert("/"@ =~= seq!['/']);
        lemma_path_push(path@, first@, 0);
    }
    path.append("/");
    path.append(first.as_str());
    let mut depth: usize = 1;
    while depth < max_depth && random_ratio(3, 5)
        invariant
            1 <= depth,
            depth <= max_depth || depth == 1,
            is_path(path@, len as int, depth as int),
            "/"@ == seq!['/'],
        decreases max_depth - depth,
    {
        let sub_path = random_alnum(len);
        proof {
            lemma_path_push(path@, sub_path@, depth as int);
        }
        path.append("/");
        path.append(sub_path.as_str());
        depth += 1;
    }
    path
}

/// Draws a string length out of `str_min_len..str_max_len`.
pub fn gen_str_len(conf: &Config) -> (len: usize)
    requires
        conf.wf(),
    ensures
        conf.str_min_len <= len < conf.str_max_len,
{
    uniform(conf.str_min_len as i128, conf.str_max_len as i128) as usize
}

/// Draws a value for a string type. One of the listed values where the type
/// lists any. Otherwise a string that the program already holds, where the
/// coin of `State::try_reuse_str` says so, or a fresh one: any characters
/// for free text, letters and digits for a C string, a path for a file
/// name. A fresh string is recorded under its kind; a C string is taken
/// again from the pool of free text.
pub fn gen_str(str_type: &StrType, vals: &Option<Vec<String>>, s: &mut State) -> (v: Value)
    requires
        old(s).conf.wf(),
        pools_ok(old(s)),
    ensures
        v matches Value::Str(text) && str_ok(old(s).conf, *str_type, *vals, text@) && {
            ||| final(s).keeps_pools(old(s)) && (vals matches Some(list) && list@.len() > 0
                || old(s).pool(reuse_pool(*str_type)).contains(text@))
            ||| final(s).pool(*str_type) == old(s).pool(*str_type).push(text@) && fresh_ok(
                old(s).conf,
                *str_type,
                text@,
            ) && forall|other: StrType|
                other != *str_type ==> final(s).pool(other) == old(s).pool(other)
        },
        final(s).prog == old(s).prog,
        final(s).conf == old(s).conf,
        final(s).depth_left == old(s).depth_left,
        final(s).res == old(s).res,
        pools_ok(final(s)),
{
    if let Some(list) = vals {
        if list.len() > 0 {
            let text = pick(list.as_slice());
            proof {
                let i = choose|i: int| 0 <= i < list@.len() && list@[i] == *text;
                assert(texts(list@)[i] == text@);
            }
            return Value::Str(text.clone());
        }
    }
    let len = gen_str_len(s.conf);
    match str_type {
        StrType::Str => {
            if let Some(v) = s.try_reuse_str(StrType::Str) {
                return v;
            }
            let val = random_text(len);
            s.record_str(StrType::Str, val.as_str());
            Value::Str(val)
        },
        StrType::CStr => {
            if let Some(v) = s.try_reuse_str(StrType::Str) {
                return v;
            }
            let val = random_alnum(len);
            s.record_str(StrType::CStr, val.as_str());
            Value::Str(val)
        },
        StrType::FileName => {
            if let Some(v) = s.try_reuse_str(StrType::FileName) {
                return v;
            }
            let val = gen_path(len, s.conf.path_max_depth);
            s.record_str(StrType::FileName, val.as_str());
            Value::Str(val)
        },
    }
}

} // verus!
