//! Planning: which functions a program calls, and in what order.

use crate::analyze::{RTable, Relation};
use crate::config::Config;
use crate::rng::{random, random_ratio, uniform};
use bitset_fixed::BitSet;
use vstd::prelude::*;

verus! {

#[verifier::external_type_specification]
#[verifier::external_body]
pub struct ExBitSet(BitSet);

/// The bits of a bit set, from index 0.
pub uninterp spec fn bitset_bits(set: BitSet) -> Seq<bool>;

/// `BitSet::new` gives `size` bits, all clear. It rounds `size` up to whole
/// words, which must not overflow.
pub assume_specification[ BitSet::new ](size: usize) -> (set: BitSet)
    requires
        size + 63 <= usize::MAX,
    ensures
        bitset_bits(set) == Seq::new(size as nat, |i: int| false),
;

/// `BitSet::set` gives bit `i` the value `b` and leaves the others; it
/// panics past the last bit.
pub assume_specification[ BitSet::set ](set: &mut BitSet, i: usize, b: bool)
    requires
        i < bitset_bits(*old(set)).len(),
    ensures
        bitset_bits(*final(set)) == bitset_bits(*old(set)).update(i as int, b),
;

/// Reads bit `index` (the `Index` impl of `BitSet`, which panics past the
/// last bit).
#[verifier::external_body]
fn bit_at(set: &BitSet, index: usize) -> (b: bool)
    requires
        index < bitset_bits(*set).len(),
    ensures
        b == bitset_bits(*set)[index as int],
{
    set[index]
}

/// With what odds, as numerator and denominator, a function is appended
/// that stands in relation `r` to the one being served, given whether the
/// plan holds it already.
pub open spec fn chance_of(r: Relation, visited: bool) -> (u32, u32) {
    match r {
        Relation::No => (0, 1),
        Relation::Yes => if visited {
            (1, 4)
        } else {
            (3, 4)
        },
        Relation::Unknown => if visited {
            (1, 8)
        } else {
            (1, 2)
        },
    }
}

pub fn dep_chance(r: Relation, visited: bool) -> (odds: (u32, u32))
    ensures
        odds == chance_of(r, visited),
{
    match r {
        Relation::No => (0, 1),
        Relation::Yes => if visited {
            (1, 4)
        } else {
            (3, 4)
        },
        Relation::Unknown => if visited {
            (1, 8)
        } else {
            (1, 2)
        },
    }
}

/// `set` and `seq` fit the table `rs`: the set has a bit for each function,
/// and the plan names functions only.
pub open spec fn fits(rs: &RTable, set: BitSet, seq: Seq<usize>) -> bool {
    &&& bitset_bits(set).len() == rs@.len()
    &&& forall|k: int| 0 <= k < seq.len() ==> #[trigger] seq[k] < rs@.len()
}

/// A bit of `set` is set exactly where `seq` names its function.
pub open spec fn marked(set: BitSet, seq: Seq<usize>) -> bool {
    forall|j: int|
        0 <= j < bitset_bits(set).len() ==> (#[trigger] bitset_bits(set)[j] <==> seq.contains(
            j as usize,
        ))
}

/// The bits of `after` are those of `before` and those of the functions
/// that `added` names.
pub open spec fn marks_added(before: BitSet, after: BitSet, added: Seq<usize>) -> bool {
    &&& bitset_bits(after).len() == bitset_bits(before).len()
    &&& forall|j: int|
        0 <= j < bitset_bits(before).len() ==> (#[trigger] bitset_bits(after)[j] <==> bitset_bits(
            before,
        )[j] || added.contains(j as usize))
}

/// The entry of `seq` at `p` was appended on behalf of an entry at `from` or
/// later: some such entry before `p` names a function that, by `rs`, the
/// function at `p` may feed.
pub open spec fn served(rs: &RTable, seq: Seq<usize>, from: int, p: int) -> bool {
    exists|q: int| from <= q < p && #[trigger] rs@[seq[q] as int][seq[p] as int] != Relation::No
}

/// The longest that a plan gets: a seed can be appended while the plan is no
/// longer than `prog_max_len`, and one row of dependencies while it is
/// shorter.
pub open spec fn plan_cap(rs: &RTable, conf: &Config) -> int {
    if rs@.len() <= 2 {
        conf.prog_max_len + 1
    } else {
        conf.prog_max_len + rs@.len() - 1
    }
}

/// The functions among the first `n` that a row appends for the coins
/// drawn, in order: those that may feed the function of the row and whose
/// coin came up.
pub open spec fn picks_upto(row: Seq<Relation>, coins: Seq<bool>, n: int) -> Seq<usize>
    decreases n,
{
    if n <= 0 {
        Seq::empty()
    } else {
        let before = picks_upto(row, coins, n - 1);
        if n <= row.len() && n <= coins.len() && row[n - 1] != Relation::No && coins[n - 1] {
            before.push((n - 1) as usize)
        } else {
            before
        }
    }
}

/// The functions that a row appends for the coins drawn, one coin for each
/// cell.
pub open spec fn row_picks(row: Seq<Relation>, coins: Seq<bool>) -> Seq<usize> {
    picks_upto(row, coins, row.len() as int)
}

/// The plan that serving `seq` from position `i` on leaves, where `coins`
/// holds the coins drawn for one row after the other: the functions that a
/// row picks are appended, and the next position is served, up to the end
/// of the plan, or until the plan has reached `max`.
pub open spec fn serve(rs: &RTable, seq: Seq<usize>, i: int, max: int, coins: Seq<Seq<bool>>) -> Seq<
    usize,
>
    decreases coins.len(),
{
    if i < 0 || i >= seq.len() || seq.len() >= max || coins.len() == 0 {
        seq
    } else {
        serve(
            rs,
            seq + row_picks(rs@[seq[i] as int], coins[0]),
            i + 1,
            max,
            coins.drop_first(),
        )
    }
}

/// `after` is what serving `before` from position `i` on leaves for some
/// coins, enough of them to serve every position that is to be served.
pub open spec fn closes(rs: &RTable, before: Seq<usize>, after: Seq<usize>, i: int, max: int) -> bool {
    exists|coins: Seq<Seq<bool>>|
        after == #[trigger] serve(rs, before, i, max, coins) && (i + coins.len() >= after.len()
            || after.len() >= max)
}

/// What a row picks are functions of the row that may feed it, each once
/// and in order, and their coins came up.
pub proof fn lemma_picks(row: Seq<Relation>, coins: Seq<bool>, n: int)
    requires
        0 <= n <= row.len() <= usize::MAX,
    ensures
        picks_upto(row, coins, n).len() <= n,
        forall|k: int|
            0 <= k < picks_upto(row, coins, n).len() ==> {
                let j = #[trigger] picks_upto(row, coins, n)[k];
                j < n && j < coins.len() && row[j as int] != Relation::No && coins[j as int]
            },
        forall|k: int, m: int|
            0 <= k < m < picks_upto(row, coins, n).len() ==> picks_upto(row, coins, n)[k]
                < picks_upto(row, coins, n)[m],
    decreases n,
{
    if n > 0 {
        lemma_picks(row, coins, n - 1);
        let before = picks_upto(row, coins, n - 1);
        let now = picks_upto(row, coins, n);
        assert forall|k: int| 0 <= k < now.len() implies {
            let j = #[trigger] now[k];
            j < n && j < coins.len() && row[j as int] != Relation::No && coins[j as int]
        } by {
            if k < before.len() {
                assert(now[k] == before[k]);
            }
        }
        assert forall|k: int, m: int| 0 <= k < m < now.len() implies now[k] < now[m] by {
            assert(now[k] == before[k]);
            if m < before.len() {
                assert(now[m] == before[m]);
            }
        }
    }
}

/// The functions that the row `row` appends for the coins `coins`.
pub fn pick_deps(row: &Vec<Relation>, coins: &Vec<bool>) -> (deps: Vec<usize>)
    ensures
        deps@ == row_picks(row@, coins@),
{
    let mut deps: Vec<usize> = Vec::new();
    let mut j: usize = 0;
    while j < row.len()
        invariant
            0 <= j <= row@.len(),
            deps@ == picks_upto(row@, coins@, j as int),
        decreases row@.len() - j,
    {
        if j < coins.len() && coins[j] && is_dep(row[j]) {
            deps.push(j);
        }
        j += 1;
    }
    deps
}

/// Whether a function in relation `r` to another may feed it.
pub fn is_dep(r: Relation) -> (b: bool)
    ensures
        b == (r != Relation::No),
{
    match r {
        Relation::No => false,
        _ => true,
    }
}

/// Draws one coin for each cell of `row`: with the odds of `dep_chance` for
/// the relation of the cell and for whether `set` holds its function, and
/// no coin, which counts as tails, where the odds are nil.
pub fn draw_row(row: &Vec<Relation>, set: &BitSet) -> (coins: Vec<bool>)
    requires
        row@.len() <= bitset_bits(*set).len(),
    ensures
        coins@.len() == row@.len(),
        forall|j: int| 0 <= j < row@.len() && #[trigger] coins@[j] ==> row@[j] != Relation::No,
{
    let mut coins: Vec<bool> = Vec::new();
    let mut j: usize = 0;
    while j < row.len()
        invariant
            0 <= j <= row@.len(),
            row@.len() <= bitset_bits(*set).len(),
            coins@.len() == j,
            forall|k: int| 0 <= k < j && #[trigger] coins@[k] ==> row@[k] != Relation::No,
        decreases row@.len() - j,
    {
        let visited = bit_at(set, j);
        let (numerator, denominator) = dep_chance(row[j], visited);
        let coin = numerator > 0 && random_ratio(numerator, denominator);
        coins.push(coin);
        j += 1;
    }
    coins
}

/// Sets the bit of each function that `deps` names.
pub fn mark_all(set: &mut BitSet, deps: &Vec<usize>)
    requires
        bitset_bits(*old(set)).len() <= usize::MAX,
        forall|k: int| 0 <= k < deps@.len() ==> #[trigger] deps@[k] < bitset_bits(*old(set)).len(),
    ensures
        marks_added(*old(set), *final(set), deps@),
{
    let mut k: usize = 0;
    assert(deps@.take(0) =~= Seq::<usize>::empty());
    while k < deps.len()
        invariant
            0 <= k <= deps@.len(),
            bitset_bits(*old(set)).len() <= usize::MAX,
            forall|m: int| 0 <= m < deps@.len() ==> #[trigger] deps@[m] < bitset_bits(*old(set)).len(),
            marks_added(*old(set), *set, deps@.take(k as int)),
        decreases deps@.len() - k,
    {
        let ghost done = deps@.take(k as int);
        let ghost before = *set;
        set.set(deps[k], true);
        proof {
            let now = deps@.take(k + 1);
            assert(now =~= done.push(deps@[k as int]));
            lemma_push_contains(done, deps@[k as int]);
            assert forall|x: int| 0 <= x < bitset_bits(*old(set)).len() implies (#[trigger] bitset_bits(
                *set,
            )[x] <==> bitset_bits(*old(set))[x] || now.contains(x as usize)) by {
                assert(bitset_bits(before)[x] <==> bitset_bits(*old(set))[x] || done.contains(
                    x as usize,
                ));
            }
        }
        k += 1;
    }
    assert(deps@.take(k as int) =~= deps@);
}

/// Serves the entries of `seq` from position `i` on: for each, goes through
/// the functions that may feed it and appends them by chance, a new one
/// more readily than one that the plan holds already. Stops at the end of
/// the plan, or when the plan has reached `prog_max_len`.
pub fn push_deps(rs: &RTable, set: &mut BitSet, seq: &mut Vec<usize>, i: usize, conf: &Config)
    requires
        rs.is_square(),
        fits(rs, *old(set), old(seq)@),
    ensures
        closes(rs, old(seq)@, final(seq)@, i as int, conf.prog_max_len as int),
        fits(rs, *final(set), final(seq)@),
        old(seq)@.is_prefix_of(final(seq)@),
        marks_added(*old(set), *final(set), final(seq)@.skip(old(seq)@.len() as int)),
        i >= old(seq)@.len() || old(seq)@.len() >= conf.prog_max_len ==> final(seq)@ == old(seq)@,
        final(seq)@.len() <= old(seq)@.len() || final(seq)@.len() <= conf.prog_max_len - 1
            + rs@.len(),
        forall|p: int| old(seq)@.len() <= p < final(seq)@.len() ==> served(rs, final(seq)@, i as int, p),
    decreases conf.prog_max_len - i,
{
    let ghost max = conf.prog_max_len as int;
    if i >= seq.len() || seq.len() >= conf.prog_max_len {
        proof {
            assert(seq@.skip(seq@.len() as int) =~= Seq::<usize>::empty());
            let none = Seq::<Seq<bool>>::empty();
            assert(seq@ == serve(rs, seq@, i as int, max, none));
        }
        return ;
    }
    let index = seq[i];
    let row = rs.row(index);
    let coins = draw_row(&row, set);
    let mut deps = pick_deps(&row, &coins);
    proof {
        lemma_picks(row@, coins@, row@.len() as int);
    }
    mark_all(set, &deps);
    let ghost added = deps@;
    let ghost start = seq@.len();
    let ghost marks = *set;
    seq.append(&mut deps);
    proof {
        assert(seq@ =~= old(seq)@ + added);
        assert forall|p: int| start <= p < seq@.len() implies served(rs, seq@, i as int, p) by {
            assert(seq@[p] == added[p - start]);
            assert(rs@[seq@[i as int] as int][seq@[p] as int] != Relation::No);
        }
    }
    let ghost mid = seq@;
    push_deps(rs, set, seq, i + 1, conf);
    proof {
        let tail = choose|tail: Seq<Seq<bool>>|
            seq@ == #[trigger] serve(rs, mid, i + 1, max, tail) && (i + 1 + tail.len() >= seq@.len()
                || seq@.len() >= max);
        let all_coins = seq![coins@] + tail;
        assert(all_coins[0] == coins@);
        assert(all_coins.drop_first() =~= tail);
        assert(mid == old(seq)@ + row_picks(rs@[old(seq)@[i as int] as int], all_coins[0]));
        assert(seq@ == serve(rs, old(seq)@, i as int, max, all_coins));
        let rest = seq@.skip(mid.len() as int);
        let all = seq@.skip(start as int);
        assert(all =~= added + rest) by {
            assert forall|k: int| 0 <= k < all.len() implies all[k] == (added + rest)[k] by {
                if k < added.len() {
                    assert(seq@[start + k] == mid[start + k]);
                }
            }
        }
        lemma_concat_contains(added, rest);
        assert forall|x: int| 0 <= x < bitset_bits(*old(set)).len() implies (#[trigger] bitset_bits(
            *set,
        )[x] <==> bitset_bits(*old(set))[x] || all.contains(x as usize)) by {
            assert(bitset_bits(marks)[x] <==> bitset_bits(*old(set))[x] || added.contains(
                x as usize,
            ));
        }
        assert forall|p: int| old(seq)@.len() <= p < seq@.len() implies served(
            rs,
            seq@,
            i as int,
            p,
        ) by {
            if p < mid.len() {
                assert(served(rs, mid, i as int, p));
                let q = choose|q: int|
                    i <= q < p && #[trigger] rs@[mid[q] as int][mid[p] as int] != Relation::No;
                assert(rs@[seq@[q] as int][seq@[p] as int] != Relation::No);
            } else {
                assert(served(rs, seq@, i + 1, p));
                let q = choose|q: int|
                    i + 1 <= q < p && #[trigger] rs@[seq@[q] as int][seq@[p] as int]
                        != Relation::No;
                assert(rs@[seq@[q] as int][seq@[p] as int] != Relation::No);
            }
        }
    }
}

/// What a sequence holds after a push: what it held, and the new item.
proof fn lemma_push_contains(s: Seq<usize>, x: usize)
    ensures
        forall|y: usize| s.push(x).contains(y) <==> s.contains(y) || y == x,
{
    assert forall|y: usize| s.push(x).contains(y) <==> s.contains(y) || y == x by {
        if s.contains(y) {
            let w = choose|w: int| 0 <= w < s.len() && s[w] == y;
            assert(s.push(x)[w] == y);
        }
        if y == x {
            assert(s.push(x)[s.len() as int] == y);
        }
        if s.push(x).contains(y) {
            let w = choose|w: int| 0 <= w < s.push(x).len() && s.push(x)[w] == y;
            if w < s.len() {
                assert(s[w] == y);
            }
        }
    }
}

/// What two sequences hold together: what either holds.
proof fn lemma_concat_contains(a: Seq<usize>, b: Seq<usize>)
    ensures
        forall|y: usize| (a + b).contains(y) <==> a.contains(y) || b.contains(y),
{
    assert forall|y: usize| (a + b).contains(y) <==> a.contains(y) || b.contains(y) by {
        if a.contains(y) {
            let w = choose|w: int| 0 <= w < a.len() && a[w] == y;
            assert((a + b)[w] == y);
        }
        if b.contains(y) {
            let w = choose|w: int| 0 <= w < b.len() && b[w] == y;
            assert((a + b)[a.len() + w] == y);
        }
        if (a + b).contains(y) {
            let w = choose|w: int| 0 <= w < (a + b).len() && (a + b)[w] == y;
            if w < a.len() {
                assert(a[w] == y);
            } else {
                assert(b[w - a.len()] == y);
            }
        }
    }
}

/// Plans a program over the functions of `rs`: appends a function drawn at
/// random and serves it with `push_deps`, and goes on so while the plan is
/// no longer than `prog_max_len` and a fair coin says so.
pub fn choose_seq(rs: &RTable, conf: &Config) -> (seq: Vec<usize>)
    requires
        rs.is_square(),
        rs@.len() > 0,
        rs@.len() + 63 <= usize::MAX,
    ensures
        1 <= seq@.len() <= plan_cap(rs, conf),
        forall|k: int| 0 <= k < seq@.len() ==> #[trigger] seq@[k] < rs@.len(),
{
    let side = rs.rows();
    let mut set = BitSet::new(side);
    let mut seq: Vec<usize> = Vec::new();
    loop
        invariant_except_break
            seq@.len() <= conf.prog_max_len,
        invariant
            rs.is_square(),
            side == rs@.len(),
            side > 0,
            fits(rs, set, seq@),
            marked(set, seq@),
            seq@.len() <= plan_cap(rs, conf),
        ensures
            1 <= seq@.len(),
        decreases conf.prog_max_len + 1 - seq@.len(),
    {
        let index = uniform(0, side as i128) as usize;
        let ghost before = seq@;
        let ghost before_set = set;
        set.set(index, true);
        seq.push(index);
        proof {
            lemma_push_contains(before, index);
            assert forall|x: int| 0 <= x < bitset_bits(set).len() implies (#[trigger] bitset_bits(
                set,
            )[x] <==> seq@.contains(x as usize)) by {
                assert(bitset_bits(before_set)[x] <==> before.contains(x as usize));
            }
        }
        let i = seq.len() - 1;
        let ghost seeded = seq@;
        let ghost seeded_set = set;
        push_deps(rs, &mut set, &mut seq, i, conf);
        proof {
            let added = seq@.skip(seeded.len() as int);
            assert(seq@ =~= seeded + added);
            lemma_concat_contains(seeded, added);
            assert forall|x: int| 0 <= x < bitset_bits(set).len() implies (#[trigger] bitset_bits(
                set,
            )[x] <==> seq@.contains(x as usize)) by {
                assert(bitset_bits(seeded_set)[x] <==> seeded.contains(x as usize));
            }
        }
        if seq.len() <= conf.prog_max_len && random::<bool>() {
            continue ;
        } else {
            break ;
        }
    }
    seq
}

} // verus!
