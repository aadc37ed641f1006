use bitset_fixed::BitSet;
use healer::analyze::{RTable, Relation};
use healer::config::Config;
use healer::plan::{choose_seq, dep_chance, draw_row, is_dep, mark_all, pick_deps, push_deps};

fn table(side: usize, cells: Vec<Relation>) -> RTable {
    RTable::from_cells(side, cells).unwrap()
}

fn marks_match(set: &BitSet, seq: &[usize]) -> bool {
    (0..set.size()).all(|j| set[j] == seq.contains(&j))
}

#[test]
fn table_keeps_its_cells() {
    let cells = vec![
        Relation::No,
        Relation::Yes,
        Relation::Unknown,
        Relation::Yes,
        Relation::No,
        Relation::No,
        Relation::Unknown,
        Relation::Unknown,
        Relation::Yes,
    ];
    let rs = table(3, cells.clone());
    assert_eq!(rs.rows(), 3);
    assert!(!rs.is_empty());
    for i in 0..3 {
        assert_eq!(rs.row(i), cells[i * 3..i * 3 + 3].to_vec());
    }
}

#[test]
fn table_wants_a_full_square() {
    assert!(RTable::from_cells(2, vec![Relation::No; 3]).is_none());
    assert!(RTable::from_cells(2, vec![Relation::No; 5]).is_none());
    assert!(RTable::from_cells(usize::MAX, vec![Relation::No; 1]).is_none());
    assert!(RTable::from_cells(0, vec![Relation::No; 1]).is_none());
    let empty = RTable::from_cells(0, vec![]).unwrap();
    assert_eq!(empty.rows(), 0);
    assert!(empty.is_empty());
    assert_eq!(RTable::from_cells(1, vec![Relation::Yes]).unwrap().row(0), vec![Relation::Yes]);
}

#[test]
fn chances_by_relation() {
    assert_eq!(dep_chance(Relation::No, false), (0, 1));
    assert_eq!(dep_chance(Relation::No, true), (0, 1));
    assert_eq!(dep_chance(Relation::Yes, false), (3, 4));
    assert_eq!(dep_chance(Relation::Yes, true), (1, 4));
    assert_eq!(dep_chance(Relation::Unknown, false), (1, 2));
    assert_eq!(dep_chance(Relation::Unknown, true), (1, 8));
}

#[test]
fn a_row_picks_what_feeds_it_and_won_its_coin() {
    let row = vec![Relation::Yes, Relation::No, Relation::Unknown, Relation::Yes, Relation::No];
    assert_eq!(pick_deps(&row, &vec![true, true, true, false, false]), vec![0, 2]);
    assert_eq!(pick_deps(&row, &vec![false, true, false, true, true]), vec![3]);
    assert_eq!(pick_deps(&row, &vec![true; 5]), vec![0, 2, 3]);
    assert_eq!(pick_deps(&row, &vec![false; 5]), Vec::<usize>::new());
    assert_eq!(pick_deps(&row, &vec![true, true]), vec![0]);
    assert_eq!(pick_deps(&row, &vec![]), Vec::<usize>::new());
    assert_eq!(pick_deps(&vec![], &vec![true]), Vec::<usize>::new());
    assert!(is_dep(Relation::Yes) && is_dep(Relation::Unknown) && !is_dep(Relation::No));
}

#[test]
fn coins_are_drawn_cell_by_cell() {
    let row = vec![Relation::Yes, Relation::No, Relation::Unknown, Relation::No];
    let mut set = BitSet::new(4);
    set.set(2, true);
    let mut heads = [0usize; 4];
    for _ in 0..4000 {
        let coins = draw_row(&row, &set);
        assert_eq!(coins.len(), 4);
        for j in 0..4 {
            if coins[j] {
                heads[j] += 1;
            }
        }
    }
    assert_eq!(heads[1], 0);
    assert_eq!(heads[3], 0);
    assert!(2600 < heads[0] && heads[0] < 3400, "{} of 4000", heads[0]);
    assert!(300 < heads[2] && heads[2] < 700, "{} of 4000", heads[2]);
}

#[test]
fn marking_sets_the_bits_named() {
    let mut set = BitSet::new(6);
    set.set(1, true);
    mark_all(&mut set, &vec![4, 1, 0, 4]);
    let bits: Vec<bool> = (0..6).map(|j| set[j]).collect();
    assert_eq!(bits, vec![true, true, false, false, true, false]);
    mark_all(&mut set, &vec![]);
    assert_eq!((0..6).filter(|j| set[*j]).count(), 3);
}

fn ascending(items: &[usize]) -> bool {
    items.windows(2).all(|w| w[0] < w[1])
}

#[test]
fn rows_are_served_in_order_and_append_in_order() {
    let rs = table(4, vec![Relation::Yes; 16]);
    let one_row = Config { prog_max_len: 2, ..Config::default() };
    let mut widest = 0;
    for _ in 0..1000 {
        let mut set = BitSet::new(4);
        set.set(3, true);
        let mut seq = vec![3];
        push_deps(&rs, &mut set, &mut seq, 0, &one_row);
        assert_eq!(seq[0], 3);
        assert!(ascending(&seq[1..]), "{:?}", seq);
        widest = widest.max(seq.len());
    }
    assert_eq!(widest, 5);
    let two_rows = Config { prog_max_len: 3, ..Config::default() };
    let mut second = false;
    for _ in 0..2000 {
        let mut set = BitSet::new(4);
        set.set(3, true);
        let mut seq = vec![3];
        push_deps(&rs, &mut set, &mut seq, 0, &two_rows);
        assert!(seq.len() <= 3 - 1 + 4);
        if seq.len() > 2 {
            assert!(ascending(&seq[2..]), "{:?}", seq);
            if !ascending(&seq[1..]) {
                second = true;
            }
        }
    }
    assert!(second);
}

#[test]
fn unrelated_functions_are_never_appended() {
    let rs = table(3, vec![Relation::No; 9]);
    let conf = Config::default();
    for _ in 0..200 {
        let mut set = BitSet::new(3);
        set.set(1, true);
        let mut seq = vec![1];
        push_deps(&rs, &mut set, &mut seq, 0, &conf);
        assert_eq!(seq, vec![1]);
        assert!(marks_match(&set, &seq));
    }
}

#[test]
fn appended_functions_feed_an_earlier_one() {
    let cells = vec![
        Relation::No,
        Relation::Yes,
        Relation::No,
        Relation::No,
        Relation::No,
        Relation::No,
        Relation::Unknown,
        Relation::No,
        Relation::No,
        Relation::No,
        Relation::No,
        Relation::No,
        Relation::No,
        Relation::No,
        Relation::No,
        Relation::No,
    ];
    let rs = table(4, cells);
    let conf = Config::default();
    let mut grew = 0;
    let mut chained = 0;
    for _ in 0..500 {
        let mut set = BitSet::new(4);
        set.set(0, true);
        let mut seq = vec![0];
        push_deps(&rs, &mut set, &mut seq, 0, &conf);
        assert_eq!(seq[0], 0);
        assert!(marks_match(&set, &seq));
        for p in 1..seq.len() {
            assert!((0..p).any(|q| rs.row(seq[q])[seq[p]] != Relation::No));
        }
        match seq.len() {
            1 => {}
            2 => {
                assert_eq!(seq, vec![0, 1]);
                grew += 1;
            }
            3 => {
                assert_eq!(seq, vec![0, 1, 2]);
                chained += 1;
            }
            n => panic!("a plan of {} entries", n),
        }
    }
    assert!(grew > 0 && chained > 0);
}

#[test]
fn held_functions_come_again_less_often() {
    let rs = table(1, vec![Relation::Yes]);
    let conf = Config { prog_max_len: 2, ..Config::default() };
    let mut again = 0;
    for _ in 0..4000 {
        let mut set = BitSet::new(1);
        set.set(0, true);
        let mut seq = vec![0];
        push_deps(&rs, &mut set, &mut seq, 0, &conf);
        assert!(seq.len() == 1 || seq == vec![0, 0]);
        assert!(marks_match(&set, &seq));
        if seq.len() == 2 {
            again += 1;
        }
    }
    assert!(600 < again && again < 1400, "{} of 4000", again);
    let mut fresh = 0;
    let pair = table(2, vec![Relation::No, Relation::Yes, Relation::No, Relation::No]);
    for _ in 0..4000 {
        let mut set = BitSet::new(2);
        set.set(0, true);
        let mut seq = vec![0];
        push_deps(&pair, &mut set, &mut seq, 0, &conf);
        if seq.len() == 2 {
            assert_eq!(seq, vec![0, 1]);
            assert!(set[1]);
            fresh += 1;
        } else {
            assert!(!set[1]);
        }
    }
    assert!(2600 < fresh && fresh < 3400, "{} of 4000", fresh);
}

#[test]
fn marks_are_only_added() {
    let rs = table(3, vec![Relation::Yes; 9]);
    let conf = Config::default();
    for _ in 0..200 {
        let mut set = BitSet::new(3);
        set.set(2, true);
        let mut seq = vec![0];
        push_deps(&rs, &mut set, &mut seq, 0, &conf);
        assert_eq!(seq[0], 0);
        for j in 0..3 {
            assert_eq!(set[j], j == 2 || seq[1..].contains(&j));
        }
    }
}

#[test]
fn a_full_plan_is_left_alone() {
    let rs = table(2, vec![Relation::Yes; 4]);
    let conf = Config { prog_max_len: 2, ..Config::default() };
    for _ in 0..100 {
        let mut set = BitSet::new(2);
        set.set(0, true);
        set.set(1, true);
        let mut seq = vec![0, 1];
        push_deps(&rs, &mut set, &mut seq, 0, &conf);
        assert_eq!(seq, vec![0, 1]);
        let mut short = vec![0];
        let mut one = BitSet::new(2);
        one.set(0, true);
        push_deps(&rs, &mut one, &mut short, 1, &conf);
        assert_eq!(short, vec![0]);
    }
}

#[test]
fn plans_stay_within_their_cap() {
    let rs = table(4, vec![Relation::Yes; 16]);
    for max in [0usize, 1, 2, 5, 15] {
        let conf = Config { prog_max_len: max, ..Config::default() };
        let cap = max + 3;
        let mut longest = 0;
        for _ in 0..2000 {
            let seq = choose_seq(&rs, &conf);
            assert!(1 <= seq.len() && seq.len() <= cap);
            assert!(seq.iter().all(|i| *i < 4));
            longest = longest.max(seq.len());
        }
        assert!(longest > max, "no plan beyond {} for the limit {}", longest, max);
    }
    let single = table(1, vec![Relation::No]);
    let conf = Config { prog_max_len: 3, ..Config::default() };
    let mut lens = [false; 5];
    for _ in 0..2000 {
        let seq = choose_seq(&single, &conf);
        assert!(1 <= seq.len() && seq.len() <= 4);
        assert!(seq.iter().all(|i| *i == 0));
        lens[seq.len()] = true;
    }
    assert!(lens[1] && lens[2] && lens[3] && lens[4]);
}

#[test]
fn every_function_can_seed_a_plan() {
    let rs = table(3, vec![Relation::No; 9]);
    let conf = Config::default();
    let mut first = [false; 3];
    for _ in 0..300 {
        let seq = choose_seq(&rs, &conf);
        first[seq[0]] = true;
    }
    assert!(first.iter().all(|s| *s));
}
