//! The corpus: the programs that reached something new, and the programs
//! still waiting to be run.

use crate::prog::Prog;
use std::collections::VecDeque;
use vstd::prelude::*;

verus! {

/// The programs that reached something new, in the order they were added.
pub struct Corpus {
    pub progs: Vec<Prog>,
}

impl Corpus {
    pub fn new() -> (c: Self)
        ensures
            c.progs@ == Seq::<Prog>::empty(),
    {
        Self { progs: Vec::new() }
    }

    pub fn insert(&mut self, p: Prog)
        ensures
            final(self).progs@ == old(self).progs@.push(p),
    {
        self.progs.push(p);
    }

    pub fn len(&self) -> (n: usize)
        ensures
            n == self.progs@.len(),
    {
        self.progs.len()
    }

    pub fn is_empty(&self) -> (b: bool)
        ensures
            b == (self.progs@.len() == 0),
    {
        self.progs.len() == 0
    }
}

/// The programs waiting to be run: first in, first out.
pub struct CQueue {
    pub inner: VecDeque<Prog>,
}

impl CQueue {
    pub fn new() -> (q: Self)
        ensures
            q.inner@ == Seq::<Prog>::empty(),
    {
        Self { inner: VecDeque::new() }
    }

    /// The queue of `progs`, the first of them at its head.
    pub fn from(progs: Vec<Prog>) -> (q: Self)
        ensures
            q.inner@ == progs@,
    {
        let mut rest = progs;
        let mut inner: VecDeque<Prog> = VecDeque::new();
        while rest.len() > 0
            invariant
                rest@ + inner@ == progs@,
            decreases rest@.len(),
        {
            let ghost before = rest@;
            let ghost tail = inner@;
            let p = rest.pop().unwrap();
            inner.push_front(p);
            assert(rest@ + inner@ =~= before + tail) by {
                assert(before =~= rest@.push(p));
            }
        }
        assert(inner@ =~= progs@);
        Self { inner }
    }

    pub fn push(&mut self, p: Prog)
        ensures
            final(self).inner@ == old(self).inner@.push(p),
    {
        self.inner.push_back(p);
    }

    /// Takes the program at the head, where there is one.
    pub fn pop(&mut self) -> (p: Option<Prog>)
        ensures
            match p {
                Some(head) => {
                    &&& old(self).inner@.len() > 0
                    &&& head == old(self).inner@[0]
                    &&& final(self).inner@ == old(self).inner@.drop_first()
                },
                None => old(self).inner@.len() == 0 && final(self).inner@ == old(self).inner@,
            },
    {
        let p = self.inner.pop_front();
        proof {
            if p is Some {
                assert(self.inner@ =~= old(self).inner@.drop_first());
            }
        }
        p
    }

    pub fn len(&self) -> (n: usize)
        ensures
            n == self.inner@.len(),
    {
        self.inner.len()
    }

    pub fn is_empty(&self) -> (b: bool)
        ensures
            b == (self.inner@.len() == 0),
    {
        self.inner.len() == 0
    }
}

} // verus!
