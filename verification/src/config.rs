//! The knobs of generation.

use vstd::prelude::*;

verus! {

#[derive(Debug, Clone, Copy, PartialEq, Eq)]
pub struct Config {
    pub prog_max_len: usize,
    pub prog_min_len: usize,
    pub str_min_len: usize,
    pub str_max_len: usize,
    pub path_max_depth: usize,
}

impl Config {
    /// There is a string length to draw: lengths come from
    /// `str_min_len..str_max_len`.
    pub open spec fn wf(&self) -> bool {
        self.str_min_len < self.str_max_len
    }
}

impl Default for Config {
    fn default() -> (c: Self)
        ensures
            c == (Config {
                prog_max_len: 15,
                prog_min_len: 3,
                str_min_len: 4,
                str_max_len: 128,
                path_max_depth: 4,
            }),
    {
        Self {
            prog_max_len: 15,
            prog_min_len: 3,
            str_min_len: 4,
            str_max_len: 128,
            path_max_depth: 4,
        }
    }
}

} // verus!
