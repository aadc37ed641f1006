//! A program as a translator rendered it: its statements as text.

use vstd::prelude::*;
use vstd::string::StringExecFns;

verus! {

/// The statements of a rendered program, in order.
#[derive(Debug, Clone, PartialEq, Eq)]
pub struct Script(pub Vec<String>);

/// The text of a script: each statement on a line of its own.
pub open spec fn script_text(stmts: Seq<String>) -> Seq<char>
    decreases stmts.len(),
{
    if stmts.len() == 0 {
        Seq::empty()
    } else {
        script_text(stmts.drop_last()) + stmts.last()@ + seq!['\n']
    }
}

impl Script {
    /// The whole script as one text.
    pub fn to_string(&self) -> (text: String)
        ensures
            text@ == script_text(self.0@),
    {
        let mut text = String::new();
        let mut i: usize = 0;
        proof {
            reveal_strlit("\n");
            assert("\n"@ =~= seq!['\n']);
            assert(self.0@.take(0) =~= Seq::<String>::empty());
        }
        while i < self.0.len()
            invariant
                0 <= i <= self.0@.len(),
                text@ == script_text(self.0@.take(i as int)),
                "\n"@ == seq!['\n'],
            decreases self.0@.len() - i,
        {
            proof {
                assert(self.0@.take(i + 1).drop_last() =~= self.0@.take(i as int));
                assert(self.0@.take(i + 1).last() == self.0@[i as int]);
            }
            text.append(self.0[i].as_str());
            text.append("\n");
            i += 1;
            assert(text@ =~= script_text(self.0@.take(i as int)));
        }
        assert(self.0@.take(i as int) =~= self.0@);
        text
    }

    /// The last statement.
    pub fn last(&self) -> (stmt: &String)
        requires
            self.0@.len() > 0,
        ensures
            *stmt == self.0@.last(),
    {
        &self.0[self.0.len() - 1]
    }
}

} // verus!
