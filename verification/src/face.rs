//! The subject categories that a request can name.

use vstd::prelude::*;

verus! {

/// A facial expression: the category a classification request asks about.
///
/// Each category is served by its own inference subprocess, so the category is
/// the key under which sessions are created and looked up.
#[derive(Clone, Copy, Debug, PartialEq, Eq, Hash, Structural)]
pub enum Expression {
    Anger,
    Happiness,
}

impl Expression {
    /// The category's name, as the bytes that appear on the wire:
    /// `Anger` or `Happiness` in ASCII.
    pub open spec fn spec_name(self) -> Seq<u8> {
        match self {
            Expression::Anger => seq![65u8, 110u8, 103u8, 101u8, 114u8],
            Expression::Happiness => seq![
                72u8,
                97u8,
                112u8,
                112u8,
                105u8,
                110u8,
                101u8,
                115u8,
                115u8,
            ],
        }
    }

    /// Build the category's wire name.
    pub fn name_bytes(&self) -> (name: Vec<u8>)
        ensures
            name@ == self.spec_name(),
    {
        let mut name: Vec<u8> = Vec::new();
        match self {
            Expression::Anger => {
                name.push(65);
                name.push(110);
                name.push(103);
                name.push(101);
                name.push(114);
            },
            Expression::Happiness => {
                name.push(72);
                name.push(97);
                name.push(112);
                name.push(112);
                name.push(105);
                name.push(110);
                name.push(101);
                name.push(115);
                name.push(115);
            },
        }
        proof {
            assert(name@ =~= self.spec_name());
        }
        name
    }
}

} // verus!
