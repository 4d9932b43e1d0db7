//! The sixteen-key keypad state, filled in by the input collaborator and
//! handed to the interpreter before each cycle.

use vstd::prelude::*;

use crate::state::NUM_KEYS;

verus! {

/// The keypad: one pressed/released flag per key code 0x0..0xF.  Mapping
/// physical keys to these indices is the caller's business; this type only
/// holds the resulting vector.
pub struct Keyboard {
    keys: Vec<bool>,
}

impl View for Keyboard {
    type V = Seq<bool>;

    closed spec fn view(&self) -> Seq<bool> {
        self.keys@
    }
}

impl Keyboard {
    /// A keypad always holds exactly sixteen flags.
    pub open spec fn wf(&self) -> bool {
        self@.len() == NUM_KEYS
    }

    /// All keys start released.
    pub fn new() -> (kb: Keyboard)
        ensures
            kb.wf(),
            kb@ == Seq::new(NUM_KEYS as nat, |j: int| false),
    {
        let mut keys: Vec<bool> = Vec::new();
        while keys.len() < NUM_KEYS
            invariant
                keys@ == Seq::new(keys@.len(), |j: int| false),
                keys@.len() <= NUM_KEYS,
            decreases NUM_KEYS - keys.len(),
        {
            keys.push(false);
            proof {
                assert(keys@ =~= Seq::new(keys@.len(), |j: int| false));
            }
        }
        let kb = Keyboard { keys };
        proof {
            assert(kb@ =~= Seq::new(NUM_KEYS as nat, |j: int| false));
        }
        kb
    }

    /// Records one key going down or up.
    pub fn set_key_status(&mut self, key: usize, pressed: bool)
        requires
            old(self).wf(),
            key < NUM_KEYS,
        ensures
            final(self).wf(),
            final(self)@ == old(self)@.update(key as int, pressed),
    {
        self.keys.set(key, pressed);
    }

    /// The whole key vector, for handing to the interpreter.
    pub fn keys(&self) -> (r: &Vec<bool>)
        ensures
            r@ == self@,
    {
        &self.keys
    }
}

} // verus!
