//! The numbers by which tasks are known.

use vstd::prelude::*;

verus! {

/// Numbers for tasks, each of which is handed out once.
pub struct Numbering {
    next: u64,
}

impl View for Numbering {
    type V = nat;

    /// How many numbers were handed out: all that are less than this.
    closed spec fn view(&self) -> nat {
        self.next as nat
    }
}

impl Default for Numbering {
    /// No number is handed out yet.
    fn default() -> (numbers: Numbering)
        ensures
            numbers@ == 0,
    {
        Numbering { next: 0 }
    }
}

impl Numbering {
    /// All numbers below the next one were handed out.
    proof fn law_numbers_are_handed_out_in_order(self)
        ensures
            self@ == self.next,
    {
    }

    /// Hands out the next number, until there is none left.
    pub fn draw(&mut self) -> (number: Option<u64>)
        ensures
            match number {
                Some(n) => n == old(self)@ && final(self)@ == old(self)@ + 1,
                None => old(self)@ == u64::MAX && final(self)@ == old(self)@,
            },
    {
        if self.next == u64::MAX {
            return None;
        }
        let number: u64 = self.next;
        self.next = number + 1;
        Some(number)
    }
}

} // verus!
