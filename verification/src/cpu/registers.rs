use vstd::prelude::*;

verus! {

/// A CPU register that can be read and written.
pub trait Register {
    fn read(&self) -> u64;

    fn write(&mut self, value: u64);
}

} // verus!
