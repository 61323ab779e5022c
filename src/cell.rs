use vstd::prelude::*;

verus! {

/// A write-once slot: empty until its single successful `set`, then fixed.
pub struct ResultCell<T> {
    value: Option<T>,
}

/// A second write to a `ResultCell`; it carries back the value refused.
pub struct AlreadySet<T>(pub T);

impl<T> ResultCell<T> {
    /// What the cell holds, if it was written.
    pub closed spec fn view(&self) -> Option<T> {
        self.value
    }

    pub fn new() -> (r: Self)
        ensures
            r@ is None,
    {
        ResultCell { value: None }
    }

    /// Writes `v` if the cell is empty; otherwise the cell is left as it was
    /// and `v` comes back in the error.
    pub fn set(&mut self, v: T) -> (r: Result<(), AlreadySet<T>>)
        ensures
            old(self)@ is None ==> r is Ok && final(self)@ == Some(v),
            old(self)@ is Some ==> r == Err::<(), AlreadySet<T>>(AlreadySet(v)) && final(self)@
                == old(self)@,
    {
        if self.value.is_some() {
            Err(AlreadySet(v))
        } else {
            self.value = Some(v);
            Ok(())
        }
    }

    /// The written value, or `None` while the cell is still empty.
    pub fn get(&self) -> (r: Option<&T>)
        ensures
            r matches Some(x) ==> self@ == Some(*x),
            r is None <==> self@ is None,
    {
        match &self.value {
            Some(x) => Some(x),
            None => None,
        }
    }

    pub fn is_set(&self) -> (r: bool)
        ensures
            r == self@ is Some,
    {
        self.value.is_some()
    }
}

} // verus!
