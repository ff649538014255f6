//! Values that change at heights, and can be rolled back.

use vstd::prelude::*;

use crate::bytes::to_vec;

verus! {

/// A value and the height at which it was set.
#[derive(Debug, PartialEq, Eq)]
pub struct HeightStamped<T> {
    pub value: T,
    pub height: u32,
}

impl<T: Copy> Clone for HeightStamped<T> {
    fn clone(&self) -> (r: Self)
        ensures
            r == *self,
    {
        *self
    }
}

impl<T: Copy> Copy for HeightStamped<T> {

}

/// The values that something had, the latest last. There is always one.
#[derive(Debug, PartialEq, Eq)]
pub struct RollBack<T> {
    earlier: Vec<HeightStamped<T>>,
    last: HeightStamped<T>,
}

impl<T> View for RollBack<T> {
    type V = Seq<HeightStamped<T>>;

    closed spec fn view(&self) -> Seq<HeightStamped<T>> {
        self.earlier@.push(self.last)
    }
}

impl<T: Copy> RollBack<T> {
    pub fn duplicate(&self) -> (r: Self)
        ensures
            r@ == self@,
    {
        RollBack { earlier: to_vec(self.earlier.as_slice()), last: self.last }
    }

    pub fn new(value: T, height: u32) -> (r: Self)
        ensures
            r@ == seq![HeightStamped { value, height }],
    {
        let r = RollBack { earlier: Vec::new(), last: HeightStamped { value, height } };
        assert(r@ =~= seq![HeightStamped { value, height }]);
        r
    }

    pub fn latest(&self) -> (r: HeightStamped<T>)
        ensures
            self@.len() > 0,
            r == self@.last(),
    {
        self.last
    }

    pub fn len(&self) -> (r: usize)
        requires
            self@.len() <= usize::MAX,
        ensures
            r == self@.len(),
    {
        self.earlier.len() + 1
    }

    /// Sets a value at a height that is not below that of the latest.
    pub fn push(&mut self, value: T, height: u32) -> (r: Result<(), T>)
        ensures
            if height >= old(self)@.last().height {
                r is Ok && final(self)@ == old(self)@.push(HeightStamped { value, height })
            } else {
                r == Err::<(), T>(value) && *final(self) == *old(self)
            },
    {
        if self.last.height > height {
            return Err(value);
        }
        self.earlier.push(self.last);
        self.last = HeightStamped { value, height };
        Ok(())
    }

    /// Takes the latest value off. Nothing is left if it was the only one.
    pub fn pop(self) -> (r: (Option<Self>, HeightStamped<T>))
        ensures
            self@.len() > 0,
            r.1 == self@.last(),
            match r.0 {
                Some(rest) => self@.len() > 1 && rest@ == self@.drop_last(),
                None => self@.len() == 1,
            },
    {
        let mut earlier = self.earlier;
        let last = self.last;
        match earlier.pop() {
            Some(before) => {
                let rest = RollBack { earlier, last: before };
                proof {
                    assert(self@.drop_last() =~= self.earlier@);
                    assert(rest@ =~= self.earlier@);
                }
                (Some(rest), last)
            },
            None => (None, last),
        }
    }

    /// The value at place `i`, the earliest being at zero.
    pub fn get(&self, i: usize) -> (r: HeightStamped<T>)
        requires
            i < self@.len(),
        ensures
            r == self@[i as int],
    {
        if i < self.earlier.len() {
            self.earlier[i]
        } else {
            self.last
        }
    }

    pub fn count_earlier(&self) -> (r: usize)
        ensures
            r == self@.len() - 1,
    {
        self.earlier.len()
    }
}

} // verus!
