use crate::SmartBuffer;
use vstd::prelude::*;

verus! {

impl<T: Copy, const N: usize> SmartBuffer<T, N> {
    /// Consumes the buffer into a vector of its `size` elements, in order.
    pub fn into_vec(self) -> (r: Vec<T>)
        requires
            self.wf(),
        ensures
            r@ == self@,
    {
        let ghost s = self@;
        let mut it = self.into_iter();
        let mut temp: Vec<T> = Vec::new();
        loop
            invariant
                it.wf(),
                it.elements() == s,
                it.position() <= s.len(),
                temp@ == s.take(it.position() as int),
            ensures
                temp@ == s,
            decreases s.len() - it.position(),
        {
            match it.next() {
                Some(elem) => {
                    temp.push(elem);
                    proof {
                        assert(temp@ =~= s.take(it.position() as int));
                    }
                },
                None => {
                    proof {
                        assert(temp@ =~= s);
                    }
                    break;
                },
            }
        }
        temp
    }
}

} // verus!
