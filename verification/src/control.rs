use vstd::prelude::*;

verus! {

/// Errors of the control capability set.
#[derive(Debug, PartialEq, Eq, Structural, Clone, Copy)]
pub enum Error {
    /// The increment would pass the control's maximum.
    OutOfRange,
    /// The sizes of the vectors involved do not match.
    InvalidSize,
}

impl Error {
    /// A short description, in place of a `Display` implementation.
    pub fn message(&self) -> (r: &'static str)
    {
        match self {
            Error::OutOfRange => "the control is out of range",
            Error::InvalidSize => "the size of the control is invalid",
        }
    }
}

/// The cap of one byte under an optional maximum vector: the byte of the
/// maximum when it reaches that far, 255 otherwise.
pub open spec fn res_cap(max: Option<Seq<u8>>, i: int) -> int {
    match max {
        Some(m) => if 0 <= i < m.len() {
            m[i] as int
        } else {
            255
        },
        None => 255,
    }
}

/// The capability set of a control: identity, value access, and a safe
/// increment by a resolution vector.
pub trait Control: Sized {
    /// The unit the contract clauses speak of.
    spec fn unit_model(&self) -> u8;

    /// The selector the contract clauses speak of.
    spec fn selector_model(&self) -> u8;

    /// The value bytes the contract clauses speak of.
    spec fn value_model(&self) -> Seq<u8>;

    /// Returns the unit of the control.
    fn unit(&self) -> (r: u8)
        ensures
            r == self.unit_model(),
    ;

    /// Returns the selector of the control.
    fn selector(&self) -> (r: u8)
        ensures
            r == self.selector_model(),
    ;

    /// Returns a reference to the value of the control.
    fn value_ref(&self) -> (r: &Vec<u8>)
        ensures
            r@ == self.value_model(),
    ;

    /// Returns the value of the control, giving up ownership.
    fn value(self) -> (r: Vec<u8>)
        ensures
            r@ == self.value_model(),
    ;

    /// Overwrites one byte of the value.
    fn set_value_byte(&mut self, i: usize, b: u8)
        requires
            i < old(self).value_model().len(),
        ensures
            final(self).value_model() == old(self).value_model().update(i as int, b),
            final(self).unit_model() == old(self).unit_model(),
            final(self).selector_model() == old(self).selector_model(),
    ;

    /// Increments every byte of the value by the matching byte of the
    /// resolution, after checking that no byte would pass its cap — the
    /// maximum when one is given, 255 otherwise.  The resolution must have
    /// the value's size, and so must the maximum when present (an absent
    /// maximum passes the size check only for an empty value).
    fn increment_with_res(&mut self, res: &Vec<u8>, max: Option<&Vec<u8>>) -> (r: Result<
        (),
        Error,
    >)
        ensures
            ({
                let v = old(self).value_model();
                let m = match max {
                    Some(mv) => Some(mv@),
                    None => None,
                };
                let size_ok = v.len() == res@.len() && v.len() == (match max {
                    Some(mv) => mv@.len(),
                    None => 0,
                });
                let over = exists|i: int|
                    0 <= i < v.len() && v[i] + res@[i] > res_cap(m, i);
                &&& !size_ok ==> r == Result::<(), Error>::Err(Error::InvalidSize)
                    && final(self).value_model() == v
                &&& size_ok && over ==> r == Result::<(), Error>::Err(Error::OutOfRange)
                    && final(self).value_model() == v
                &&& size_ok && !over ==> r == Result::<(), Error>::Ok(())
                    && final(self).value_model() == Seq::new(
                    v.len(),
                    |i: int| (v[i] + res@[i]) as u8,
                )
                &&& final(self).unit_model() == old(self).unit_model()
                &&& final(self).selector_model() == old(self).selector_model()
            }),
    {
        let n = self.value_ref().len();
        let max_len = match max {
            Some(mv) => mv.len(),
            None => 0,
        };
        if n != res.len() || n != max_len {
            return Err(Error::InvalidSize);
        }
        let ghost v0 = self.value_model();
        let ghost m0 = match max {
            Some(mv) => Some(mv@),
            None => None,
        };
        let mut i: usize = 0;
        while i < n
            invariant
                n == self.value_model().len(),
                n == res@.len(),
                self == old(self),
                v0 == self.value_model(),
                m0 == (match max {
                    Some(mv) => Some(mv@),
                    None => None,
                }),
                n == (match max {
                    Some(mv) => mv@.len(),
                    None => 0,
                }),
                i <= n,
                forall|k: int| 0 <= k < i ==> v0[k] + res@[k] <= res_cap(m0, k),
            decreases n - i,
        {
            let cap: u8 = match max {
                Some(mv) => mv[i],
                None => 255,
            };
            if self.value_ref()[i] as u16 + res[i] as u16 > cap as u16 {
                return Err(Error::OutOfRange);
            }
            i += 1;
        }
        let mut j: usize = 0;
        while j < n
            invariant
                n == self.value_model().len(),
                n == res@.len(),
                v0.len() == n,
                j <= n,
                forall|k: int| 0 <= k < v0.len() ==> v0[k] + res@[k] <= res_cap(m0, k),
                forall|k: int| j <= k < n ==> self.value_model()[k] == v0[k],
                forall|k: int| 0 <= k < j ==> self.value_model()[k] == (v0[k] + res@[k]) as u8,
                self.unit_model() == old(self).unit_model(),
                self.selector_model() == old(self).selector_model(),
            decreases n - j,
        {
            let b = self.value_ref()[j];
            proof {
                assert(v0[j as int] + res@[j as int] <= res_cap(m0, j as int) <= 255);
            }
            self.set_value_byte(j, b + res[j]);
            j += 1;
        }
        assert(self.value_model() =~= Seq::new(v0.len(), |i: int| (v0[i] + res@[i]) as u8));
        Ok(())
    }
}

} // verus!
