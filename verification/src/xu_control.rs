use vstd::prelude::*;

use crate::bytes::{copy_bytes, copy_opt_bytes};
use crate::error::Error;

verus! {

/// Mathematical model of an XU control: the identity pair, the byte
/// vectors, and the writability flag.
#[verifier::ext_equal]
pub struct XuControlModel {
    pub unit: u8,
    pub selector: u8,
    pub cur: Seq<u8>,
    pub init: Seq<u8>,
    pub max: Option<Seq<u8>>,
    pub min: Option<Seq<u8>>,
    pub res: Option<Seq<u8>>,
    pub def: Option<Seq<u8>>,
    pub writable: bool,
}

/// The sequences of an optional byte vector.
pub open spec fn opt_bytes_model(o: Option<Vec<u8>>) -> Option<Seq<u8>> {
    match o {
        Some(v) => Some(v@),
        None => None,
    }
}

/// An optional vector, when present, has length `n`.
pub open spec fn opt_len_ok(o: Option<Seq<u8>>, n: nat) -> bool {
    o is Some ==> o->0.len() == n
}

impl XuControlModel {
    /// Every vector the control carries shares the length of `cur`.
    pub open spec fn wf(self) -> bool {
        &&& self.init.len() == self.cur.len()
        &&& opt_len_ok(self.max, self.cur.len())
        &&& opt_len_ok(self.min, self.cur.len())
        &&& opt_len_ok(self.res, self.cur.len())
        &&& opt_len_ok(self.def, self.cur.len())
    }
}

/// An XU control of a UVC device: addressed by `(unit, selector)`, holding
/// its current byte value, the snapshot taken at discovery, the optional
/// metadata vectors reported by the device, and whether the device accepted
/// a write during discovery.
#[derive(Debug)]
pub struct XuControl {
    unit: u8,
    selector: u8,
    cur: Vec<u8>,
    init: Vec<u8>,
    max: Option<Vec<u8>>,
    min: Option<Vec<u8>>,
    res: Option<Vec<u8>>,
    def: Option<Vec<u8>>,
    writable: bool,
}

impl View for XuControl {
    type V = XuControlModel;

    closed spec fn view(&self) -> XuControlModel {
        XuControlModel {
            unit: self.unit,
            selector: self.selector,
            cur: self.cur@,
            init: self.init@,
            max: opt_bytes_model(self.max),
            min: opt_bytes_model(self.min),
            res: opt_bytes_model(self.res),
            def: opt_bytes_model(self.def),
            writable: self.writable,
        }
    }
}

impl XuControl {
    /// Creates a new control.  The current value must hold at least one
    /// byte, and every provided optional vector must match its length; a
    /// violation is rejected as invalid input.  The initial snapshot is the
    /// given current value.
    pub fn new(
        unit: u8,
        selector: u8,
        cur: Vec<u8>,
        max: Option<Vec<u8>>,
        min: Option<Vec<u8>>,
        res: Option<Vec<u8>>,
        def: Option<Vec<u8>>,
        writable: bool,
    ) -> (r: Result<XuControl, Error>)
        ensures
            r is Ok <==> {
                &&& cur@.len() >= 1
                &&& opt_len_ok(opt_bytes_model(max), cur@.len())
                &&& opt_len_ok(opt_bytes_model(min), cur@.len())
                &&& opt_len_ok(opt_bytes_model(res), cur@.len())
                &&& opt_len_ok(opt_bytes_model(def), cur@.len())
            },
            r is Ok ==> r->Ok_0@ == (XuControlModel {
                unit,
                selector,
                cur: cur@,
                init: cur@,
                max: opt_bytes_model(max),
                min: opt_bytes_model(min),
                res: opt_bytes_model(res),
                def: opt_bytes_model(def),
                writable,
            }),
            r is Err ==> r->Err_0 == Error::InvalidInput,
    {
        let len = cur.len();
        if len == 0 {
            return Err(Error::InvalidInput);
        }
        if let Some(v) = &max {
            if v.len() != len {
                return Err(Error::InvalidInput);
            }
        }
        if let Some(v) = &min {
            if v.len() != len {
                return Err(Error::InvalidInput);
            }
        }
        if let Some(v) = &res {
            if v.len() != len {
                return Err(Error::InvalidInput);
            }
        }
        if let Some(v) = &def {
            if v.len() != len {
                return Err(Error::InvalidInput);
            }
        }
        let init = copy_bytes(&cur);
        Ok(XuControl { unit, selector, cur, init, max, min, res, def, writable })
    }

    /// Returns the unit of the control.
    pub fn unit(&self) -> (r: u8)
        ensures
            r == self@.unit,
    {
        self.unit
    }

    /// Returns the selector of the control.
    pub fn selector(&self) -> (r: u8)
        ensures
            r == self@.selector,
    {
        self.selector
    }

    /// Returns the current value of the control.
    pub fn cur(&self) -> (r: &Vec<u8>)
        ensures
            r@ == self@.cur,
    {
        &self.cur
    }

    /// Returns a mutable reference to the current value of the control.
    pub fn cur_mut(&mut self) -> (r: &mut Vec<u8>)
        ensures
            r@ == old(self)@.cur,
            final(self)@ == (XuControlModel { cur: final(r)@, ..old(self)@ }),
    {
        &mut self.cur
    }

    /// Returns the initial value of the control.
    pub fn init(&self) -> (r: &Vec<u8>)
        ensures
            r@ == self@.init,
    {
        &self.init
    }

    /// Overwrites one byte of the current value.
    pub fn set_cur_byte(&mut self, i: usize, b: u8)
        requires
            i < old(self)@.cur.len(),
        ensures
            final(self)@ == (XuControlModel {
                cur: old(self)@.cur.update(i as int, b),
                ..old(self)@
            }),
    {
        self.cur.set(i, b);
    }

    /// Resets the current value to the initial value.  A control whose
    /// current value already equals its initial value is left unchanged.
    pub fn reset(&mut self)
        ensures
            final(self)@ == (XuControlModel { cur: old(self)@.init, ..old(self)@ }),
            old(self)@.cur == old(self)@.init ==> final(self)@ == old(self)@,
    {
        self.cur = copy_bytes(&self.init);
        assert(self@ =~= (XuControlModel { cur: old(self)@.init, ..old(self)@ }));
        assert(old(self)@.cur == old(self)@.init ==> self@ =~= old(self)@);
    }

    /// Returns the maximum value of the control, if any.
    pub fn max(&self) -> (r: Option<&Vec<u8>>)
        ensures
            r is Some <==> self@.max is Some,
            r is Some ==> r->0@ == self@.max->0,
    {
        self.max.as_ref()
    }

    /// Returns the minimum value of the control, if any.
    pub fn min_value(&self) -> (r: Option<&Vec<u8>>)
        ensures
            r is Some <==> self@.min is Some,
            r is Some ==> r->0@ == self@.min->0,
    {
        self.min.as_ref()
    }

    /// Returns the resolution of the control, if any.
    pub fn res_value(&self) -> (r: Option<&Vec<u8>>)
        ensures
            r is Some <==> self@.res is Some,
            r is Some ==> r->0@ == self@.res->0,
    {
        self.res.as_ref()
    }

    /// Returns the default value of the control, if any.
    pub fn def_value(&self) -> (r: Option<&Vec<u8>>)
        ensures
            r is Some <==> self@.def is Some,
            r is Some ==> r->0@ == self@.def->0,
    {
        self.def.as_ref()
    }

    /// Returns `true` if the control is writable: the device accepted a
    /// write of the just-read current value during discovery.
    pub fn writable(&self) -> (r: bool)
        ensures
            r == self@.writable,
    {
        self.writable
    }

    /// Clones only the identity, the current value and the writability; the
    /// initial value is left empty and the metadata vectors absent.  Used to
    /// ship state snapshots without the bulky metadata.
    pub fn essential_clone(&self) -> (r: XuControl)
        ensures
            r@ == (XuControlModel {
                unit: self@.unit,
                selector: self@.selector,
                cur: self@.cur,
                init: Seq::<u8>::empty(),
                max: None,
                min: None,
                res: None,
                def: None,
                writable: self@.writable,
            }),
    {
        let r = XuControl {
            unit: self.unit,
            selector: self.selector,
            cur: copy_bytes(&self.cur),
            init: Vec::new(),
            max: None,
            min: None,
            res: None,
            def: None,
            writable: self.writable,
        };
        assert(r@.init =~= Seq::<u8>::empty());
        r
    }

    /// A full copy of the control.
    pub fn duplicate(&self) -> (r: XuControl)
        ensures
            r@ == self@,
    {
        let r = XuControl {
            unit: self.unit,
            selector: self.selector,
            cur: copy_bytes(&self.cur),
            init: copy_bytes(&self.init),
            max: copy_opt_bytes(&self.max),
            min: copy_opt_bytes(&self.min),
            res: copy_opt_bytes(&self.res),
            def: copy_opt_bytes(&self.def),
            writable: self.writable,
        };
        assert(r@ =~= self@);
        r
    }
}

} // verus!
