use vstd::prelude::*;

use crate::bytes::copy_bytes;
use crate::control::Control;
use crate::uvc::XUControlDescription;

verus! {

/// Errors of the infrared control.
#[derive(Debug, PartialEq, Eq, Structural, Clone, Copy)]
pub enum Error {
    /// The control is not writable.
    NotWritable,
    /// The control value can no longer grow.
    OutOfRange,
    /// The control has no maximum value.
    NoMaximum,
}

impl Error {
    /// A short description, in place of a `Display` implementation.
    pub fn message(&self) -> (r: &'static str)
    {
        match self {
            Error::NotWritable => "the control is not writable",
            Error::OutOfRange => "the control is out of range",
            Error::NoMaximum => "the maximum value is not defined",
        }
    }
}

/// Model of an infrared control.
#[verifier::ext_equal]
pub struct IrControlModel {
    pub unit: u8,
    pub selector: u8,
    pub value: Seq<u8>,
    pub inc_cur_byte: int,
    pub init_value: Seq<u8>,
    pub max_value: Option<Seq<u8>>,
}

/// The cap of one byte: the byte of the maximum when it reaches that far,
/// 255 otherwise.
pub open spec fn ir_cap(max: Option<Seq<u8>>, i: int) -> u8 {
    match max {
        Some(m) => if 0 <= i < m.len() {
            m[i]
        } else {
            255
        },
        None => 255,
    }
}

/// One increment of the control value: the tracked byte grows by one, or,
/// when it stands at its cap (or at 255, past which a byte cannot grow),
/// returns to zero while the walk moves to the next byte.  Past the last
/// byte the value is exhausted.
pub open spec fn spec_ir_increment(c: IrControlModel) -> (IrControlModel, bool)
    decreases c.value.len() - c.inc_cur_byte,
{
    let i = c.inc_cur_byte;
    if i < 0 || i >= c.value.len() {
        (c, false)
    } else if c.value[i] == ir_cap(c.max_value, i) || c.value[i] == 255 {
        spec_ir_increment(
            IrControlModel { value: c.value.update(i, 0u8), inc_cur_byte: i + 1, ..c },
        )
    } else {
        (IrControlModel { value: c.value.update(i, (c.value[i] + 1) as u8), ..c }, true)
    }
}

/// A control being walked through its value space in search of the
/// emitter's switch.
#[derive(Debug)]
pub struct IrControl {
    unit: u8,
    selector: u8,
    value: Vec<u8>,
    inc_cur_byte: usize,
    init_value: Vec<u8>,
    max_value: Option<Vec<u8>>,
}

impl View for IrControl {
    type V = IrControlModel;

    closed spec fn view(&self) -> IrControlModel {
        IrControlModel {
            unit: self.unit,
            selector: self.selector,
            value: self.value@,
            inc_cur_byte: self.inc_cur_byte as int,
            init_value: self.init_value@,
            max_value: match self.max_value {
                Some(v) => Some(v@),
                None => None,
            },
        }
    }
}

impl IrControl {
    /// Creates an infrared control from a control description.  The value
    /// starts at the minimum when the description has one, else at the
    /// current value; the initial snapshot is the current value.  A
    /// read-only control is refused.
    pub fn new(control: XUControlDescription) -> (r: Result<IrControl, Error>)
        ensures
            r is Ok <==> control.writable,
            r is Ok ==> r->Ok_0@ == (IrControlModel {
                unit: control.unit,
                selector: control.selector,
                value: match control.min {
                    Some(m) => m@,
                    None => control.cur@,
                },
                inc_cur_byte: 0,
                init_value: control.cur@,
                max_value: match control.max {
                    Some(m) => Some(m@),
                    None => None,
                },
            }),
            r is Err ==> r->Err_0 == Error::NotWritable,
    {
        if !control.writable {
            return Err(Error::NotWritable);
        }
        let init_value = copy_bytes(&control.cur);
        let value = match control.min {
            Some(m) => m,
            None => control.cur,
        };
        Ok(
            IrControl {
                unit: control.unit,
                selector: control.selector,
                value,
                inc_cur_byte: 0,
                init_value,
                max_value: control.max,
            },
        )
    }

    /// Increments the control value by one, as [`spec_ir_increment`]
    /// describes; an exhausted value is reported out of range.
    pub fn increment(&mut self) -> (r: Result<(), Error>)
        ensures
            ({
                let (c2, ok) = spec_ir_increment(old(self)@);
                &&& final(self)@ == c2
                &&& (r is Ok <==> ok)
            }),
            r is Err ==> r->Err_0 == Error::OutOfRange,
        decreases old(self)@.value.len() - old(self)@.inc_cur_byte,
    {
        if self.inc_cur_byte >= self.value.len() {
            return Err(Error::OutOfRange);
        }
        let i = self.inc_cur_byte;
        let cap: u8 = match &self.max_value {
            Some(m) => {
                if i < m.len() {
                    m[i]
                } else {
                    255
                }
            },
            None => 255,
        };
        let v = self.value[i];
        if v == cap || v == 255 {
            self.value.set(i, 0);
            self.inc_cur_byte = i + 1;
            return self.increment();
        }
        self.value.set(i, v + 1);
        Ok(())
    }

    /// Sets the value to the maximum, when the control has one.
    pub fn try_set_max(&mut self) -> (r: Result<(), Error>)
        ensures
            match old(self)@.max_value {
                Some(m) => r is Ok && final(self)@ == (IrControlModel {
                    value: m,
                    ..old(self)@
                }),
                None => r == Result::<(), Error>::Err(Error::NoMaximum) && final(self)@ == old(
                    self,
                )@,
            },
    {
        let replacement = match &self.max_value {
            Some(m) => Some(copy_bytes(m)),
            None => None,
        };
        match replacement {
            Some(m) => {
                self.value = m;
                Ok(())
            },
            None => Err(Error::NoMaximum),
        }
    }

    /// Resets the value to the initial snapshot.
    pub fn reset(&mut self)
        ensures
            final(self)@ == (IrControlModel { value: old(self)@.init_value, ..old(self)@ }),
    {
        self.value = copy_bytes(&self.init_value);
    }
}

impl Control for IrControl {
    open spec fn unit_model(&self) -> u8 {
        self@.unit
    }

    open spec fn selector_model(&self) -> u8 {
        self@.selector
    }

    open spec fn value_model(&self) -> Seq<u8> {
        self@.value
    }

    fn unit(&self) -> u8 {
        self.unit
    }

    fn selector(&self) -> u8 {
        self.selector
    }

    fn value_ref(&self) -> &Vec<u8> {
        &self.value
    }

    fn value(self) -> Vec<u8> {
        self.value
    }

    fn set_value_byte(&mut self, i: usize, b: u8) {
        self.value.set(i, b);
    }
}

impl Control for XUControlDescription {
    open spec fn unit_model(&self) -> u8 {
        self.unit
    }

    open spec fn selector_model(&self) -> u8 {
        self.selector
    }

    open spec fn value_model(&self) -> Seq<u8> {
        self.cur@
    }

    fn unit(&self) -> u8 {
        self.unit
    }

    fn selector(&self) -> u8 {
        self.selector
    }

    fn value_ref(&self) -> &Vec<u8> {
        &self.cur
    }

    fn value(self) -> Vec<u8> {
        self.cur
    }

    fn set_value_byte(&mut self, i: usize, b: u8) {
        self.cur.set(i, b);
    }
}

} // verus!
