use vstd::prelude::*;

use crate::error::Error;
use crate::xu_control::XuControl;

verus! {

// ---------------------------------------------------------------------------
// The XU query protocol
// ---------------------------------------------------------------------------

/// The queries of the XU control protocol.  Their codes, and the binary
/// layout of the query structure, are fixed by the kernel interface.
#[derive(Debug, PartialEq, Eq, Structural, Clone, Copy)]
pub enum UvcQuery {
    SetCur,
    GetCur,
    GetMin,
    GetMax,
    GetRes,
    GetLen,
    GetDef,
}

impl UvcQuery {
    /// The code of the query.
    pub open spec fn spec_code(self) -> u8 {
        match self {
            UvcQuery::SetCur => 0x01,
            UvcQuery::GetCur => 0x81,
            UvcQuery::GetMin => 0x82,
            UvcQuery::GetMax => 0x83,
            UvcQuery::GetRes => 0x84,
            UvcQuery::GetLen => 0x85,
            UvcQuery::GetDef => 0x87,
        }
    }

    /// The byte that names the query on the wire.
    pub fn code(&self) -> (r: u8)
        ensures
            r == self.spec_code(),
    {
        match self {
            UvcQuery::SetCur => 0x01,
            UvcQuery::GetCur => 0x81,
            UvcQuery::GetMin => 0x82,
            UvcQuery::GetMax => 0x83,
            UvcQuery::GetRes => 0x84,
            UvcQuery::GetLen => 0x85,
            UvcQuery::GetDef => 0x87,
        }
    }
}

/// Decodes the two-byte little-endian answer of a length query.
pub fn len_from_le_bytes(b0: u8, b1: u8) -> (r: u16)
    ensures
        r == b0 + 256 * b1,
{
    proof {
        assert((b0 as u16) | ((b1 as u16) << 8) == b0 + 256 * b1) by (bit_vector);
    }
    (b0 as u16) | ((b1 as u16) << 8)
}

/// Whether a failed query is skipped silently during enumeration: only a
/// pair the device does not know, or refuses access to, is passed over;
/// any other failure aborts the walk.
pub fn skips_enumeration(e: &Error) -> (r: bool)
    ensures
        r == (e == Error::NotFound || e == Error::PermissionDenied),
{
    match e {
        Error::NotFound => true,
        Error::PermissionDenied => true,
        _ => false,
    }
}

// ---------------------------------------------------------------------------
// Control descriptions
// ---------------------------------------------------------------------------

/// A raw XU control description, as the probe queries return it: nothing
/// validated, every field as the device reported it.
#[derive(Debug)]
pub struct XUControlDescription {
    /// Unit used on the device to identify the control.
    pub unit: u8,
    /// Selector used on the device to identify the control.
    pub selector: u8,
    /// Current value of the control.
    pub cur: Vec<u8>,
    /// Maximum value of the control.
    pub max: Option<Vec<u8>>,
    /// Minimum value of the control.
    pub min: Option<Vec<u8>>,
    /// Resolution of the control.
    pub res: Option<Vec<u8>>,
    /// Default value of the control.
    pub def: Option<Vec<u8>>,
    /// `true` if the control accepted a write of its own current value.
    pub writable: bool,
}

// ---------------------------------------------------------------------------
// Enumeration order
// ---------------------------------------------------------------------------

/// Walks every `(unit, selector)` pair with both coordinates below 255, in
/// discovery order, collecting the controls found on the way.  The caller
/// probes the device for the current pair and records what came back.
#[derive(Debug)]
pub struct Enumerator {
    unit: u8,
    selector: u8,
    done: bool,
    controls: Vec<XuControl>,
}

impl Enumerator {
    /// The rank of the current pair in the walk.
    pub closed spec fn position(&self) -> int {
        self.unit * 255 + self.selector
    }

    /// Whether every pair was visited.
    pub closed spec fn finished(&self) -> bool {
        self.done
    }

    /// The controls found so far, in discovery order.
    pub closed spec fn found(&self) -> Seq<XuControl> {
        self.controls@
    }

    /// The walk stays within its bounds.
    pub closed spec fn wf(&self) -> bool {
        self.unit < 255 && self.selector < 255
    }

    /// A fresh walk, standing at the first pair.
    pub fn new() -> (r: Enumerator)
        ensures
            r.position() == 0,
            !r.finished(),
            r.found() == Seq::<XuControl>::empty(),
            r.wf(),
    {
        Enumerator { unit: 0, selector: 0, done: false, controls: Vec::new() }
    }

    /// The pair to probe next, or nothing once the walk is over.
    pub fn current_pair(&self) -> (r: Option<(u8, u8)>)
        requires
            self.wf(),
        ensures
            match r {
                Some(p) => !self.finished() && p.0 * 255 + p.1 == self.position() && p.0 < 255
                    && p.1 < 255,
                None => self.finished(),
            },
    {
        if self.done {
            None
        } else {
            Some((self.unit, self.selector))
        }
    }

    /// Records the outcome of probing the current pair — a control when one
    /// was found — and moves to the next pair, selector first.
    pub fn record(&mut self, found: Option<XuControl>)
        requires
            old(self).wf(),
            !old(self).finished(),
        ensures
            final(self).wf(),
            final(self).found() == match found {
                Some(c) => old(self).found().push(c),
                None => old(self).found(),
            },
            !final(self).finished() ==> final(self).position() == old(self).position() + 1,
            final(self).finished() <==> old(self).position() == 255 * 255 - 1,
    {
        match found {
            Some(c) => self.controls.push(c),
            None => {},
        }
        if self.selector < 254 {
            self.selector = self.selector + 1;
        } else if self.unit < 254 {
            self.selector = 0;
            self.unit = self.unit + 1;
        } else {
            self.done = true;
        }
    }

    /// Hands out the controls collected by the walk.
    pub fn into_controls(self) -> (r: Vec<XuControl>)
        ensures
            r@ == self.found(),
    {
        self.controls
    }
}

} // verus!
