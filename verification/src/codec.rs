use vstd::prelude::*;

use crate::configuration::{
    spec_unique_devices, BlackControl, Configuration, ConfigurationModel, Configurations,
    SavedControl, SavedControlModel, V4LPath,
};
use crate::error::Error;

verus! {

// ---------------------------------------------------------------------------
// The text form of the store
// ---------------------------------------------------------------------------
//
// The store is kept as human-editable text, one record per line:
//
//     device <path>
//     save <unit> <selector> <byte> <byte> ...
//     black <unit> <selector>
//
// A `device` line opens the entry it names; the `save` and `black` lines
// that follow fill its savelist and blacklist.  Saving writes canonical
// decimal numbers; loading also takes leading zeroes, but keeps the
// shape: one record per line, one entry per device, at least one value
// byte in every `save` line.

/// The canonical decimal digits of a byte.
pub open spec fn spec_dec(n: u8) -> Seq<u8> {
    if n < 10 {
        seq![(48 + n) as u8]
    } else if n < 100 {
        seq![(48 + n / 10) as u8, (48 + n % 10) as u8]
    } else {
        seq![(48 + n / 100) as u8, (48 + (n / 10) % 10) as u8, (48 + n % 10) as u8]
    }
}

/// A run of values, each preceded by one space.
pub open spec fn spec_enc_vals(vals: Seq<u8>) -> Seq<u8>
    decreases vals.len(),
{
    if vals.len() == 0 {
        Seq::<u8>::empty()
    } else {
        seq![32u8] + spec_dec(vals[0]) + spec_enc_vals(vals.drop_first())
    }
}

/// A savelist line: the word `save`, the identity pair, the value bytes.
pub open spec fn spec_enc_saved(sc: SavedControlModel) -> Seq<u8> {
    seq![115u8, 97u8, 118u8, 101u8] + spec_enc_vals(
        seq![sc.unit, sc.selector] + sc.control,
    ) + seq![10u8]
}

/// A blacklist line: the word `black` and the identity pair.
pub open spec fn spec_enc_black(bc: BlackControl) -> Seq<u8> {
    seq![98u8, 108u8, 97u8, 99u8, 107u8] + spec_enc_vals(seq![bc.unit, bc.selector]) + seq![10u8]
}

/// The savelist lines of an entry.
pub open spec fn spec_enc_savelist(s: Seq<SavedControlModel>) -> Seq<u8>
    decreases s.len(),
{
    if s.len() == 0 {
        Seq::<u8>::empty()
    } else {
        spec_enc_saved(s[0]) + spec_enc_savelist(s.drop_first())
    }
}

/// The blacklist lines of an entry.
pub open spec fn spec_enc_blacklist(s: Seq<BlackControl>) -> Seq<u8>
    decreases s.len(),
{
    if s.len() == 0 {
        Seq::<u8>::empty()
    } else {
        spec_enc_black(s[0]) + spec_enc_blacklist(s.drop_first())
    }
}

/// One device entry: its `device` line, then its savelist and blacklist
/// lines.
pub open spec fn spec_enc_config(c: ConfigurationModel) -> Seq<u8> {
    seq![100u8, 101u8, 118u8, 105u8, 99u8, 101u8, 32u8] + c.device + seq![10u8]
        + spec_enc_savelist(c.savelist) + spec_enc_blacklist(c.blacklist)
}

/// The whole store, entry after entry in store order.
pub open spec fn spec_encode(s: Seq<ConfigurationModel>) -> Seq<u8>
    decreases s.len(),
{
    if s.len() == 0 {
        Seq::<u8>::empty()
    } else {
        spec_enc_config(s[0]) + spec_encode(s.drop_first())
    }
}

// ---------------------------------------------------------------------------
// Writing
// ---------------------------------------------------------------------------

/// Appends the canonical decimal digits of a byte.
fn push_dec(out: &mut Vec<u8>, n: u8)
    ensures
        final(out)@ == old(out)@ + spec_dec(n),
{
    if n < 10 {
        out.push(48 + n);
        assert(out@ =~= old(out)@ + spec_dec(n));
    } else if n < 100 {
        out.push(48 + n / 10);
        out.push(48 + n % 10);
        assert(out@ =~= old(out)@ + spec_dec(n));
    } else {
        out.push(48 + n / 100);
        out.push(48 + (n / 10) % 10);
        out.push(48 + n % 10);
        assert(out@ =~= old(out)@ + spec_dec(n));
    }
}

/// Appends a run of values, each preceded by one space.
fn push_vals(out: &mut Vec<u8>, vals: &Vec<u8>)
    ensures
        final(out)@ == old(out)@ + spec_enc_vals(vals@),
{
    let n = vals.len();
    let mut i: usize = 0;
    assert(vals@.skip(0) =~= vals@);
    while i < n
        invariant
            n == vals@.len(),
            i <= n,
            out@ + spec_enc_vals(vals@.skip(i as int)) == old(out)@ + spec_enc_vals(vals@),
        decreases n - i,
    {
        proof {
            assert(vals@.skip(i as int)[0] == vals@[i as int]);
            assert(vals@.skip(i as int).drop_first() =~= vals@.skip(i + 1));
        }
        out.push(32);
        push_dec(out, vals[i]);
        proof {
            assert(out@ + spec_enc_vals(vals@.skip(i + 1)) =~= old(out)@ + spec_enc_vals(vals@));
        }
        i += 1;
    }
    assert(vals@.skip(n as int) =~= Seq::<u8>::empty());
    assert(out@ =~= old(out)@ + spec_enc_vals(vals@));
}

impl Configurations {
    /// Writes the store as text, entry after entry in store order.
    pub fn save(&self) -> (r: Vec<u8>)
        ensures
            r@ == spec_encode(self@),
    {
        let entries = self.devices();
        let n = entries.len();
        let mut out: Vec<u8> = Vec::new();
        assert(self@.skip(0) =~= self@);
        assert(out@ =~= Seq::<u8>::empty() + Seq::<u8>::empty());
        let mut i: usize = 0;
        while i < n
            invariant
                n == entries@.len(),
                entries@.map_values(|c: Configuration| c@) == self@,
                i <= n,
                out@ + spec_encode(self@.skip(i as int)) == spec_encode(self@),
            decreases n - i,
        {
            proof {
                assert(self@.skip(i as int)[0] == self@[i as int]);
                assert(self@.skip(i as int).drop_first() =~= self@.skip(i + 1));
            }
            let entry = &entries[i];
            let ghost before = out@;
            // the device line
            out.push(100);
            out.push(101);
            out.push(118);
            out.push(105);
            out.push(99);
            out.push(101);
            out.push(32);
            let path = entry.device().as_bytes();
            let pn = path.len();
            let mut k: usize = 0;
            while k < pn
                invariant
                    pn == path@.len(),
                    k <= pn,
                    out@ == before + seq![100u8, 101u8, 118u8, 105u8, 99u8, 101u8, 32u8]
                        + path@.take(k as int),
                decreases pn - k,
            {
                out.push(path[k]);
                assert(out@ =~= before + seq![100u8, 101u8, 118u8, 105u8, 99u8, 101u8, 32u8]
                    + path@.take(k + 1));
                k += 1;
            }
            assert(path@.take(pn as int) =~= path@);
            out.push(10);
            assert(out@ =~= before + (seq![100u8, 101u8, 118u8, 105u8, 99u8, 101u8, 32u8]
                + self@[i as int].device + seq![10u8]));
            // the savelist lines
            let ghost at_saves = out@;
            let saves = entry.savelist_entries();
            let sn = saves.len();
            let ghost savelist = self@[i as int].savelist;
            assert(savelist.skip(0) =~= savelist);
            let mut k: usize = 0;
            while k < sn
                invariant
                    sn == saves@.len(),
                    saves@.map_values(|e: SavedControl| e@) == savelist,
                    k <= sn,
                    out@ + spec_enc_savelist(savelist.skip(k as int)) == at_saves
                        + spec_enc_savelist(savelist),
                decreases sn - k,
            {
                proof {
                    assert(savelist.skip(k as int)[0] == savelist[k as int]);
                    assert(savelist.skip(k as int).drop_first() =~= savelist.skip(k + 1));
                }
                let ghost line_start = out@;
                out.push(115);
                out.push(97);
                out.push(118);
                out.push(101);
                let entry_k = &saves[k];
                let mut vals: Vec<u8> = Vec::new();
                vals.push(entry_k.unit);
                vals.push(entry_k.selector);
                let cn = entry_k.control.len();
                let mut j: usize = 0;
                while j < cn
                    invariant
                        cn == entry_k.control@.len(),
                        j <= cn,
                        vals@ == seq![entry_k.unit, entry_k.selector] + entry_k.control@.take(
                            j as int,
                        ),
                    decreases cn - j,
                {
                    vals.push(entry_k.control[j]);
                    assert(vals@ =~= seq![entry_k.unit, entry_k.selector]
                        + entry_k.control@.take(j + 1));
                    j += 1;
                }
                assert(entry_k.control@.take(cn as int) =~= entry_k.control@);
                push_vals(&mut out, &vals);
                out.push(10);
                assert(out@ =~= line_start + spec_enc_saved(savelist[k as int]));
                k += 1;
            }
            assert(savelist.skip(sn as int) =~= Seq::<SavedControlModel>::empty());
            assert(out@ =~= at_saves + spec_enc_savelist(savelist));
            // the blacklist lines
            let ghost at_blacks = out@;
            let blacks = entry.blacklist_entries();
            let bn = blacks.len();
            let ghost blacklist = self@[i as int].blacklist;
            assert(blacklist.skip(0) =~= blacklist);
            let mut k: usize = 0;
            while k < bn
                invariant
                    bn == blacks@.len(),
                    blacks@ == blacklist,
                    k <= bn,
                    out@ + spec_enc_blacklist(blacklist.skip(k as int)) == at_blacks
                        + spec_enc_blacklist(blacklist),
                decreases bn - k,
            {
                proof {
                    assert(blacklist.skip(k as int)[0] == blacklist[k as int]);
                    assert(blacklist.skip(k as int).drop_first() =~= blacklist.skip(k + 1));
                }
                let ghost line_start = out@;
                out.push(98);
                out.push(108);
                out.push(97);
                out.push(99);
                out.push(107);
                let entry_k = &blacks[k];
                let mut vals: Vec<u8> = Vec::new();
                vals.push(entry_k.unit);
                vals.push(entry_k.selector);
                assert(vals@ =~= seq![entry_k.unit, entry_k.selector]);
                push_vals(&mut out, &vals);
                out.push(10);
                assert(out@ =~= line_start + spec_enc_black(blacklist[k as int]));
                k += 1;
            }
            assert(blacklist.skip(bn as int) =~= Seq::<BlackControl>::empty());
            assert(out@ =~= before + spec_enc_config(self@[i as int]));
            i += 1;
        }
        assert(self@.skip(n as int) =~= Seq::<ConfigurationModel>::empty());
        assert(out@ =~= spec_encode(self@));
        out
    }

    /// Reads a store back from its text; a text that keeps two entries
    /// under one device key is refused.  Success is owed on every readable
    /// text: the result is exactly what the mathematical decoder
    /// [`spec_decode`] yields, so by [`lemma_decode_encode`] every saved
    /// store loads back, and loads back as itself.
    pub fn load(text: &Vec<u8>) -> (r: Result<Configurations, Error>)
        ensures
            match spec_decode(text@) {
                Some(m) => if spec_unique_devices(m) {
                    r is Ok && r->Ok_0@ == m
                } else {
                    r is Err
                },
                None => r is Err,
            },
            r is Err ==> r->Err_0 == Error::InvalidInput,
    {
        let store = match decode_store(text) {
            Ok(s) => s,
            Err(e) => {
                return Err(e);
            },
        };
        if !devices_unique(&store) {
            return Err(Error::InvalidInput);
        }
        Ok(store)
    }
}

// ---------------------------------------------------------------------------
// The text form identifies the store
// ---------------------------------------------------------------------------
//
// A mathematical decoder inverts the encoding.  It exists only in the
// proofs: it shows that decoding what was encoded gives the store back, so
// that no two stores can share a text, and whatever `load` accepts is the
// one store that wrote the input.

/// A decimal digit byte.
pub open spec fn is_digit(b: u8) -> bool {
    48 <= b <= 57
}

/// The length of the leading digit run.
pub open spec fn digit_run(t: Seq<u8>) -> int
    decreases t.len(),
{
    if t.len() == 0 {
        0
    } else if !is_digit(t[0]) {
        0
    } else {
        1 + digit_run(t.drop_first())
    }
}

/// The value of a digit sequence.
pub open spec fn digits_val(t: Seq<u8>) -> int
    decreases t.len(),
{
    if t.len() == 0 {
        0
    } else {
        digits_val(t.drop_last()) * 10 + (t.last() - 48)
    }
}

/// The index of the first newline, or the length when there is none.
pub open spec fn fnl(t: Seq<u8>) -> int
    decreases t.len(),
{
    if t.len() == 0 {
        0
    } else if t[0] == 10 {
        0
    } else {
        1 + fnl(t.drop_first())
    }
}

/// Decodes a run of space-separated values, consuming the whole input.
pub open spec fn dec_vals(t: Seq<u8>) -> Option<Seq<u8>>
    decreases t.len(),
{
    if t.len() == 0 {
        Some(Seq::<u8>::empty())
    } else if t[0] != 32 {
        None
    } else {
        let k = digit_run(t.skip(1));
        if k < 1 || k > 3 || 1 + k > t.len() {
            None
        } else {
            let v = digits_val(t.subrange(1, 1 + k));
            if v > 255 {
                None
            } else {
                match dec_vals(t.skip(1 + k)) {
                    Some(rest) => Some(seq![v as u8] + rest),
                    None => None,
                }
            }
        }
    }
}

/// The word that opens a savelist line.
pub open spec fn word_save() -> Seq<u8> {
    seq![115u8, 97u8, 118u8, 101u8]
}

/// The word that opens a blacklist line.
pub open spec fn word_black() -> Seq<u8> {
    seq![98u8, 108u8, 97u8, 99u8, 107u8]
}

/// The word (with its trailing space) that opens a device line.
pub open spec fn word_device() -> Seq<u8> {
    seq![100u8, 101u8, 118u8, 105u8, 99u8, 101u8, 32u8]
}

/// Decodes the leading savelist lines; returns them with the remaining
/// text.
pub open spec fn dec_saves(t: Seq<u8>) -> Option<(Seq<SavedControlModel>, Seq<u8>)>
    decreases t.len(),
{
    if t.len() >= 4 && t.take(4) == word_save() {
        let l = fnl(t);
        if l < 0 || l >= t.len() {
            None
        } else {
            match dec_vals(t.subrange(4, l)) {
                Some(vals) => if vals.len() >= 3 {
                    match dec_saves(t.skip(l + 1)) {
                        Some(r) => Some(
                            (
                                seq![
                                    SavedControlModel {
                                        unit: vals[0],
                                        selector: vals[1],
                                        control: vals.skip(2),
                                    },
                                ] + r.0,
                                r.1,
                            ),
                        ),
                        None => None,
                    }
                } else {
                    None
                },
                None => None,
            }
        }
    } else {
        Some((Seq::<SavedControlModel>::empty(), t))
    }
}

/// Decodes the leading blacklist lines; returns them with the remaining
/// text.
pub open spec fn dec_blacks(t: Seq<u8>) -> Option<(Seq<BlackControl>, Seq<u8>)>
    decreases t.len(),
{
    if t.len() >= 5 && t.take(5) == word_black() {
        let l = fnl(t);
        if l < 0 || l >= t.len() {
            None
        } else {
            match dec_vals(t.subrange(5, l)) {
                Some(vals) => if vals.len() == 2 {
                    match dec_blacks(t.skip(l + 1)) {
                        Some(r) => Some(
                            (
                                seq![BlackControl { unit: vals[0], selector: vals[1] }] + r.0,
                                r.1,
                            ),
                        ),
                        None => None,
                    }
                } else {
                    None
                },
                None => None,
            }
        }
    } else {
        Some((Seq::<BlackControl>::empty(), t))
    }
}

/// Decodes a whole store text: device entries, each with its lines.
pub open spec fn spec_decode(t: Seq<u8>) -> Option<Seq<ConfigurationModel>>
    decreases t.len(),
    via spec_decode_decreases
{
    if t.len() == 0 {
        Some(Seq::<ConfigurationModel>::empty())
    } else if t.len() >= 7 && t.take(7) == word_device() {
        let l = fnl(t);
        if l < 0 || l >= t.len() {
            None
        } else {
            let device = t.subrange(7, l);
            match dec_saves(t.skip(l + 1)) {
                Some(s) => match dec_blacks(s.1) {
                    Some(b) => match spec_decode(b.1) {
                        Some(rest) => Some(
                            seq![
                                ConfigurationModel {
                                    device,
                                    savelist: s.0,
                                    blacklist: b.0,
                                },
                            ] + rest,
                        ),
                        None => None,
                    },
                    None => None,
                },
                None => None,
            }
        }
    } else {
        None
    }
}

/// Decoding savelist lines never grows the remaining text.
proof fn lemma_dec_saves_shrinks(t: Seq<u8>)
    ensures
        dec_saves(t) matches Some(r) ==> r.1.len() <= t.len(),
    decreases t.len(),
{
    if t.len() >= 4 && t.take(4) == word_save() {
        let l = fnl(t);
        if !(l < 0 || l >= t.len()) {
            match dec_vals(t.subrange(4, l)) {
                Some(vals) => {
                    if vals.len() >= 3 {
                        lemma_dec_saves_shrinks(t.skip(l + 1));
                    }
                },
                None => {},
            }
        }
    }
}

/// Decoding blacklist lines never grows the remaining text.
proof fn lemma_dec_blacks_shrinks(t: Seq<u8>)
    ensures
        dec_blacks(t) matches Some(r) ==> r.1.len() <= t.len(),
    decreases t.len(),
{
    if t.len() >= 5 && t.take(5) == word_black() {
        let l = fnl(t);
        if !(l < 0 || l >= t.len()) {
            match dec_vals(t.subrange(5, l)) {
                Some(vals) => {
                    if vals.len() == 2 {
                        lemma_dec_blacks_shrinks(t.skip(l + 1));
                    }
                },
                None => {},
            }
        }
    }
}

#[via_fn]
proof fn spec_decode_decreases(t: Seq<u8>) {
    if t.len() != 0 && t.len() >= 7 && t.take(7) == word_device() {
        let l = fnl(t);
        if !(l < 0 || l >= t.len()) {
            match dec_saves(t.skip(l + 1)) {
                Some(s) => {
                    lemma_dec_saves_shrinks(t.skip(l + 1));
                    match dec_blacks(s.1) {
                        Some(b) => {
                            lemma_dec_blacks_shrinks(s.1);
                        },
                        None => {},
                    }
                },
                None => {},
            }
        }
    }
}


/// A configuration fit for the text form: its device path holds no
/// newline, and every saved value holds at least one byte — as every
/// value read from a control does.
pub open spec fn text_safe(c: ConfigurationModel) -> bool {
    &&& forall|i: int| 0 <= i < c.device.len() ==> c.device[i] != 10
    &&& forall|j: int| 0 <= j < c.savelist.len() ==> (#[trigger] c.savelist[j]).control.len() >= 1
}

/// Every device path of the store is fit for the text form.
pub open spec fn store_text_safe(s: Seq<ConfigurationModel>) -> bool {
    forall|i: int| 0 <= i < s.len() ==> text_safe(#[trigger] s[i])
}

/// The first newline of `u + [10] + r` stands right after `u` when `u`
/// holds none.
proof fn lemma_fnl_at(u: Seq<u8>, r: Seq<u8>)
    requires
        forall|i: int| 0 <= i < u.len() ==> u[i] != 10,
    ensures
        fnl(u + seq![10u8] + r) == u.len(),
    decreases u.len(),
{
    let t = u + seq![10u8] + r;
    if u.len() == 0 {
        assert(t[0] == 10);
    } else {
        assert(t[0] == u[0]);
        assert(t.drop_first() =~= u.drop_first() + seq![10u8] + r);
        lemma_fnl_at(u.drop_first(), r);
    }
}

/// The digits of a canonical decimal.
proof fn lemma_dec_digits(n: u8)
    ensures
        forall|i: int| 0 <= i < spec_dec(n).len() ==> is_digit(#[trigger] spec_dec(n)[i]),
        1 <= spec_dec(n).len() <= 3,
{
}

/// The leading digit run of digits followed by a non-digit (or nothing) is
/// exactly those digits.
proof fn lemma_digit_run_at(d: Seq<u8>, r: Seq<u8>)
    requires
        forall|i: int| 0 <= i < d.len() ==> is_digit(d[i]),
        r.len() == 0 || !is_digit(r[0]),
    ensures
        digit_run(d + r) == d.len(),
    decreases d.len(),
{
    let t = d + r;
    if d.len() == 0 {
        assert(t =~= r);
    } else {
        assert(t[0] == d[0]);
        assert(t.drop_first() =~= d.drop_first() + r);
        lemma_digit_run_at(d.drop_first(), r);
    }
}

/// Reading the canonical decimal of a byte gives the byte back.
proof fn lemma_digits_val_dec(n: u8)
    ensures
        digits_val(spec_dec(n)) == n,
{
    if n < 10 {
        let t = spec_dec(n);
        assert(t.drop_last() =~= Seq::<u8>::empty());
        assert(digits_val(Seq::<u8>::empty()) == 0);
        assert(t.last() == (48 + n) as u8);
        assert(digits_val(t) == digits_val(t.drop_last()) * 10 + (t.last() - 48));
    } else if n < 100 {
        let t = spec_dec(n);
        let h = t.drop_last();
        assert(h =~= seq![(48 + n / 10) as u8]);
        assert(h.drop_last() =~= Seq::<u8>::empty());
        assert(digits_val(Seq::<u8>::empty()) == 0);
        assert(h.last() == (48 + n / 10) as u8);
        assert(digits_val(h) == digits_val(h.drop_last()) * 10 + (h.last() - 48));
        assert(digits_val(h) == n / 10);
        assert(t.last() == (48 + n % 10) as u8);
        assert(digits_val(t) == digits_val(h) * 10 + (t.last() - 48));
        assert((n / 10) * 10 + n % 10 == n);
    } else {
        let t = spec_dec(n);
        let h = t.drop_last();
        assert(h =~= seq![(48 + n / 100) as u8, (48 + (n / 10) % 10) as u8]);
        let h2 = h.drop_last();
        assert(h2 =~= seq![(48 + n / 100) as u8]);
        assert(h2.drop_last() =~= Seq::<u8>::empty());
        assert(digits_val(Seq::<u8>::empty()) == 0);
        assert(h2.last() == (48 + n / 100) as u8);
        assert(digits_val(h2) == digits_val(h2.drop_last()) * 10 + (h2.last() - 48));
        assert(digits_val(h2) == n / 100);
        assert(h.last() == (48 + (n / 10) % 10) as u8);
        assert(digits_val(h) == digits_val(h2) * 10 + (h.last() - 48));
        assert(digits_val(h) == (n / 100) * 10 + (n / 10) % 10);
        assert((n / 100) * 10 + (n / 10) % 10 == n / 10) by {
            assert(n / 10 / 10 == n / 100) by (nonlinear_arith)
                requires
                    n >= 0,
            ;
            assert(n / 10 == (n / 10 / 10) * 10 + (n / 10) % 10);
        }
        assert(t.last() == (48 + n % 10) as u8);
        assert(digits_val(t) == digits_val(h) * 10 + (t.last() - 48));
        assert((n / 10) * 10 + n % 10 == n);
    }
}

/// A byte run encodes to spaces and digits only: never a newline.
proof fn lemma_enc_vals_bytes(v: Seq<u8>)
    ensures
        forall|i: int|
            0 <= i < spec_enc_vals(v).len() ==> (#[trigger] spec_enc_vals(v)[i] == 32
                || is_digit(spec_enc_vals(v)[i])),
    decreases v.len(),
{
    if v.len() > 0 {
        lemma_dec_digits(v[0]);
        lemma_enc_vals_bytes(v.drop_first());
        let t = spec_enc_vals(v);
        let head = seq![32u8] + spec_dec(v[0]);
        assert(t =~= head + spec_enc_vals(v.drop_first()));
        assert forall|i: int| 0 <= i < t.len() implies (#[trigger] t[i] == 32 || is_digit(
            t[i],
        )) by {
            if i < head.len() {
                assert(t[i] == head[i]);
                if i >= 1 {
                    assert(head[i] == spec_dec(v[0])[i - 1]);
                }
            } else {
                assert(t[i] == spec_enc_vals(v.drop_first())[i - head.len()]);
            }
        }
    }
}

/// Reading an encoded byte run gives the bytes back.
proof fn lemma_rt_vals(v: Seq<u8>)
    ensures
        dec_vals(spec_enc_vals(v)) == Some(v),
    decreases v.len(),
{
    if v.len() == 0 {
        assert(spec_enc_vals(v) =~= Seq::<u8>::empty());
        assert(dec_vals(spec_enc_vals(v)) == Some(Seq::<u8>::empty()));
        assert(v =~= Seq::<u8>::empty());
    } else {
        let t = spec_enc_vals(v);
        let d = spec_dec(v[0]);
        let tail = spec_enc_vals(v.drop_first());
        assert(t =~= seq![32u8] + d + tail);
        assert(t[0] == 32);
        lemma_dec_digits(v[0]);
        lemma_enc_vals_bytes(v.drop_first());
        assert(tail.len() == 0 || !is_digit(tail[0])) by {
            if tail.len() > 0 {
                assert(tail[0] == 32 || is_digit(tail[0]));
                if v.drop_first().len() > 0 {
                    assert(tail[0] == 32);
                }
            }
        }
        assert(t.skip(1) =~= d + tail);
        lemma_digit_run_at(d, tail);
        let k = digit_run(t.skip(1));
        assert(k == d.len());
        assert(1 <= k <= 3);
        assert(t.subrange(1, 1 + k) =~= d);
        lemma_digits_val_dec(v[0]);
        assert(digits_val(t.subrange(1, 1 + k)) == v[0]);
        assert(t.skip(1 + k) =~= tail);
        lemma_rt_vals(v.drop_first());
        assert(dec_vals(t.skip(1 + k)) == Some(v.drop_first()));
        assert(seq![v[0]] + v.drop_first() =~= v);
    }
}

/// Reading the encoded savelist lines gives the entries back and leaves
/// the rest untouched, as long as the rest opens with a blacklist line, a
/// device line, or nothing.
proof fn lemma_rt_saves(sl: Seq<SavedControlModel>, rest: Seq<u8>)
    requires
        forall|i: int| 0 <= i < sl.len() ==> (#[trigger] sl[i]).control.len() >= 1,
        rest.len() == 0 || rest[0] == 98 || rest[0] == 100,
    ensures
        dec_saves(spec_enc_savelist(sl) + rest) == Some((sl, rest)),
    decreases sl.len(),
{
    if sl.len() == 0 {
        let t = spec_enc_savelist(sl) + rest;
        assert(t =~= rest);
        if t.len() >= 4 {
            assert(t.take(4)[0] == rest[0]);
            assert(t.take(4) != word_save()) by {
                assert(word_save()[0] == 115);
            }
        }
        assert(sl =~= Seq::<SavedControlModel>::empty());
    } else {
        let e = sl[0];
        let vals = seq![e.unit, e.selector] + e.control;
        let line_body = word_save() + spec_enc_vals(vals);
        let t = spec_enc_savelist(sl) + rest;
        let after = spec_enc_savelist(sl.drop_first()) + rest;
        assert(spec_enc_saved(e) =~= line_body + seq![10u8]);
        assert(t =~= line_body + seq![10u8] + after);
        assert(t.take(4) =~= word_save()) by {
            assert forall|i: int| 0 <= i < 4 implies t.take(4)[i] == word_save()[i] by {
                assert(t[i] == line_body[i]);
            }
        }
        assert(t.len() >= 4);
        assert(forall|i: int| 0 <= i < line_body.len() ==> line_body[i] != 10) by {
            lemma_enc_vals_bytes(vals);
            assert forall|i: int| 0 <= i < line_body.len() implies line_body[i] != 10 by {
                if i >= 4 {
                    assert(line_body[i] == spec_enc_vals(vals)[i - 4]);
                }
            }
        }
        lemma_fnl_at(line_body, after);
        let l = fnl(t);
        assert(l == line_body.len());
        assert(l < t.len());
        assert(t.subrange(4, l) =~= spec_enc_vals(vals));
        lemma_rt_vals(vals);
        assert(dec_vals(t.subrange(4, l)) == Some(vals));
        assert(sl[0].control.len() >= 1);
        assert(vals.len() >= 3);
        assert(t.skip(l + 1) =~= after);
        assert(forall|i: int|
            0 <= i < sl.drop_first().len() ==> (#[trigger] sl.drop_first()[i]).control.len()
                >= 1) by {
            assert(forall|i: int|
                0 <= i < sl.drop_first().len() ==> sl.drop_first()[i] == sl[i + 1]);
        }
        lemma_rt_saves(sl.drop_first(), rest);
        assert(vals[0] == e.unit && vals[1] == e.selector);
        assert(vals.skip(2) =~= e.control);
        assert(seq![
            SavedControlModel { unit: vals[0], selector: vals[1], control: vals.skip(2) },
        ] + sl.drop_first() =~= sl);
    }
}

/// Reading the encoded blacklist lines gives the entries back and leaves
/// the rest untouched, as long as the rest opens with a device line or
/// nothing.
proof fn lemma_rt_blacks(bl: Seq<BlackControl>, rest: Seq<u8>)
    requires
        rest.len() == 0 || rest[0] == 100,
    ensures
        dec_blacks(spec_enc_blacklist(bl) + rest) == Some((bl, rest)),
    decreases bl.len(),
{
    if bl.len() == 0 {
        let t = spec_enc_blacklist(bl) + rest;
        assert(t =~= rest);
        if t.len() >= 5 {
            assert(t.take(5)[0] == rest[0]);
            assert(t.take(5) != word_black()) by {
                assert(word_black()[0] == 98);
            }
        }
        assert(bl =~= Seq::<BlackControl>::empty());
    } else {
        let e = bl[0];
        let vals = seq![e.unit, e.selector];
        let line_body = word_black() + spec_enc_vals(vals);
        let t = spec_enc_blacklist(bl) + rest;
        let after = spec_enc_blacklist(bl.drop_first()) + rest;
        assert(spec_enc_black(e) =~= line_body + seq![10u8]);
        assert(t =~= line_body + seq![10u8] + after);
        assert(t.take(5) =~= word_black()) by {
            assert forall|i: int| 0 <= i < 5 implies t.take(5)[i] == word_black()[i] by {
                assert(t[i] == line_body[i]);
            }
        }
        assert(t.len() >= 5);
        assert(forall|i: int| 0 <= i < line_body.len() ==> line_body[i] != 10) by {
            lemma_enc_vals_bytes(vals);
            assert forall|i: int| 0 <= i < line_body.len() implies line_body[i] != 10 by {
                if i >= 5 {
                    assert(line_body[i] == spec_enc_vals(vals)[i - 5]);
                }
            }
        }
        lemma_fnl_at(line_body, after);
        let l = fnl(t);
        assert(l == line_body.len());
        assert(l < t.len());
        assert(t.subrange(5, l) =~= spec_enc_vals(vals));
        lemma_rt_vals(vals);
        assert(dec_vals(t.subrange(5, l)) == Some(vals));
        assert(vals.len() == 2);
        assert(t.skip(l + 1) =~= after);
        lemma_rt_blacks(bl.drop_first(), rest);
        assert(vals[0] == e.unit && vals[1] == e.selector);
        assert(seq![BlackControl { unit: vals[0], selector: vals[1] }] + bl.drop_first()
            =~= bl);
    }
}

/// Round trip of the text form: decoding an encoded store gives the store
/// back.  With [`Configurations::load`]'s contract, this is the owed
/// success of loading: every saved store (uniquely keyed, as saving keeps
/// it) loads back from its own text, as exactly itself.
pub proof fn lemma_decode_encode(s: Seq<ConfigurationModel>)
    requires
        store_text_safe(s),
    ensures
        spec_decode(spec_encode(s)) == Some(s),
    decreases s.len(),
{
    if s.len() == 0 {
        assert(spec_encode(s).len() == 0);
        assert(s =~= Seq::<ConfigurationModel>::empty());
    } else {
        let c = s[0];
        let t = spec_encode(s);
        let tail_text = spec_encode(s.drop_first());
        let line_body = word_device() + c.device;
        let entries = spec_enc_savelist(c.savelist) + (spec_enc_blacklist(c.blacklist)
            + tail_text);
        assert(spec_enc_config(c) =~= line_body + seq![10u8] + (spec_enc_savelist(c.savelist)
            + spec_enc_blacklist(c.blacklist)));
        assert(t =~= line_body + seq![10u8] + entries);
        assert(t.len() > 0);
        assert(t.take(7) =~= word_device()) by {
            assert forall|i: int| 0 <= i < 7 implies t.take(7)[i] == word_device()[i] by {
                assert(t[i] == line_body[i]);
            }
        }
        assert(t.len() >= 7);
        assert(text_safe(c));
        assert(forall|i: int| 0 <= i < line_body.len() ==> line_body[i] != 10) by {
            assert forall|i: int| 0 <= i < line_body.len() implies line_body[i] != 10 by {
                if i >= 7 {
                    assert(line_body[i] == c.device[i - 7]);
                }
            }
        }
        lemma_fnl_at(line_body, entries);
        let l = fnl(t);
        assert(l == line_body.len());
        assert(l < t.len());
        assert(t.subrange(7, l) =~= c.device);
        assert(t.skip(l + 1) =~= entries);
        let black_and_on = spec_enc_blacklist(c.blacklist) + tail_text;
        assert(black_and_on.len() == 0 || black_and_on[0] == 98 || black_and_on[0] == 100) by {
            if black_and_on.len() > 0 {
                if c.blacklist.len() > 0 {
                    assert(black_and_on[0] == spec_enc_black(c.blacklist[0])[0]);
                    assert(spec_enc_black(c.blacklist[0])[0] == 98);
                } else {
                    assert(black_and_on =~= tail_text);
                    assert(s.drop_first().len() > 0);
                    assert(tail_text[0] == spec_enc_config(s.drop_first()[0])[0]);
                    assert(spec_enc_config(s.drop_first()[0])[0] == 100);
                }
            }
        }
        lemma_rt_saves(c.savelist, black_and_on);
        assert(dec_saves(entries) == Some((c.savelist, black_and_on)));
        assert(tail_text.len() == 0 || tail_text[0] == 100) by {
            if tail_text.len() > 0 {
                assert(s.drop_first().len() > 0);
                assert(tail_text[0] == spec_enc_config(s.drop_first()[0])[0]);
            }
        }
        lemma_rt_blacks(c.blacklist, tail_text);
        assert(dec_blacks(black_and_on) == Some((c.blacklist, tail_text)));
        assert(store_text_safe(s.drop_first())) by {
            assert forall|i: int| 0 <= i < s.drop_first().len() implies text_safe(
                #[trigger] s.drop_first()[i],
            ) by {
                assert(s.drop_first()[i] == s[i + 1]);
            }
        }
        lemma_decode_encode(s.drop_first());
        assert(seq![ConfigurationModel {
            device: c.device,
            savelist: c.savelist,
            blacklist: c.blacklist,
        }] + s.drop_first() =~= s) by {
            assert(ConfigurationModel {
                device: c.device,
                savelist: c.savelist,
                blacklist: c.blacklist,
            } =~= c);
        }
    }
}

/// No two stores share a text: the saved form identifies the store.
pub proof fn lemma_encode_injective(a: Seq<ConfigurationModel>, b: Seq<ConfigurationModel>)
    requires
        store_text_safe(a),
        store_text_safe(b),
        spec_encode(a) == spec_encode(b),
    ensures
        a == b,
{
    lemma_decode_encode(a);
    lemma_decode_encode(b);
}


// ---------------------------------------------------------------------------
// Reading
// ---------------------------------------------------------------------------
//
// The executable reader mirrors the mathematical decoder piece by piece,
// so that `load` can promise exactly its result.

/// The word that opens a savelist line, as a vector.
fn save_word() -> (r: Vec<u8>)
    ensures
        r@ == word_save(),
{
    let mut w: Vec<u8> = Vec::new();
    w.push(115);
    w.push(97);
    w.push(118);
    w.push(101);
    assert(w@ =~= word_save());
    w
}

/// The word that opens a blacklist line, as a vector.
fn black_word() -> (r: Vec<u8>)
    ensures
        r@ == word_black(),
{
    let mut w: Vec<u8> = Vec::new();
    w.push(98);
    w.push(108);
    w.push(97);
    w.push(99);
    w.push(107);
    assert(w@ =~= word_black());
    w
}

/// The word (with its trailing space) that opens a device line, as a
/// vector.
fn device_word() -> (r: Vec<u8>)
    ensures
        r@ == word_device(),
{
    let mut w: Vec<u8> = Vec::new();
    w.push(100);
    w.push(101);
    w.push(118);
    w.push(105);
    w.push(99);
    w.push(101);
    w.push(32);
    assert(w@ =~= word_device());
    w
}

/// Whether the bytes at `pos` start with the given word.
fn starts_with(text: &Vec<u8>, pos: usize, word: &Vec<u8>) -> (r: bool)
    requires
        pos <= text@.len(),
    ensures
        r == (pos + word@.len() <= text@.len() && text@.subrange(
            pos as int,
            pos + word@.len(),
        ) == word@),
{
    let n = text.len();
    let wn = word.len();
    if n - pos < wn {
        return false;
    }
    let mut i: usize = 0;
    while i < wn
        invariant
            wn == word@.len(),
            n == text@.len(),
            pos + wn <= n,
            i <= wn,
            forall|j: int| 0 <= j < i ==> text@[pos + j] == word@[j],
        decreases wn - i,
    {
        if text[pos + i] != word[i] {
            proof {
                assert(text@.subrange(pos as int, pos + wn as int)[i as int] == text@[pos
                    + i]);
            }
            return false;
        }
        i += 1;
    }
    assert(text@.subrange(pos as int, pos + wn as int) =~= word@);
    true
}

/// The first-newline position is never negative.
proof fn lemma_fnl_nonneg(t: Seq<u8>)
    ensures
        fnl(t) >= 0,
    decreases t.len(),
{
    if t.len() != 0 && t[0] != 10 {
        lemma_fnl_nonneg(t.drop_first());
    }
}

/// A text whose first `k` bytes hold no newline has its first newline no
/// earlier than `k`.
proof fn lemma_fnl_lower(t: Seq<u8>, k: int)
    requires
        0 <= k <= t.len(),
        forall|i: int| 0 <= i < k ==> t[i] != 10,
    ensures
        fnl(t) >= k,
    decreases k,
{
    if k > 0 {
        assert(t[0] != 10);
        assert forall|i: int| 0 <= i < k - 1 implies t.drop_first()[i] != 10 by {
            assert(t.drop_first()[i] == t[i + 1]);
        }
        lemma_fnl_lower(t.drop_first(), k - 1);
        assert(fnl(t) == 1 + fnl(t.drop_first()));
    } else {
        lemma_fnl_nonneg(t);
    }
}

/// The position of the first newline at or after `from`.
fn find_nl(text: &Vec<u8>, from: usize) -> (l: usize)
    requires
        from <= text@.len(),
    ensures
        from <= l <= text@.len(),
        l - from == fnl(text@.skip(from as int)),
{
    let n = text.len();
    let mut i = from;
    while i < n
        invariant
            n == text@.len(),
            from <= i <= n,
            fnl(text@.skip(from as int)) == i - from + fnl(text@.skip(i as int)),
        decreases n - i,
    {
        proof {
            assert(text@.skip(i as int)[0] == text@[i as int]);
            assert(text@.skip(i as int).drop_first() =~= text@.skip(i + 1));
        }
        if text[i] == 10 {
            return i;
        }
        i += 1;
    }
    assert(text@.skip(n as int) =~= Seq::<u8>::empty());
    n
}

/// The length of the digit run in `[from, to)`.
fn run_digits(text: &Vec<u8>, from: usize, to: usize) -> (k: usize)
    requires
        from <= to <= text@.len(),
    ensures
        k == digit_run(text@.subrange(from as int, to as int)),
        from + k <= to,
        forall|j: int| from <= j < from + k ==> is_digit(text@[j]),
{
    let mut i = from;
    while i < to
        invariant
            from <= i <= to <= text@.len(),
            digit_run(text@.subrange(from as int, to as int)) == i - from + digit_run(
                text@.subrange(i as int, to as int),
            ),
            forall|j: int| from <= j < i ==> is_digit(text@[j]),
        decreases to - i,
    {
        proof {
            assert(text@.subrange(i as int, to as int)[0] == text@[i as int]);
            assert(text@.subrange(i as int, to as int).drop_first() =~= text@.subrange(
                i + 1,
                to as int,
            ));
        }
        let b = text[i];
        if b < 48 || b > 57 {
            return i - from;
        }
        i += 1;
    }
    assert(text@.subrange(to as int, to as int) =~= Seq::<u8>::empty());
    to - from
}

/// The value of the digit run `[from, to)`.
fn read_digits_val(text: &Vec<u8>, from: usize, to: usize) -> (v: u32)
    requires
        from <= to <= text@.len(),
        to - from <= 3,
        forall|j: int| from <= j < to ==> is_digit(text@[j]),
    ensures
        v == digits_val(text@.subrange(from as int, to as int)),
{
    let mut acc: u32 = 0;
    let mut i = from;
    assert(text@.subrange(from as int, from as int) =~= Seq::<u8>::empty());
    while i < to
        invariant
            from <= i <= to <= text@.len(),
            to - from <= 3,
            forall|j: int| from <= j < to ==> is_digit(text@[j]),
            acc == digits_val(text@.subrange(from as int, i as int)),
            i - from == 0 ==> acc == 0,
            i - from == 1 ==> acc <= 9,
            i - from == 2 ==> acc <= 99,
            i - from == 3 ==> acc <= 999,
        decreases to - i,
    {
        proof {
            let u = text@.subrange(from as int, i + 1);
            assert(u.drop_last() =~= text@.subrange(from as int, i as int));
            assert(u.last() == text@[i as int]);
        }
        acc = acc * 10 + (text[i] - 48) as u32;
        i += 1;
    }
    acc
}

/// Reads a run of space-separated values covering `[from, to)` exactly.
fn read_vals(text: &Vec<u8>, from: usize, to: usize) -> (r: Option<Vec<u8>>)
    requires
        from <= to <= text@.len(),
    ensures
        match dec_vals(text@.subrange(from as int, to as int)) {
            Some(v) => r is Some && r->0@ == v,
            None => r is None,
        },
{
    let mut vals: Vec<u8> = Vec::new();
    let mut p = from;
    while p < to
        invariant
            from <= p <= to <= text@.len(),
            match dec_vals(text@.subrange(p as int, to as int)) {
                Some(rest) => dec_vals(text@.subrange(from as int, to as int)) == Some(
                    vals@ + rest,
                ),
                None => dec_vals(text@.subrange(from as int, to as int)) is None,
            },
        decreases to - p,
    {
        let ghost u = text@.subrange(p as int, to as int);
        proof {
            assert(u[0] == text@[p as int]);
        }
        if text[p] != 32 {
            return None;
        }
        let k = run_digits(text, p + 1, to);
        proof {
            assert(u.skip(1) =~= text@.subrange(p + 1, to as int));
        }
        if k < 1 || k > 3 {
            return None;
        }
        assert(1 + k <= u.len());
        let v = read_digits_val(text, p + 1, p + 1 + k);
        proof {
            assert(u.subrange(1, 1 + k as int) =~= text@.subrange(p + 1, p + 1 + k));
        }
        if v > 255 {
            return None;
        }
        let ghost prev = vals@;
        vals.push(v as u8);
        proof {
            assert(u.skip(1 + k as int) =~= text@.subrange(p + 1 + k, to as int));
            assert(vals@ =~= prev + seq![(v as u8)]);
            let next = dec_vals(text@.subrange(p + 1 + k, to as int));
            if next is Some {
                assert(prev + (seq![(v as u8)] + next->0) =~= vals@ + next->0);
            }
        }
        p = p + 1 + k;
    }
    proof {
        assert(text@.subrange(p as int, to as int) =~= Seq::<u8>::empty());
        assert(vals@ + Seq::<u8>::empty() =~= vals@);
    }
    Some(vals)
}

/// Reads the leading savelist lines starting at `from`; returns the
/// entries and the position of what follows them.
fn read_saves(text: &Vec<u8>, from: usize) -> (r: Option<(Vec<SavedControl>, usize)>)
    requires
        from <= text@.len(),
    ensures
        match dec_saves(text@.skip(from as int)) {
            Some(p) => r is Some && (r->0).0@.map_values(|e: SavedControl| e@) == p.0 && from
                <= (r->0).1 <= text@.len() && text@.skip((r->0).1 as int) == p.1,
            None => r is None,
        },
{
    let n = text.len();
    let word = save_word();
    let mut acc: Vec<SavedControl> = Vec::new();
    let mut p = from;
    assert(acc@.map_values(|e: SavedControl| e@) =~= Seq::<SavedControlModel>::empty());
    loop
        invariant
            from <= p <= n,
            n == text@.len(),
            word@ == word_save(),
            match dec_saves(text@.skip(p as int)) {
                Some(rp) => dec_saves(text@.skip(from as int)) == Some(
                    (acc@.map_values(|e: SavedControl| e@) + rp.0, rp.1),
                ),
                None => dec_saves(text@.skip(from as int)) is None,
            },
        decreases n - p,
    {
        let ghost t = text@.skip(p as int);
        proof {
            if p + 4 <= n {
                assert(t.take(4) =~= text@.subrange(p as int, p + 4));
            }
        }
        if !starts_with(text, p, &word) {
            proof {
                assert(dec_saves(t) == Some((Seq::<SavedControlModel>::empty(), t)));
                assert(acc@.map_values(|e: SavedControl| e@) + Seq::<
                    SavedControlModel,
                >::empty() =~= acc@.map_values(|e: SavedControl| e@));
            }
            return Some((acc, p));
        }
        proof {
            assert forall|ii: int| 0 <= ii < 4 implies t[ii] != 10 by {
                assert(t[ii] == t.take(4)[ii]);
            }
            lemma_fnl_lower(t, 4);
        }
        let l = find_nl(text, p);
        if l >= n {
            return None;
        }
        let vals = match read_vals(text, p + 4, l) {
            Some(v) => v,
            None => {
                proof {
                    assert(t.subrange(4, l - p) =~= text@.subrange(p + 4, l as int));
                }
                return None;
            },
        };
        proof {
            assert(t.subrange(4, l - p) =~= text@.subrange(p + 4, l as int));
        }
        if vals.len() < 3 {
            return None;
        }
        let vn = vals.len();
        let mut control: Vec<u8> = Vec::new();
        let mut j: usize = 2;
        while j < vn
            invariant
                vn == vals@.len(),
                2 <= j <= vn,
                control@ == vals@.subrange(2, j as int),
            decreases vn - j,
        {
            control.push(vals[j]);
            assert(control@ =~= vals@.subrange(2, j + 1));
            j += 1;
        }
        assert(control@ =~= vals@.skip(2));
        let entry = SavedControl { unit: vals[0], selector: vals[1], control };
        let ghost prev = acc@.map_values(|e: SavedControl| e@);
        acc.push(entry);
        proof {
            assert(t.skip((l - p) + 1) =~= text@.skip(l + 1));
            assert(acc@.map_values(|e: SavedControl| e@) =~= prev + seq![entry@]);
            let next = dec_saves(text@.skip(l + 1));
            if next is Some {
                assert(prev + (seq![entry@] + (next->0).0) =~= acc@.map_values(
                    |e: SavedControl| e@,
                ) + (next->0).0);
            }
        }
        p = l + 1;
    }
}

/// Reads the leading blacklist lines starting at `from`; returns the
/// entries and the position of what follows them.
fn read_blacks(text: &Vec<u8>, from: usize) -> (r: Option<(Vec<BlackControl>, usize)>)
    requires
        from <= text@.len(),
    ensures
        match dec_blacks(text@.skip(from as int)) {
            Some(p) => r is Some && (r->0).0@ == p.0 && from <= (r->0).1 <= text@.len()
                && text@.skip((r->0).1 as int) == p.1,
            None => r is None,
        },
{
    let n = text.len();
    let word = black_word();
    let mut acc: Vec<BlackControl> = Vec::new();
    let mut p = from;
    assert(acc@ =~= Seq::<BlackControl>::empty());
    loop
        invariant
            from <= p <= n,
            n == text@.len(),
            word@ == word_black(),
            match dec_blacks(text@.skip(p as int)) {
                Some(rp) => dec_blacks(text@.skip(from as int)) == Some((acc@ + rp.0, rp.1)),
                None => dec_blacks(text@.skip(from as int)) is None,
            },
        decreases n - p,
    {
        let ghost t = text@.skip(p as int);
        proof {
            if p + 5 <= n {
                assert(t.take(5) =~= text@.subrange(p as int, p + 5));
            }
        }
        if !starts_with(text, p, &word) {
            proof {
                assert(dec_blacks(t) == Some((Seq::<BlackControl>::empty(), t)));
                assert(acc@ + Seq::<BlackControl>::empty() =~= acc@);
            }
            return Some((acc, p));
        }
        proof {
            assert forall|ii: int| 0 <= ii < 5 implies t[ii] != 10 by {
                assert(t[ii] == t.take(5)[ii]);
            }
            lemma_fnl_lower(t, 5);
        }
        let l = find_nl(text, p);
        if l >= n {
            return None;
        }
        let vals = match read_vals(text, p + 5, l) {
            Some(v) => v,
            None => {
                proof {
                    assert(t.subrange(5, l - p) =~= text@.subrange(p + 5, l as int));
                }
                return None;
            },
        };
        proof {
            assert(t.subrange(5, l - p) =~= text@.subrange(p + 5, l as int));
        }
        if vals.len() != 2 {
            return None;
        }
        let entry = BlackControl { unit: vals[0], selector: vals[1] };
        let ghost prev = acc@;
        acc.push(entry);
        proof {
            assert(t.skip((l - p) + 1) =~= text@.skip(l + 1));
            assert(acc@ =~= prev + seq![entry]);
            let next = dec_blacks(text@.skip(l + 1));
            if next is Some {
                assert(prev + (seq![entry] + (next->0).0) =~= acc@ + (next->0).0);
            }
        }
        p = l + 1;
    }
}

/// Reads the whole store text, mirroring the mathematical decoder.
fn decode_store(text: &Vec<u8>) -> (r: Result<Configurations, Error>)
    ensures
        match spec_decode(text@) {
            Some(m) => r is Ok && r->Ok_0@ == m,
            None => r is Err && r->Err_0 == Error::InvalidInput,
        },
{
    let n = text.len();
    let word = device_word();
    let mut store = Configurations::new();
    let mut p: usize = 0;
    assert(text@.skip(0) =~= text@);
    loop
        invariant
            p <= n,
            n == text@.len(),
            word@ == word_device(),
            match spec_decode(text@.skip(p as int)) {
                Some(rest) => spec_decode(text@) == Some(store@ + rest),
                None => spec_decode(text@) is None,
            },
        decreases n - p,
    {
        let ghost t = text@.skip(p as int);
        if p >= n {
            proof {
                assert(t =~= Seq::<u8>::empty());
                assert(store@ + Seq::<ConfigurationModel>::empty() =~= store@);
            }
            return Ok(store);
        }
        proof {
            if p + 7 <= n {
                assert(t.take(7) =~= text@.subrange(p as int, p + 7));
            }
        }
        if !starts_with(text, p, &word) {
            return Err(Error::InvalidInput);
        }
        proof {
            assert forall|ii: int| 0 <= ii < 7 implies t[ii] != 10 by {
                assert(t[ii] == t.take(7)[ii]);
            }
            lemma_fnl_lower(t, 7);
        }
        let l = find_nl(text, p);
        if l >= n {
            return Err(Error::InvalidInput);
        }
        let mut device: Vec<u8> = Vec::new();
        let mut k = p + 7;
        while k < l
            invariant
                p + 7 <= k <= l <= text@.len(),
                device@ == text@.subrange(p + 7, k as int),
            decreases l - k,
        {
            device.push(text[k]);
            assert(device@ =~= text@.subrange(p + 7, k + 1));
            k += 1;
        }
        proof {
            assert(t.subrange(7, l - p) =~= text@.subrange(p + 7, l as int));
            assert(device@ =~= t.subrange(7, l - p));
            assert(t.skip((l - p) + 1) =~= text@.skip(l + 1));
        }
        let (saves, p2) = match read_saves(text, l + 1) {
            Some(x) => x,
            None => {
                return Err(Error::InvalidInput);
            },
        };
        let (blacks, p3) = match read_blacks(text, p2) {
            Some(x) => x,
            None => {
                return Err(Error::InvalidInput);
            },
        };
        let config = Configuration::from_parts(V4LPath::from_bytes(device), saves, blacks);
        let ghost cm = config@;
        let ghost prev = store@;
        config.append_entry(&mut store);
        proof {
            assert(store@ =~= prev + seq![cm]);
            let next = spec_decode(text@.skip(p3 as int));
            if next is Some {
                assert(prev + (seq![cm] + next->0) =~= store@ + next->0);
            }
        }
        assert(p3 > p);
        p = p3;
    }
}

/// Whether every entry of the store has a device key of its own.
fn devices_unique(store: &Configurations) -> (r: bool)
    ensures
        r == spec_unique_devices(store@),
{
    let entries = store.devices();
    let n = entries.len();
    let mut i: usize = 0;
    while i < n
        invariant
            n == entries@.len(),
            entries@.map_values(|c: Configuration| c@) == store@,
            i <= n,
            forall|a: int, b: int|
                0 <= a < b < store@.len() && a < i ==> ((#[trigger] store@[a]).device != (
                #[trigger] store@[b]).device),
        decreases n - i,
    {
        let mut j = i + 1;
        while j < n
            invariant
                n == entries@.len(),
                entries@.map_values(|c: Configuration| c@) == store@,
                i < n,
                i + 1 <= j <= n,
                forall|b: int|
                    i < b < j ==> (#[trigger] store@[b]).device != store@[i as int].device,
            decreases n - j,
        {
            proof {
                assert(entries@[i as int]@ == store@[i as int]);
                assert(entries@[j as int]@ == store@[j as int]);
            }
            if entries[i].device().same_path(entries[j].device()) {
                proof {
                    assert(store@[i as int].device == store@[j as int].device);
                }
                return false;
            }
            j += 1;
        }
        i += 1;
    }
    true
}

} // verus!
