use vstd::prelude::*;

use crate::bytes::{bytes_eq, copy_bytes};
use crate::control::Control;

verus! {

// The earlier generation of the store: a per-device record holding the
// controls to apply and the controls to avoid, kept in a flat map from
// device path to record.  Unlike the current store, writing never removes
// an entry, and reading takes the record out of the map.

/// A control that is applied to a device at boot.
#[derive(Debug)]
pub struct WhiteControl {
    /// Unit used on the device to identify the control to apply.
    pub unit: u8,
    /// Selector used on the device to identify the control to apply.
    pub selector: u8,
    /// The value to apply to the control.
    pub value: Vec<u8>,
}

/// A control that may break the device if applied.
#[derive(Debug, Clone, Copy, PartialEq, Eq, Structural)]
pub struct BlackControl {
    /// Unit used on the device to identify the risky control.
    pub unit: u8,
    /// Selector used on the device to identify the risky control.
    pub selector: u8,
}

/// Model of a whitelist entry.
#[verifier::ext_equal]
pub struct WhiteControlModel {
    pub unit: u8,
    pub selector: u8,
    pub value: Seq<u8>,
}

impl View for WhiteControl {
    type V = WhiteControlModel;

    open spec fn view(&self) -> WhiteControlModel {
        WhiteControlModel { unit: self.unit, selector: self.selector, value: self.value@ }
    }
}

/// A control configuration for one device.
#[derive(Debug)]
pub struct Config {
    /// The controls that have to be applied to the device.
    pub white_list: Vec<WhiteControl>,
    /// The controls that may break the device if applied.
    pub black_list: Vec<BlackControl>,
}

/// Model of a device record.
#[verifier::ext_equal]
pub struct ConfigModel {
    pub white_list: Seq<WhiteControlModel>,
    pub black_list: Seq<BlackControl>,
}

impl View for Config {
    type V = ConfigModel;

    open spec fn view(&self) -> ConfigModel {
        ConfigModel {
            white_list: self.white_list@.map_values(|w: WhiteControl| w@),
            black_list: self.black_list@,
        }
    }
}

/// The record stored under the first occurrence of a device key.
pub open spec fn spec_config_lookup(s: Seq<(Seq<u8>, ConfigModel)>, d: Seq<u8>) -> Option<
    ConfigModel,
>
    decreases s.len(),
{
    if s.len() == 0 {
        None
    } else if s[0].0 == d {
        Some(s[0].1)
    } else {
        spec_config_lookup(s.drop_first(), d)
    }
}

/// The map without the first record keyed by the device.
pub open spec fn spec_config_take(s: Seq<(Seq<u8>, ConfigModel)>, d: Seq<u8>) -> Seq<
    (Seq<u8>, ConfigModel),
>
    decreases s.len(),
{
    if s.len() == 0 {
        s
    } else if s[0].0 == d {
        s.drop_first()
    } else {
        seq![s[0]] + spec_config_take(s.drop_first(), d)
    }
}

/// The map with the record stored under the device, in place of the first
/// record with that key or appended.
pub open spec fn spec_config_store(
    s: Seq<(Seq<u8>, ConfigModel)>,
    d: Seq<u8>,
    c: ConfigModel,
) -> Seq<(Seq<u8>, ConfigModel)>
    decreases s.len(),
{
    if s.len() == 0 {
        seq![(d, c)]
    } else if s[0].0 == d {
        seq![(d, c)] + s.drop_first()
    } else {
        seq![s[0]] + spec_config_store(s.drop_first(), d, c)
    }
}

/// The device records, keyed by device path.
#[derive(Debug)]
pub struct Configs {
    configs: Vec<(Vec<u8>, Config)>,
}

impl View for Configs {
    type V = Seq<(Seq<u8>, ConfigModel)>;

    closed spec fn view(&self) -> Seq<(Seq<u8>, ConfigModel)> {
        self.configs@.map_values(|e: (Vec<u8>, Config)| (e.0@, e.1@))
    }
}

impl Config {
    /// A record with nothing to apply and nothing to avoid.
    pub fn new() -> (r: Config)
        ensures
            r@.white_list == Seq::<WhiteControlModel>::empty(),
            r@.black_list == Seq::<BlackControl>::empty(),
    {
        let r = Config { white_list: Vec::new(), black_list: Vec::new() };
        assert(r@.white_list =~= Seq::<WhiteControlModel>::empty());
        r
    }

    /// Stores this record for the device, replacing any earlier one.
    pub fn save(self, device: &Vec<u8>, store: &mut Configs)
        ensures
            final(store)@ == spec_config_store(old(store)@, device@, self@),
    {
        let ghost me = self@;
        let n = store.configs.len();
        let mut i: usize = 0;
        while i < n
            invariant
                n == store.configs@.len(),
                store == old(store),
                me == self@,
                i <= n,
                forall|j: int| 0 <= j < i ==> (#[trigger] store@[j]).0 != device@,
            decreases n - i,
        {
            if bytes_eq(&store.configs[i].0, device) {
                proof {
                    lemma_config_store_at(store@, device@, me, i as int);
                }
                store.configs.set(i, (copy_bytes(device), self));
                assert(store@ =~= old(store)@.update(i as int, (device@, me)));
                return ;
            }
            i += 1;
        }
        proof {
            lemma_config_store_append(store@, device@, me);
        }
        store.configs.push((copy_bytes(device), self));
        assert(store@ =~= old(store)@.push((device@, me)));
    }

    /// Takes the record stored for the device out of the store, or yields
    /// an empty record when there is none.
    pub fn load(device: &Vec<u8>, store: &mut Configs) -> (r: Config)
        ensures
            r@ == match spec_config_lookup(old(store)@, device@) {
                Some(c) => c,
                None => ConfigModel {
                    white_list: Seq::<WhiteControlModel>::empty(),
                    black_list: Seq::<BlackControl>::empty(),
                },
            },
            final(store)@ == spec_config_take(old(store)@, device@),
    {
        let n = store.configs.len();
        let mut i: usize = 0;
        while i < n
            invariant
                n == store.configs@.len(),
                store == old(store),
                i <= n,
                forall|j: int| 0 <= j < i ==> (#[trigger] store@[j]).0 != device@,
            decreases n - i,
        {
            if bytes_eq(&store.configs[i].0, device) {
                proof {
                    lemma_config_found_at(store@, device@, i as int);
                }
                let entry = store.configs.remove(i);
                assert(store@ =~= old(store)@.remove(i as int));
                return entry.1;
            }
            i += 1;
        }
        proof {
            lemma_config_missing(store@, device@);
        }
        Config::new()
    }
}

impl Configs {
    /// An empty store.
    pub fn load_or_new() -> (r: Configs)
        ensures
            r@ == Seq::<(Seq<u8>, ConfigModel)>::empty(),
    {
        let r = Configs { configs: Vec::new() };
        assert(r@ =~= Seq::<(Seq<u8>, ConfigModel)>::empty());
        r
    }

    /// The records, in store order.
    pub fn entries(&self) -> (r: &Vec<(Vec<u8>, Config)>)
        ensures
            r@.map_values(|e: (Vec<u8>, Config)| (e.0@, e.1@)) == self@,
    {
        &self.configs
    }
}

/// When the first key match is at `i`, storing is an update at `i`.
proof fn lemma_config_store_at(s: Seq<(Seq<u8>, ConfigModel)>, d: Seq<u8>, c: ConfigModel, i: int)
    requires
        0 <= i < s.len(),
        s[i].0 == d,
        forall|j: int| 0 <= j < i ==> (#[trigger] s[j]).0 != d,
    ensures
        spec_config_store(s, d, c) == s.update(i, (d, c)),
    decreases i,
{
    if i == 0 {
        assert(seq![(d, c)] + s.drop_first() =~= s.update(0, (d, c)));
    } else {
        lemma_config_store_at(s.drop_first(), d, c, i - 1);
        assert(seq![s[0]] + s.drop_first().update(i - 1, (d, c)) =~= s.update(i, (d, c)));
    }
}

/// When no key matches, storing is an append.
proof fn lemma_config_store_append(s: Seq<(Seq<u8>, ConfigModel)>, d: Seq<u8>, c: ConfigModel)
    requires
        forall|j: int| 0 <= j < s.len() ==> (#[trigger] s[j]).0 != d,
    ensures
        spec_config_store(s, d, c) == s.push((d, c)),
    decreases s.len(),
{
    if s.len() == 0 {
        assert(spec_config_store(s, d, c) =~= s.push((d, c)));
    } else {
        lemma_config_store_append(s.drop_first(), d, c);
        assert(seq![s[0]] + s.drop_first().push((d, c)) =~= s.push((d, c)));
    }
}

/// When the first key match is at `i`, the lookup yields that record and
/// taking it out removes position `i`.
proof fn lemma_config_found_at(s: Seq<(Seq<u8>, ConfigModel)>, d: Seq<u8>, i: int)
    requires
        0 <= i < s.len(),
        s[i].0 == d,
        forall|j: int| 0 <= j < i ==> (#[trigger] s[j]).0 != d,
    ensures
        spec_config_lookup(s, d) == Some(s[i].1),
        spec_config_take(s, d) == s.remove(i),
    decreases i,
{
    if i == 0 {
        assert(s.drop_first() =~= s.remove(0));
    } else {
        lemma_config_found_at(s.drop_first(), d, i - 1);
        assert(seq![s[0]] + s.drop_first().remove(i - 1) =~= s.remove(i));
    }
}

/// When no key matches, the lookup yields nothing and taking changes
/// nothing.
proof fn lemma_config_missing(s: Seq<(Seq<u8>, ConfigModel)>, d: Seq<u8>)
    requires
        forall|j: int| 0 <= j < s.len() ==> (#[trigger] s[j]).0 != d,
    ensures
        spec_config_lookup(s, d) is None,
        spec_config_take(s, d) == s,
    decreases s.len(),
{
    if s.len() > 0 {
        lemma_config_missing(s.drop_first(), d);
        assert(seq![s[0]] + s.drop_first() =~= s);
    }
}

impl Control for WhiteControl {
    open spec fn unit_model(&self) -> u8 {
        self.unit
    }

    open spec fn selector_model(&self) -> u8 {
        self.selector
    }

    open spec fn value_model(&self) -> Seq<u8> {
        self.value@
    }

    fn unit(&self) -> u8 {
        self.unit
    }

    fn selector(&self) -> u8 {
        self.selector
    }

    fn value_ref(&self) -> &Vec<u8> {
        &self.value
    }

    fn value(self) -> Vec<u8> {
        self.value
    }

    fn set_value_byte(&mut self, i: usize, b: u8) {
        self.value.set(i, b);
    }
}

} // verus!
