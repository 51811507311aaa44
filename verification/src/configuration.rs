use vstd::prelude::*;

use crate::bytes::{bytes_eq, copy_bytes};
use crate::error::Error;
use crate::xu_control::{XuControl, XuControlModel};

verus! {

// ---------------------------------------------------------------------------
// Stable device paths
// ---------------------------------------------------------------------------

/// One entry of the by-id directory: the symlink path and the device node it
/// resolves to.  The caller lists the directory and resolves each link; this
/// module only decides which entry names the device.
#[derive(Debug)]
pub struct ByIdEntry {
    pub link: Vec<u8>,
    pub target: Vec<u8>,
}

/// The stable path of a device: the first by-id entry whose resolved target
/// is the device itself, or the device path unchanged when no entry matches.
pub open spec fn spec_stable_path(device: Seq<u8>, entries: Seq<ByIdEntry>) -> Seq<u8>
    decreases entries.len(),
{
    if entries.len() == 0 {
        device
    } else if entries[0].target@ == device {
        entries[0].link@
    } else {
        spec_stable_path(device, entries.drop_first())
    }
}

/// The key under which a device is stored: its stable by-id path when one
/// exists, the given path otherwise.
#[derive(Debug)]
pub struct V4LPath {
    path: Vec<u8>,
}

impl View for V4LPath {
    type V = Seq<u8>;

    closed spec fn view(&self) -> Seq<u8> {
        self.path@
    }
}

impl V4LPath {
    /// Creates a new path key, preferring the stable by-id link over the
    /// given device path.  `entries` are the by-id symlinks with their
    /// resolved targets, in directory order.
    pub fn new(device: Vec<u8>, entries: &Vec<ByIdEntry>) -> (r: V4LPath)
        ensures
            r@ == spec_stable_path(device@, entries@),
    {
        let n = entries.len();
        assert(entries@.skip(0) =~= entries@);
        let mut i: usize = 0;
        while i < n
            invariant
                n == entries@.len(),
                i <= n,
                spec_stable_path(device@, entries@) == spec_stable_path(
                    device@,
                    entries@.skip(i as int),
                ),
            decreases n - i,
        {
            assert(entries@.skip(i as int)[0] == entries@[i as int]);
            if bytes_eq(&entries[i].target, &device) {
                return V4LPath { path: copy_bytes(&entries[i].link) };
            }
            assert(entries@.skip(i as int).drop_first() =~= entries@.skip(i + 1));
            i += 1;
        }
        assert(entries@.skip(n as int) =~= Seq::<ByIdEntry>::empty());
        V4LPath { path: device }
    }

    /// Wraps a path verbatim, without consulting any by-id entry.
    pub fn from_bytes(path: Vec<u8>) -> (r: V4LPath)
        ensures
            r@ == path@,
    {
        V4LPath { path }
    }

    /// The bytes of the path.
    pub fn as_bytes(&self) -> (r: &Vec<u8>)
        ensures
            r@ == self@,
    {
        &self.path
    }

    /// Whether two keys name the same device.
    pub fn same_path(&self, other: &V4LPath) -> (r: bool)
        ensures
            r == (self@ == other@),
    {
        bytes_eq(&self.path, &other.path)
    }

    /// A copy of the key.
    pub fn duplicate(&self) -> (r: V4LPath)
        ensures
            r@ == self@,
    {
        V4LPath { path: copy_bytes(&self.path) }
    }
}

// ---------------------------------------------------------------------------
// Saved and blacklisted controls
// ---------------------------------------------------------------------------

/// Model of a saved control: identity plus the bytes to replay.
#[verifier::ext_equal]
pub struct SavedControlModel {
    pub unit: u8,
    pub selector: u8,
    pub control: Seq<u8>,
}

/// A control value that enabled the emitter, replayed at boot.
#[derive(Debug)]
pub struct SavedControl {
    pub unit: u8,
    pub selector: u8,
    pub control: Vec<u8>,
}

impl View for SavedControl {
    type V = SavedControlModel;

    open spec fn view(&self) -> SavedControlModel {
        SavedControlModel { unit: self.unit, selector: self.selector, control: self.control@ }
    }
}

impl SavedControl {
    /// The savelist entry of a control: its identity and current value.
    pub fn from_control(control: &XuControl) -> (r: SavedControl)
        ensures
            r@ == saved_of(control@),
    {
        SavedControl {
            unit: control.unit(),
            selector: control.selector(),
            control: copy_bytes(control.cur()),
        }
    }

    /// A copy of the entry.
    pub fn duplicate(&self) -> (r: SavedControl)
        ensures
            r@ == self@,
    {
        SavedControl { unit: self.unit, selector: self.selector, control: copy_bytes(&self.control) }
    }
}

/// A control that must never be touched again because it once broke the
/// device.  Only the identity pair is recorded.
#[derive(Debug, Clone, Copy, PartialEq, Eq, Structural)]
pub struct BlackControl {
    pub unit: u8,
    pub selector: u8,
}

impl BlackControl {
    /// The blacklist entry of a control: its identity pair.
    pub fn from_control(control: &XuControl) -> (r: BlackControl)
        ensures
            r == black_of(control@),
    {
        BlackControl { unit: control.unit(), selector: control.selector() }
    }
}

/// The saved-control entry a control maps to.
pub open spec fn saved_of(c: XuControlModel) -> SavedControlModel {
    SavedControlModel { unit: c.unit, selector: c.selector, control: c.cur }
}

/// The blacklist entry a control maps to.
pub open spec fn black_of(c: XuControlModel) -> BlackControl {
    BlackControl { unit: c.unit, selector: c.selector }
}

// ---------------------------------------------------------------------------
// Per-device configuration
// ---------------------------------------------------------------------------

/// Model of a per-device configuration: the device key, the savelist and the
/// blacklist.  The lists carry set meaning: duplicates coalesce and order
/// carries no information.
#[verifier::ext_equal]
pub struct ConfigurationModel {
    pub device: Seq<u8>,
    pub savelist: Seq<SavedControlModel>,
    pub blacklist: Seq<BlackControl>,
}

impl ConfigurationModel {
    /// A configuration with nothing to replay and nothing banned.
    pub open spec fn is_empty(self) -> bool {
        self.savelist.len() == 0 && self.blacklist.len() == 0
    }

    /// A control is blacklisted when its identity pair is recorded.
    pub open spec fn spec_blacklisted(self, unit: u8, selector: u8) -> bool {
        exists|i: int|
            0 <= i < self.blacklist.len() && self.blacklist[i] == (BlackControl {
                unit,
                selector,
            })
    }
}

/// The per-device record: a savelist of control values that enabled the
/// emitter and a blacklist of controls that must never be tried again.
#[derive(Debug)]
pub struct Configuration {
    savelist: Vec<SavedControl>,
    blacklist: Vec<BlackControl>,
    device: V4LPath,
}

impl View for Configuration {
    type V = ConfigurationModel;

    closed spec fn view(&self) -> ConfigurationModel {
        ConfigurationModel {
            device: self.device@,
            savelist: self.savelist@.map_values(|s: SavedControl| s@),
            blacklist: self.blacklist@,
        }
    }
}

impl Configuration {
    /// An empty configuration for the device.
    pub fn empty(device: V4LPath) -> (r: Configuration)
        ensures
            r@ == (ConfigurationModel {
                device: device@,
                savelist: Seq::<SavedControlModel>::empty(),
                blacklist: Seq::<BlackControl>::empty(),
            }),
    {
        let r = Configuration { savelist: Vec::new(), blacklist: Vec::new(), device };
        assert(r@.savelist =~= Seq::<SavedControlModel>::empty());
        assert(r@.blacklist =~= Seq::<BlackControl>::empty());
        r
    }

    /// The configuration stored for the device, or an empty one when the
    /// store has no entry for it.
    pub fn new(device: V4LPath, store: &Configurations) -> (r: Configuration)
        ensures
            r@ == match spec_lookup(store@, device@) {
                Some(c) => c,
                None => ConfigurationModel {
                    device: device@,
                    savelist: Seq::<SavedControlModel>::empty(),
                    blacklist: Seq::<BlackControl>::empty(),
                },
            },
    {
        match Configuration::load(&device, store) {
            Ok(c) => c,
            Err(_) => Configuration::empty(device),
        }
    }

    /// The configuration stored for the device; not-found when the store has
    /// no entry for it.
    pub fn load(device: &V4LPath, store: &Configurations) -> (r: Result<Configuration, Error>)
        ensures
            match r {
                Ok(c) => spec_lookup(store@, device@) == Some(c@),
                Err(e) => spec_lookup(store@, device@) is None && e == Error::NotFound,
            },
    {
        let n = store.devices.len();
        assert(store@.skip(0) =~= store@);
        let mut i: usize = 0;
        while i < n
            invariant
                n == store.devices@.len(),
                i <= n,
                spec_lookup(store@, device@) == spec_lookup_from(store@, device@, i as int),
            decreases n - i,
        {
            proof {
                assert(store@.skip(i as int)[0] == store@[i as int]);
                assert(store@.skip(i as int).drop_first() =~= store@.skip(i + 1));
            }
            if store.devices[i].device.same_path(device) {
                return Ok(store.devices[i].duplicate());
            }
            i += 1;
        }
        assert(store@.skip(n as int) =~= Seq::<ConfigurationModel>::empty());
        Err(Error::NotFound)
    }

    /// The device key of the configuration.
    pub fn device(&self) -> (r: &V4LPath)
        ensures
            r@ == self@.device,
    {
        &self.device
    }

    /// Adds a control's current value to the savelist; an entry already
    /// present is not added again.
    pub fn add_to_savelist(&mut self, control: &XuControl)
        ensures
            final(self)@ == (ConfigurationModel {
                savelist: if old(self)@.savelist.contains(saved_of(control@)) {
                    old(self)@.savelist
                } else {
                    old(self)@.savelist.push(saved_of(control@))
                },
                ..old(self)@
            }),
    {
        let n = self.savelist.len();
        let mut i: usize = 0;
        while i < n
            invariant
                n == self.savelist@.len(),
                i <= n,
                self == old(self),
                forall|j: int| 0 <= j < i ==> self@.savelist[j] != saved_of(control@),
            decreases n - i,
        {
            if self.savelist[i].unit == control.unit() && self.savelist[i].selector
                == control.selector() && bytes_eq(&self.savelist[i].control, control.cur()) {
                assert(self@.savelist[i as int] == saved_of(control@));
                return ;
            }
            assert(self@.savelist[i as int] != saved_of(control@));
            i += 1;
        }
        assert(!self@.savelist.contains(saved_of(control@)));
        let entry = SavedControl {
            unit: control.unit(),
            selector: control.selector(),
            control: copy_bytes(control.cur()),
        };
        assert(entry@ == saved_of(control@));
        self.savelist.push(entry);
        assert(self@.savelist =~= old(self)@.savelist.push(saved_of(control@)));
    }

    /// Adds a control's identity to the blacklist; a pair already present is
    /// not added again.
    pub fn add_to_blacklist(&mut self, control: &XuControl)
        ensures
            final(self)@ == (ConfigurationModel {
                blacklist: if old(self)@.blacklist.contains(black_of(control@)) {
                    old(self)@.blacklist
                } else {
                    old(self)@.blacklist.push(black_of(control@))
                },
                ..old(self)@
            }),
    {
        let n = self.blacklist.len();
        let mut i: usize = 0;
        while i < n
            invariant
                n == self.blacklist@.len(),
                i <= n,
                self == old(self),
                forall|j: int| 0 <= j < i ==> self@.blacklist[j] != black_of(control@),
            decreases n - i,
        {
            if self.blacklist[i].unit == control.unit() && self.blacklist[i].selector
                == control.selector() {
                assert(self@.blacklist[i as int] == black_of(control@));
                return ;
            }
            i += 1;
        }
        assert(!self@.blacklist.contains(black_of(control@)));
        self.blacklist.push(BlackControl { unit: control.unit(), selector: control.selector() });
        assert(self@.blacklist =~= old(self)@.blacklist.push(black_of(control@)));
    }

    /// Whether the control's identity pair is blacklisted.
    pub fn is_blacklisted(&self, control: &XuControl) -> (r: bool)
        ensures
            r == self@.spec_blacklisted(control@.unit, control@.selector),
    {
        let n = self.blacklist.len();
        let mut i: usize = 0;
        while i < n
            invariant
                n == self.blacklist@.len(),
                i <= n,
                forall|j: int|
                    0 <= j < i ==> self@.blacklist[j] != (BlackControl {
                        unit: control@.unit,
                        selector: control@.selector,
                    }),
            decreases n - i,
        {
            if self.blacklist[i].unit == control.unit() && self.blacklist[i].selector
                == control.selector() {
                proof {
                    let k = i as int;
                    assert(0 <= k < self@.blacklist.len() && self@.blacklist[k] == (BlackControl {
                        unit: control@.unit,
                        selector: control@.selector,
                    }));
                }
                return true;
            }
            i += 1;
        }
        false
    }

    /// The saved controls, rebuilt as writable controls ready to apply.
    /// Every entry must carry at least one value byte, as every control
    /// does.
    pub fn get_savelist(&self) -> (r: Vec<XuControl>)
        requires
            forall|i: int|
                0 <= i < self@.savelist.len() ==> (#[trigger] self@.savelist[i]).control.len()
                    >= 1,
        ensures
            r@.len() == self@.savelist.len(),
            forall|i: int|
                0 <= i < r@.len() ==> r@[i]@ == (XuControlModel {
                    unit: self@.savelist[i].unit,
                    selector: self@.savelist[i].selector,
                    cur: self@.savelist[i].control,
                    init: self@.savelist[i].control,
                    max: None,
                    min: None,
                    res: None,
                    def: None,
                    writable: true,
                }),
    {
        let n = self.savelist.len();
        let mut r: Vec<XuControl> = Vec::new();
        let mut i: usize = 0;
        while i < n
            invariant
                n == self.savelist@.len(),
                forall|j: int|
                    0 <= j < n ==> (#[trigger] self@.savelist[j]).control.len() >= 1,
                i <= n,
                r@.len() == i,
                forall|j: int|
                    0 <= j < i ==> r@[j]@ == (XuControlModel {
                        unit: self@.savelist[j].unit,
                        selector: self@.savelist[j].selector,
                        cur: self@.savelist[j].control,
                        init: self@.savelist[j].control,
                        max: None,
                        min: None,
                        res: None,
                        def: None,
                        writable: true,
                    }),
            decreases n - i,
        {
            let entry = &self.savelist[i];
            match XuControl::new(
                entry.unit,
                entry.selector,
                copy_bytes(&entry.control),
                None,
                None,
                None,
                None,
                true,
            ) {
                Ok(c) => r.push(c),
                Err(_) => {
                    proof {
                        assert(self@.savelist[i as int] == self.savelist@[i as int]@);
                        assert(self@.savelist[i as int].control.len() >= 1);
                        assert(false);
                    }
                },
            }
            i += 1;
        }
        r
    }

    /// Writes the configuration into the store: an empty configuration
    /// removes the device entry, any other replaces or creates it.
    pub fn save(&self, store: &mut Configurations)
        ensures
            final(store)@ == spec_save(old(store)@, self@),
    {
        if self.savelist.len() == 0 && self.blacklist.len() == 0 {
            store.remove(&self.device);
        } else {
            store.upsert(self.duplicate());
        }
    }

    /// The savelist entries, in insertion order.
    pub fn savelist_entries(&self) -> (r: &Vec<SavedControl>)
        ensures
            r@.map_values(|s: SavedControl| s@) == self@.savelist,
    {
        &self.savelist
    }

    /// The blacklist entries, in insertion order.
    pub fn blacklist_entries(&self) -> (r: &Vec<BlackControl>)
        ensures
            r@ == self@.blacklist,
    {
        &self.blacklist
    }

    /// Builds a configuration from its parts, for the text decoder.
    pub(crate) fn from_parts(
        device: V4LPath,
        savelist: Vec<SavedControl>,
        blacklist: Vec<BlackControl>,
    ) -> (r: Configuration)
        ensures
            r@ == (ConfigurationModel {
                device: device@,
                savelist: savelist@.map_values(|s: SavedControl| s@),
                blacklist: blacklist@,
            }),
    {
        Configuration { savelist, blacklist, device }
    }

    /// Appends this configuration to the store as a new entry, for the
    /// text decoder; going through [`Configuration::save`] keeps the store
    /// keyed uniquely instead.
    pub(crate) fn append_entry(self, store: &mut Configurations)
        ensures
            final(store)@ == old(store)@.push(self@),
    {
        let ghost me = self@;
        store.devices.push(self);
        assert(store@ =~= old(store)@.push(me));
    }

    /// A copy of the configuration.
    pub fn duplicate(&self) -> (r: Configuration)
        ensures
            r@ == self@,
    {
        let n = self.savelist.len();
        let mut savelist: Vec<SavedControl> = Vec::new();
        let mut i: usize = 0;
        while i < n
            invariant
                n == self.savelist@.len(),
                i <= n,
                savelist@.len() == i,
                forall|j: int| 0 <= j < i ==> savelist@[j]@ == self@.savelist[j],
            decreases n - i,
        {
            savelist.push(self.savelist[i].duplicate());
            i += 1;
        }
        let mut blacklist: Vec<BlackControl> = Vec::new();
        let m = self.blacklist.len();
        let mut k: usize = 0;
        while k < m
            invariant
                m == self.blacklist@.len(),
                k <= m,
                blacklist@ == self.blacklist@.subrange(0, k as int),
            decreases m - k,
        {
            blacklist.push(self.blacklist[k]);
            assert(blacklist@ =~= self.blacklist@.subrange(0, k + 1 as int));
            k += 1;
        }
        assert(blacklist@ =~= self.blacklist@);
        let r = Configuration { savelist, blacklist, device: self.device.duplicate() };
        assert(r@.savelist =~= self@.savelist);
        r
    }
}

// ---------------------------------------------------------------------------
// The store: one configuration per device
// ---------------------------------------------------------------------------

/// The first stored configuration whose device key is `d`.
pub open spec fn spec_lookup(s: Seq<ConfigurationModel>, d: Seq<u8>) -> Option<ConfigurationModel>
    decreases s.len(),
{
    if s.len() == 0 {
        None
    } else if s[0].device == d {
        Some(s[0])
    } else {
        spec_lookup(s.drop_first(), d)
    }
}

/// The store without any configuration keyed by `d`.
pub open spec fn spec_remove(s: Seq<ConfigurationModel>, d: Seq<u8>) -> Seq<ConfigurationModel>
    decreases s.len(),
{
    if s.len() == 0 {
        s
    } else if s[0].device == d {
        spec_remove(s.drop_first(), d)
    } else {
        seq![s[0]] + spec_remove(s.drop_first(), d)
    }
}

/// The store with `c` in place of the first configuration sharing its
/// device, or appended when none does.
pub open spec fn spec_upsert(s: Seq<ConfigurationModel>, c: ConfigurationModel) -> Seq<
    ConfigurationModel,
>
    decreases s.len(),
{
    if s.len() == 0 {
        seq![c]
    } else if s[0].device == c.device {
        seq![c] + s.drop_first()
    } else {
        seq![s[0]] + spec_upsert(s.drop_first(), c)
    }
}

/// What saving a configuration does to the store: an empty configuration
/// removes its device entry, any other replaces or creates it.
pub open spec fn spec_save(s: Seq<ConfigurationModel>, c: ConfigurationModel) -> Seq<
    ConfigurationModel,
> {
    if c.is_empty() {
        spec_remove(s, c.device)
    } else {
        spec_upsert(s, c)
    }
}

/// Helper for loop reasoning: the lookup restricted to entries from `i` on.
pub open spec fn spec_lookup_from(s: Seq<ConfigurationModel>, d: Seq<u8>, i: int) -> Option<
    ConfigurationModel,
> {
    spec_lookup(s.skip(i), d)
}

/// The mapping from stable device path to configuration.
#[derive(Debug)]
pub struct Configurations {
    devices: Vec<Configuration>,
}

impl View for Configurations {
    type V = Seq<ConfigurationModel>;

    closed spec fn view(&self) -> Seq<ConfigurationModel> {
        self.devices@.map_values(|c: Configuration| c@)
    }
}

impl Configurations {
    /// An empty store.
    pub fn new() -> (r: Configurations)
        ensures
            r@ == Seq::<ConfigurationModel>::empty(),
    {
        let r = Configurations { devices: Vec::new() };
        assert(r@ =~= Seq::<ConfigurationModel>::empty());
        r
    }

    /// The stored configurations, one per device, in store order.
    pub fn devices(&self) -> (r: &Vec<Configuration>)
        ensures
            r@.map_values(|c: Configuration| c@) == self@,
    {
        &self.devices
    }

    /// Removes every configuration keyed by the device.
    fn remove(&mut self, device: &V4LPath)
        ensures
            final(self)@ == spec_remove(old(self)@, device@),
    {
        let n = self.devices.len();
        let mut kept: Vec<Configuration> = Vec::new();
        assert(kept@.map_values(|c: Configuration| c@) =~= Seq::<ConfigurationModel>::empty());
        assert(self@.skip(0) =~= self@);
        let mut i: usize = 0;
        while i < n
            invariant
                n == self.devices@.len(),
                i <= n,
                self == old(self),
                kept@.map_values(|c: Configuration| c@) + spec_remove(
                    self@.skip(i as int),
                    device@,
                ) =~= spec_remove(self@, device@),
            decreases n - i,
        {
            proof {
                assert(self@.skip(i as int)[0] == self@[i as int]);
                assert(self@.skip(i as int).drop_first() =~= self@.skip(i + 1));
            }
            if !self.devices[i].device().same_path(device) {
                let ghost prev = kept@.map_values(|c: Configuration| c@);
                kept.push(self.devices[i].duplicate());
                assert(kept@.map_values(|c: Configuration| c@) =~= prev + seq![self@[i as int]]);
            }
            i += 1;
        }
        assert(self@.skip(n as int) =~= Seq::<ConfigurationModel>::empty());
        self.devices = kept;
    }

    /// Replaces the first configuration sharing the device of `c`, or
    /// appends `c` when none does.
    fn upsert(&mut self, c: Configuration)
        ensures
            final(self)@ == spec_upsert(old(self)@, c@),
    {
        let n = self.devices.len();
        let mut i: usize = 0;
        while i < n
            invariant
                n == self.devices@.len(),
                i <= n,
                self == old(self),
                forall|j: int| 0 <= j < i ==> self@[j].device != c@.device,
            decreases n - i,
        {
            if self.devices[i].device().same_path(c.device()) {
                proof {
                    lemma_upsert_at(self@, c@, i as int);
                }
                self.devices.set(i, c);
                assert(self@ =~= old(self)@.update(i as int, c@));
                return ;
            }
            i += 1;
        }
        proof {
            lemma_upsert_append(self@, c@);
        }
        self.devices.push(c);
        assert(self@ =~= old(self)@.push(c@));
    }
}

/// When the first device match is at `i`, the upsert is an update at `i`.
proof fn lemma_upsert_at(s: Seq<ConfigurationModel>, c: ConfigurationModel, i: int)
    requires
        0 <= i < s.len(),
        s[i].device == c.device,
        forall|j: int| 0 <= j < i ==> s[j].device != c.device,
    ensures
        spec_upsert(s, c) == s.update(i, c),
    decreases i,
{
    if i == 0 {
        assert(spec_upsert(s, c) == seq![c] + s.drop_first());
        assert(seq![c] + s.drop_first() =~= s.update(0, c));
    } else {
        lemma_upsert_at(s.drop_first(), c, i - 1);
        assert(spec_upsert(s, c) == seq![s[0]] + spec_upsert(s.drop_first(), c));
        assert(seq![s[0]] + s.drop_first().update(i - 1, c) =~= s.update(i, c));
    }
}

/// When no device matches, the upsert is an append.
proof fn lemma_upsert_append(s: Seq<ConfigurationModel>, c: ConfigurationModel)
    requires
        forall|j: int| 0 <= j < s.len() ==> s[j].device != c.device,
    ensures
        spec_upsert(s, c) == s.push(c),
    decreases s.len(),
{
    if s.len() == 0 {
        assert(spec_upsert(s, c) =~= s.push(c));
    } else {
        lemma_upsert_append(s.drop_first(), c);
        assert(seq![s[0]] + s.drop_first().push(c) =~= s.push(c));
    }
}

// ---------------------------------------------------------------------------
// Laws of the store
// ---------------------------------------------------------------------------

/// Looking a device up after a removal finds nothing for the removed device
/// and is otherwise unchanged.
pub proof fn lemma_lookup_remove(s: Seq<ConfigurationModel>, d: Seq<u8>, x: Seq<u8>)
    ensures
        spec_lookup(spec_remove(s, d), x) == if x == d {
            Option::<ConfigurationModel>::None
        } else {
            spec_lookup(s, x)
        },
    decreases s.len(),
{
    if s.len() == 0 {
    } else if s[0].device == d {
        lemma_lookup_remove(s.drop_first(), d, x);
    } else {
        lemma_lookup_remove(s.drop_first(), d, x);
        let t = seq![s[0]] + spec_remove(s.drop_first(), d);
        assert(t[0] == s[0]);
        assert(t.drop_first() =~= spec_remove(s.drop_first(), d));
    }
}

/// Looking a device up after an upsert finds the new configuration for its
/// device and is otherwise unchanged.
pub proof fn lemma_lookup_upsert(s: Seq<ConfigurationModel>, c: ConfigurationModel, x: Seq<u8>)
    ensures
        spec_lookup(spec_upsert(s, c), x) == if x == c.device {
            Some(c)
        } else {
            spec_lookup(s, x)
        },
    decreases s.len(),
{
    if s.len() == 0 {
        let t = seq![c];
        assert(spec_upsert(s, c) == t);
        assert(t.len() == 1 && t[0] == c);
        assert(t.drop_first() =~= Seq::<ConfigurationModel>::empty());
        if x == c.device {
            assert(spec_lookup(t, x) == Some(c));
        } else {
            assert(spec_lookup(t, x) == spec_lookup(t.drop_first(), x));
            assert(spec_lookup(t.drop_first(), x) is None);
        }
    } else if s[0].device == c.device {
        let t = seq![c] + s.drop_first();
        assert(spec_upsert(s, c) == t);
        assert(t.len() == s.len() && t[0] == c);
        assert(t.drop_first() =~= s.drop_first());
        if x == c.device {
            assert(spec_lookup(t, x) == Some(c));
        } else {
            assert(spec_lookup(t, x) == spec_lookup(s.drop_first(), x));
            assert(spec_lookup(s, x) == spec_lookup(s.drop_first(), x));
        }
    } else {
        lemma_lookup_upsert(s.drop_first(), c, x);
        let t = seq![s[0]] + spec_upsert(s.drop_first(), c);
        assert(spec_upsert(s, c) == t);
        assert(t.len() == 1 + spec_upsert(s.drop_first(), c).len() && t[0] == s[0]);
        assert(t.drop_first() =~= spec_upsert(s.drop_first(), c));
        if x == s[0].device {
            assert(spec_lookup(t, x) == Some(s[0]));
            assert(spec_lookup(s, x) == Some(s[0]));
        } else {
            assert(spec_lookup(t, x) == spec_lookup(spec_upsert(s.drop_first(), c), x));
            assert(spec_lookup(s, x) == spec_lookup(s.drop_first(), x));
        }
    }
}

/// Round trip of the store: saving a configuration with something in it and
/// loading the same device yields that configuration back.
pub proof fn lemma_save_then_load(s: Seq<ConfigurationModel>, c: ConfigurationModel)
    requires
        !c.is_empty(),
    ensures
        spec_lookup(spec_save(s, c), c.device) == Some(c),
{
    lemma_lookup_upsert(s, c, c.device);
}

/// Saving twice leaves the store exactly as saving once: for every device
/// the lookup result is the same.
pub proof fn lemma_save_idempotent(s: Seq<ConfigurationModel>, c: ConfigurationModel, x: Seq<u8>)
    ensures
        spec_lookup(spec_save(spec_save(s, c), c), x) == spec_lookup(spec_save(s, c), x),
{
    if c.is_empty() {
        lemma_lookup_remove(spec_remove(s, c.device), c.device, x);
        lemma_lookup_remove(s, c.device, x);
    } else {
        lemma_lookup_upsert(spec_upsert(s, c), c, x);
        lemma_lookup_upsert(s, c, x);
    }
}

/// Saving one configuration and then another for the same device leaves the
/// store exactly as saving only the second: for every device the lookup
/// result is the same.
pub proof fn lemma_save_overwrite(
    s: Seq<ConfigurationModel>,
    c1: ConfigurationModel,
    c2: ConfigurationModel,
    x: Seq<u8>,
)
    requires
        c1.device == c2.device,
    ensures
        spec_lookup(spec_save(spec_save(s, c1), c2), x) == spec_lookup(spec_save(s, c2), x),
{
    let s1 = spec_save(s, c1);
    if c1.is_empty() {
        lemma_lookup_remove(s, c1.device, x);
        if c2.is_empty() {
            lemma_lookup_remove(s1, c2.device, x);
            lemma_lookup_remove(s, c2.device, x);
        } else {
            lemma_lookup_upsert(s1, c2, x);
            lemma_lookup_upsert(s, c2, x);
            if x != c2.device {
                lemma_lookup_remove(s, c1.device, x);
            }
        }
    } else {
        if c2.is_empty() {
            lemma_lookup_remove(s1, c2.device, x);
            lemma_lookup_remove(s, c2.device, x);
            if x != c2.device {
                lemma_lookup_upsert(s, c1, x);
            }
        } else {
            lemma_lookup_upsert(s1, c2, x);
            lemma_lookup_upsert(s, c2, x);
            if x != c2.device {
                lemma_lookup_upsert(s, c1, x);
            }
        }
    }
}

/// Saving an empty configuration leaves the store without an entry for the
/// device.
pub proof fn lemma_save_empty_removes(s: Seq<ConfigurationModel>, c: ConfigurationModel)
    requires
        c.is_empty(),
    ensures
        spec_lookup(spec_save(s, c), c.device) is None,
{
    lemma_lookup_remove(s, c.device, c.device);
}

/// No two entries of the store share a device key.
pub open spec fn spec_unique_devices(s: Seq<ConfigurationModel>) -> bool {
    forall|i: int, j: int|
        0 <= i < j < s.len() ==> (#[trigger] s[i]).device != (#[trigger] s[j]).device
}

/// Removal keeps the store uniquely keyed, returns only entries of the
/// store, and leaves none under the removed key.
proof fn lemma_remove_unique(s: Seq<ConfigurationModel>, d: Seq<u8>)
    requires
        spec_unique_devices(s),
    ensures
        spec_unique_devices(spec_remove(s, d)),
        forall|j: int|
            0 <= j < spec_remove(s, d).len() ==> exists|k: int|
                0 <= k < s.len() && #[trigger] spec_remove(s, d)[j] == s[k],
    decreases s.len(),
{
    if s.len() == 0 {
    } else {
        let tail = s.drop_first();
        assert(spec_unique_devices(tail)) by {
            assert(forall|i: int, j: int|
                0 <= i < j < tail.len() ==> tail[i] == s[i + 1] && tail[j] == s[j + 1]);
        }
        lemma_remove_unique(tail, d);
        if s[0].device == d {
            assert forall|j: int|
                0 <= j < spec_remove(s, d).len() implies exists|k: int|
                0 <= k < s.len() && #[trigger] spec_remove(s, d)[j] == s[k] by {
                let k0 = choose|k0: int|
                    0 <= k0 < tail.len() && spec_remove(tail, d)[j] == tail[k0];
                assert(spec_remove(s, d)[j] == s[k0 + 1]);
            }
        } else {
            let t = seq![s[0]] + spec_remove(tail, d);
            assert(t[0] == s[0]);
            assert(forall|j: int| 0 <= j < spec_remove(tail, d).len() ==> t[j + 1]
                == spec_remove(tail, d)[j]);
            assert forall|j: int| 0 <= j < t.len() implies exists|k: int|
                0 <= k < s.len() && #[trigger] t[j] == s[k] by {
                if j == 0 {
                    assert(t[0] == s[0]);
                } else {
                    let k0 = choose|k0: int|
                        0 <= k0 < tail.len() && spec_remove(tail, d)[j - 1] == tail[k0];
                    assert(t[j] == s[k0 + 1]);
                }
            }
            assert forall|a: int, b: int|
                0 <= a < b < t.len() implies (#[trigger] t[a]).device != (
            #[trigger] t[b]).device by {
                if a == 0 {
                    let k0 = choose|k0: int|
                        0 <= k0 < tail.len() && spec_remove(tail, d)[b - 1] == tail[k0];
                    assert(t[b] == s[k0 + 1]);
                    assert(s[0].device != s[k0 + 1].device);
                } else {
                    assert(t[a] == spec_remove(tail, d)[a - 1]);
                    assert(t[b] == spec_remove(tail, d)[b - 1]);
                }
            }
        }
    }
}

/// An upsert keeps the store uniquely keyed: every entry is the stored
/// one, or one of the old entries, and the first old entry under the key
/// is the one replaced.
proof fn lemma_upsert_unique(s: Seq<ConfigurationModel>, c: ConfigurationModel)
    requires
        spec_unique_devices(s),
    ensures
        spec_unique_devices(spec_upsert(s, c)),
        forall|j: int|
            0 <= j < spec_upsert(s, c).len() ==> #[trigger] spec_upsert(s, c)[j] == c
                || exists|k: int| 0 <= k < s.len() && spec_upsert(s, c)[j] == s[k],
    decreases s.len(),
{
    if s.len() == 0 {
        let t = seq![c];
        assert(t[0] == c);
    } else if s[0].device == c.device {
        let t = seq![c] + s.drop_first();
        assert(t[0] == c);
        assert(forall|j: int| 1 <= j < t.len() ==> t[j] == s[j]);
        assert forall|a: int, b: int|
            0 <= a < b < t.len() implies (#[trigger] t[a]).device != (#[trigger] t[b]).device by {
            if a == 0 {
                assert(t[b] == s[b]);
                assert(s[0].device != s[b].device);
            } else {
                assert(t[a] == s[a] && t[b] == s[b]);
            }
        }
    } else {
        let tail = s.drop_first();
        assert(spec_unique_devices(tail)) by {
            assert(forall|i: int, j: int|
                0 <= i < j < tail.len() ==> tail[i] == s[i + 1] && tail[j] == s[j + 1]);
        }
        lemma_upsert_unique(tail, c);
        let t = seq![s[0]] + spec_upsert(tail, c);
        assert(t[0] == s[0]);
        assert(forall|j: int| 0 <= j < spec_upsert(tail, c).len() ==> t[j + 1]
            == spec_upsert(tail, c)[j]);
        assert forall|j: int| 0 <= j < t.len() implies #[trigger] t[j] == c || exists|k: int|
            0 <= k < s.len() && t[j] == s[k] by {
            if j > 0 {
                if spec_upsert(tail, c)[j - 1] == c {
                } else {
                    let k0 = choose|k0: int|
                        0 <= k0 < tail.len() && spec_upsert(tail, c)[j - 1] == tail[k0];
                    assert(t[j] == s[k0 + 1]);
                }
            } else {
                assert(t[0] == s[0]);
            }
        }
        assert forall|a: int, b: int|
            0 <= a < b < t.len() implies (#[trigger] t[a]).device != (#[trigger] t[b]).device by {
            if a == 0 {
                if spec_upsert(tail, c)[b - 1] == c {
                    assert(t[b].device == c.device);
                } else {
                    let k0 = choose|k0: int|
                        0 <= k0 < tail.len() && spec_upsert(tail, c)[b - 1] == tail[k0];
                    assert(t[b] == s[k0 + 1]);
                    assert(s[0].device != s[k0 + 1].device);
                }
            } else {
                assert(t[a] == spec_upsert(tail, c)[a - 1]);
                assert(t[b] == spec_upsert(tail, c)[b - 1]);
            }
        }
    }
}

/// Saving keeps the store a mapping: a store with one entry per device
/// still has one entry per device afterwards.
pub proof fn lemma_save_preserves_unique(s: Seq<ConfigurationModel>, c: ConfigurationModel)
    requires
        spec_unique_devices(s),
    ensures
        spec_unique_devices(spec_save(s, c)),
{
    if c.is_empty() {
        lemma_remove_unique(s, c.device);
    } else {
        lemma_upsert_unique(s, c);
    }
}

} // verus!
