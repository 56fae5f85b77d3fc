//! The registry of connected displays, built from what the display enumeration reports.
use vstd::prelude::*;
use crate::text::{
    decimal, signed_decimal, seq_contains, lowercase, wide_text, wchar_to_string, to_lowercase,
    str_contains, u32_to_decimal, i32_to_decimal,
};

verus! {

/// Marker in the device identifier of the virtual display driver (compared lowercased).
pub const VIRTUAL_DISPLAY_ID: &'static str = "root\\mttvdd";

/// Information about a single active display.
#[derive(Debug, Clone)]
pub struct MonitorInfo {
    /// Stable device name, e.g. `\\.\DISPLAY1`.
    pub key: String,
    /// Output index for the desktop duplication grabber's `output_idx=`.
    pub index: u32,
    pub x: i32,
    pub y: i32,
    pub w: u32,
    pub h: u32,
    pub is_virtual: bool,
}

/// The mathematical value of a [`MonitorInfo`].
pub struct MonitorModel {
    pub key: Seq<char>,
    pub index: u32,
    pub x: i32,
    pub y: i32,
    pub w: u32,
    pub h: u32,
    pub is_virtual: bool,
}

impl View for MonitorInfo {
    type V = MonitorModel;

    open spec fn view(&self) -> MonitorModel {
        MonitorModel {
            key: self.key@,
            index: self.index,
            x: self.x,
            y: self.y,
            w: self.w,
            h: self.h,
            is_virtual: self.is_virtual,
        }
    }
}

/// The one-line description of a display:
/// `KEY (virtual|physical)  pos=(X,Y)  size=WxH  idx=INDEX`.
pub open spec fn description(m: MonitorModel) -> Seq<char> {
    m.key + " ("@ + (if m.is_virtual { "virtual"@ } else { "physical"@ }) + ")  pos=("@
        + signed_decimal(m.x as int) + ","@ + signed_decimal(m.y as int) + ")  size="@
        + decimal(m.w as nat) + "x"@ + decimal(m.h as nat) + "  idx="@ + decimal(m.index as nat)
}

impl MonitorInfo {
    /// A copy of this record.
    pub fn duplicate(&self) -> (m: MonitorInfo)
        ensures
            m@ == self@,
    {
        MonitorInfo {
            key: self.key.clone(),
            index: self.index,
            x: self.x,
            y: self.y,
            w: self.w,
            h: self.h,
            is_virtual: self.is_virtual,
        }
    }

    /// The one-line description used when logging a display.
    pub fn describe(&self) -> (s: String)
        ensures
            s@ == description(self@),
    {
        let mut s = self.key.clone();
        s.append(" (");
        if self.is_virtual {
            s.append("virtual");
        } else {
            s.append("physical");
        }
        s.append(")  pos=(");
        s.append(i32_to_decimal(self.x).as_str());
        s.append(",");
        s.append(i32_to_decimal(self.y).as_str());
        s.append(")  size=");
        s.append(u32_to_decimal(self.w).as_str());
        s.append("x");
        s.append(u32_to_decimal(self.h).as_str());
        s.append("  idx=");
        s.append(u32_to_decimal(self.index).as_str());
        s
    }
}

// ---------- Sequences keyed by name ----------
/// Some element of `s` has key `k`.
pub open spec fn has_key<T>(s: Seq<T>, key: spec_fn(T) -> Seq<char>, k: Seq<char>) -> bool {
    exists|i: int| 0 <= i < s.len() && #[trigger] key(s[i]) == k
}

/// The position of the element with key `k` (meaningful when [`has_key`] holds).
pub open spec fn key_index<T>(s: Seq<T>, key: spec_fn(T) -> Seq<char>, k: Seq<char>) -> int {
    choose|i: int| 0 <= i < s.len() && #[trigger] key(s[i]) == k
}

/// No two elements share a key.
pub open spec fn keys_distinct<T>(s: Seq<T>, key: spec_fn(T) -> Seq<char>) -> bool {
    forall|i: int, j: int|
        0 <= i < s.len() && 0 <= j < s.len() && i != j ==> #[trigger] key(s[i]) != #[trigger] key(s[j])
}

/// Insertion into a map keyed by name: the element replaces the one with the same key,
/// in place, or is appended when there is none.
pub open spec fn upsert<T>(s: Seq<T>, key: spec_fn(T) -> Seq<char>, x: T) -> Seq<T> {
    if has_key(s, key, key(x)) {
        s.update(key_index(s, key, key(x)), x)
    } else {
        s.push(x)
    }
}

/// The element with key `k`, if any.
pub open spec fn lookup<T>(s: Seq<T>, key: spec_fn(T) -> Seq<char>, k: Seq<char>) -> Option<T> {
    if has_key(s, key, k) {
        Some(s[key_index(s, key, k)])
    } else {
        None
    }
}

/// With distinct keys, the position holding key `k` is the one [`key_index`] picks.
proof fn lemma_key_index_unique<T>(s: Seq<T>, key: spec_fn(T) -> Seq<char>, k: Seq<char>, i: int)
    requires
        keys_distinct(s, key),
        0 <= i < s.len(),
        key(s[i]) == k,
    ensures
        has_key(s, key, k),
        key_index(s, key, k) == i,
{
    let j = key_index(s, key, k);
    assert(0 <= j < s.len() && key(s[j]) == k);
}

/// Insertion keeps keys distinct.
pub proof fn lemma_upsert_keeps_distinct<T>(s: Seq<T>, key: spec_fn(T) -> Seq<char>, x: T)
    requires
        keys_distinct(s, key),
    ensures
        keys_distinct(upsert(s, key, x), key),
{
    let t = upsert(s, key, x);
    if has_key(s, key, key(x)) {
        let p = key_index(s, key, key(x));
        assert forall|i: int, j: int|
            0 <= i < t.len() && 0 <= j < t.len() && i != j implies #[trigger] key(t[i]) != #[trigger] key(t[j]) by {
            if i == p {
                assert(key(s[p]) == key(x));
            }
            if j == p {
                assert(key(s[p]) == key(x));
            }
        }
    } else {
        assert forall|i: int, j: int|
            0 <= i < t.len() && 0 <= j < t.len() && i != j implies #[trigger] key(t[i]) != #[trigger] key(t[j]) by {
            if i == s.len() as int {
                assert(key(s[j]) != key(x));
            }
            if j == s.len() as int {
                assert(key(s[i]) != key(x));
            }
        }
    }
}

/// After an insertion, looking up the inserted key gives the inserted element, and looking up
/// any other key gives what it gave before.
pub proof fn lemma_lookup_after_upsert<T>(s: Seq<T>, key: spec_fn(T) -> Seq<char>, x: T, k: Seq<char>)
    requires
        keys_distinct(s, key),
    ensures
        lookup(upsert(s, key, x), key, key(x)) == Some(x),
        k != key(x) ==> lookup(upsert(s, key, x), key, k) == lookup(s, key, k),
{
    let t = upsert(s, key, x);
    lemma_upsert_keeps_distinct(s, key, x);
    let p = if has_key(s, key, key(x)) { key_index(s, key, key(x)) } else { s.len() as int };
    assert(t[p] == x);
    lemma_key_index_unique(t, key, key(x), p);
    if k != key(x) {
        if has_key(s, key, k) {
            let q = key_index(s, key, k);
            assert(q != p);
            assert(t[q] == s[q]);
            lemma_key_index_unique(t, key, k, q);
        } else {
            if has_key(t, key, k) {
                let q = key_index(t, key, k);
                assert(q != p);
                assert(t[q] == s[q]);
                assert(has_key(s, key, k));
            }
        }
    }
}

// ---------- Output index map ----------
/// The name of an output entry.
pub open spec fn entry_name(e: (Seq<char>, u32)) -> Seq<char> {
    e.0
}

/// Output entries are keyed by name.
pub open spec fn output_key() -> spec_fn((Seq<char>, u32)) -> Seq<char> {
    |e: (Seq<char>, u32)| entry_name(e)
}

/// Map from an output's device name to its global output index.
pub struct OutputMap {
    entries: Vec<(String, u32)>,
}

impl View for OutputMap {
    type V = Seq<(Seq<char>, u32)>;

    closed spec fn view(&self) -> Seq<(Seq<char>, u32)> {
        self.entries@.map_values(|e: (String, u32)| (e.0@, e.1))
    }
}

/// The global output index recorded for `name`, if any.
pub open spec fn output_index(m: Seq<(Seq<char>, u32)>, name: Seq<char>) -> Option<u32> {
    match lookup(m, output_key(), name) {
        Some(e) => Some(e.1),
        None => None,
    }
}

/// The output map built from the outputs in enumeration order (`None` where an output's
/// description could not be read): the `i`-th output gets global index `i`; a later
/// output with the same name replaces an earlier one.
pub open spec fn outputs_map(outputs: Seq<Option<Vec<u16>>>, n: int) -> Seq<(Seq<char>, u32)>
    decreases n,
{
    if n <= 0 {
        Seq::empty()
    } else {
        let before = outputs_map(outputs, n - 1);
        match outputs[n - 1] {
            Some(name) => upsert(before, output_key(), (wide_text(name@), (n - 1) as u32)),
            None => before,
        }
    }
}

impl OutputMap {
    /// An empty map.
    pub fn new() -> (m: OutputMap)
        ensures
            m@ == Seq::<(Seq<char>, u32)>::empty(),
    {
        let m = OutputMap { entries: Vec::new() };
        assert(m@ =~= Seq::<(Seq<char>, u32)>::empty());
        m
    }

    /// Names are distinct.
    pub open spec fn wf(&self) -> bool {
        keys_distinct(self@, output_key())
    }

    /// Number of entries.
    pub fn len(&self) -> (n: usize)
        ensures
            n == self@.len(),
    {
        self.entries.len()
    }

    /// The global output index recorded for `name`.
    pub fn get(&self, name: &String) -> (r: Option<u32>)
        requires
            self.wf(),
        ensures
            r == output_index(self@, name@),
    {
        let ghost key = output_key();
        let mut i: usize = 0;
        while i < self.entries.len()
            invariant
                i <= self.entries@.len(),
                self.wf(),
                key == output_key(),
                forall|j: int| 0 <= j < i ==> #[trigger] key(self@[j]) != name@,
            decreases self.entries@.len() - i,
        {
            if self.entries[i].0 == *name {
                proof {
                    assert(key(self@[i as int]) == name@);
                    lemma_key_index_unique(self@, key, name@, i as int);
                }
                return Some(self.entries[i].1);
            }
            i = i + 1;
        }
        assert(!has_key(self@, key, name@));
        None
    }

    /// Records `index` for `name`, replacing an earlier entry with that name.
    pub fn insert(&mut self, name: String, index: u32)
        requires
            old(self).wf(),
        ensures
            final(self).wf(),
            final(self)@ == upsert(old(self)@, output_key(), (name@, index)),
    {
        let ghost key = output_key();
        let ghost old_view = self@;
        let mut i: usize = 0;
        while i < self.entries.len()
            invariant
                i <= self.entries@.len(),
                self.wf(),
                self@ == old_view,
                old_view == old(self)@,
                key == output_key(),
                forall|j: int| 0 <= j < i ==> #[trigger] key(self@[j]) != name@,
            decreases self.entries@.len() - i,
        {
            if self.entries[i].0 == name {
                let ghost entry = (name@, index);
                proof {
                    assert(key(self@[i as int]) == name@);
                    assert(key(entry) == name@);
                    lemma_key_index_unique(self@, key, name@, i as int);
                }
                self.entries.set(i, (name, index));
                proof {
                    assert(self@ =~= old_view.update(i as int, entry));
                    assert(upsert(old_view, key, entry) == old_view.update(i as int, entry));
                    lemma_upsert_keeps_distinct(old_view, key, entry);
                }
                return;
            }
            i = i + 1;
        }
        let ghost entry = (name@, index);
        assert(key(entry) == name@);
        assert(!has_key(old_view, key, name@));
        self.entries.push((name, index));
        proof {
            assert(self@ =~= old_view.push(entry));
            assert(upsert(old_view, key, entry) == old_view.push(entry));
            lemma_upsert_keeps_distinct(old_view, key, entry);
        }
    }
}

/// Builds the map from output device name to the global output index that the desktop
/// duplication grabber's `output_idx=` expects, from the outputs of all adapters in
/// enumeration order (`None` where an output's description could not be read; such an
/// output still takes up an index).
pub fn output_map(outputs: &Vec<Option<Vec<u16>>>) -> (m: OutputMap)
    requires
        outputs@.len() <= u32::MAX,
    ensures
        m.wf(),
        m@ == outputs_map(outputs@, outputs@.len() as int),
{
    let mut m = OutputMap::new();
    let mut i: usize = 0;
    while i < outputs.len()
        invariant
            i <= outputs@.len(),
            outputs@.len() <= u32::MAX,
            m.wf(),
            m@ == outputs_map(outputs@, i as int),
        decreases outputs@.len() - i,
    {
        match &outputs[i] {
            Some(name) => {
                let text = wchar_to_string(name.as_slice());
                m.insert(text, i as u32);
            },
            None => {},
        }
        i = i + 1;
    }
    m
}

// ---------- Display enumeration ----------
/// Current position and size of a display.
pub struct DisplayMode {
    pub x: i32,
    pub y: i32,
    pub width: u32,
    pub height: u32,
}

/// One display adapter entry as the display enumeration reports it.
pub struct DisplayAdapter {
    /// NUL-terminated device name.
    pub device_name: Vec<u16>,
    /// NUL-terminated device identifier.
    pub device_id: Vec<u16>,
    /// Attached to the desktop.
    pub attached: bool,
    /// The current display settings, when they could be read.
    pub mode: Option<DisplayMode>,
}

/// The key of a monitor record.
pub open spec fn monitor_key(m: MonitorModel) -> Seq<char> {
    m.key
}

/// Monitor records are keyed by device name.
pub open spec fn monitor_keyfn() -> spec_fn(MonitorModel) -> Seq<char> {
    |x: MonitorModel| monitor_key(x)
}

/// Whether a device identifier marks the virtual display driver.
pub open spec fn is_virtual_id(device_id: Seq<char>) -> bool {
    seq_contains(lowercase(device_id), VIRTUAL_DISPLAY_ID@)
}

/// The record for an attached adapter whose settings were read; `enum_index` is the number
/// of attached adapters before it, used when the output map has no entry for its name.
pub open spec fn monitor_of(a: DisplayAdapter, m: DisplayMode, outputs: Seq<(Seq<char>, u32)>, enum_index: u32) -> MonitorModel {
    let name = wide_text(a.device_name@);
    MonitorModel {
        key: name,
        index: match output_index(outputs, name) {
            Some(g) => g,
            None => enum_index,
        },
        x: m.x,
        y: m.y,
        w: m.width,
        h: m.height,
        is_virtual: is_virtual_id(wide_text(a.device_id@)),
    }
}

/// The monitors found among the first `n` adapters, with the number of attached ones.
pub open spec fn scan(adapters: Seq<DisplayAdapter>, outputs: Seq<(Seq<char>, u32)>, n: int) -> (Seq<MonitorModel>, int)
    decreases n,
{
    if n <= 0 {
        (Seq::empty(), 0)
    } else {
        let (found, count) = scan(adapters, outputs, n - 1);
        let a = adapters[n - 1];
        if !a.attached {
            (found, count)
        } else {
            match a.mode {
                Some(m) => (upsert(found, monitor_keyfn(), monitor_of(a, m, outputs, count as u32)), count + 1),
                None => (found, count + 1),
            }
        }
    }
}

/// The view of a list of monitor records.
pub open spec fn models(v: Seq<MonitorInfo>) -> Seq<MonitorModel> {
    v.map_values(|m: MonitorInfo| m@)
}

/// Live registry of connected displays, keyed by device name.
pub struct MonitorRegistry {
    monitors: Vec<MonitorInfo>,
}

impl View for MonitorRegistry {
    type V = Seq<MonitorModel>;

    closed spec fn view(&self) -> Seq<MonitorModel> {
        models(self.monitors@)
    }
}

/// Copies a list of monitor records.
fn duplicate_all(v: &Vec<MonitorInfo>) -> (r: Vec<MonitorInfo>)
    ensures
        models(r@) == models(v@),
{
    let mut r: Vec<MonitorInfo> = Vec::new();
    let mut i: usize = 0;
    while i < v.len()
        invariant
            i <= v@.len(),
            r@.len() == i,
            models(r@) == models(v@).take(i as int),
        decreases v@.len() - i,
    {
        let ghost before = r@;
        let d = v[i].duplicate();
        r.push(d);
        proof {
            assert(r@ == before.push(d));
            assert forall|j: int| 0 <= j <= i implies #[trigger] models(r@)[j] == models(v@)[j] by {
                assert(models(r@)[j] == r@[j]@);
                assert(models(v@)[j] == v@[j]@);
                if j < i {
                    assert(r@[j] == before[j]);
                    assert(models(before)[j] == before[j]@);
                    assert(models(before)[j] == models(v@).take(i as int)[j]);
                }
            }
            assert(models(r@) =~= models(v@).take(i as int + 1));
        }
        i = i + 1;
    }
    assert(models(v@).take(v@.len() as int) =~= models(v@));
    r
}

/// Inserts a monitor record, replacing the one with the same key.
fn upsert_monitor(v: &mut Vec<MonitorInfo>, m: MonitorInfo)
    requires
        keys_distinct(models(old(v)@), monitor_keyfn()),
    ensures
        keys_distinct(models(final(v)@), monitor_keyfn()),
        models(final(v)@) == upsert(models(old(v)@), monitor_keyfn(), m@),
{
    let ghost key = monitor_keyfn();
    let ghost before = models(v@);
    let mut i: usize = 0;
    while i < v.len()
        invariant
            i <= v@.len(),
            models(v@) == before,
            before == models(old(v)@),
            keys_distinct(before, key),
            key == monitor_keyfn(),
            forall|j: int| 0 <= j < i ==> #[trigger] key(before[j]) != m.key@,
        decreases v@.len() - i,
    {
        if v[i].key == m.key {
            let ghost mv = m@;
            proof {
                assert(before[i as int] == v@[i as int]@);
                assert(key(before[i as int]) == key(mv));
                lemma_key_index_unique(before, key, key(mv), i as int);
            }
            v.set(i, m);
            proof {
                assert(models(v@) =~= before.update(i as int, mv));
                assert(upsert(before, key, mv) == before.update(i as int, mv));
                lemma_upsert_keeps_distinct(before, key, mv);
            }
            return;
        }
        i = i + 1;
    }
    let ghost mv = m@;
    assert forall|j: int| 0 <= j < before.len() implies #[trigger] key(before[j]) != key(mv) by {
        assert(key(before[j]) != m.key@);
    }
    assert(!has_key(before, key, key(mv)));
    v.push(m);
    proof {
        assert(models(v@) =~= before.push(mv));
        assert(upsert(before, key, mv) == before.push(mv));
        lemma_upsert_keeps_distinct(before, key, mv);
    }
}

impl MonitorRegistry {
    /// Device names are distinct.
    pub open spec fn wf(&self) -> bool {
        keys_distinct(self@, monitor_keyfn())
    }

    /// An empty registry.
    pub fn new() -> (r: Self)
        ensures
            r.wf(),
            r@ == Seq::<MonitorModel>::empty(),
    {
        let r = MonitorRegistry { monitors: Vec::new() };
        assert(r@ =~= Seq::<MonitorModel>::empty());
        r
    }

    /// Rebuilds the registry from the adapters that the display enumeration reported, in
    /// order, and the output index map, and returns the displays found. An adapter counts
    /// when it is attached to the desktop; it gives a record when its settings could be
    /// read. A record's index is the output map's entry for its name, or else the number of
    /// attached adapters before it.
    pub fn refresh(&mut self, adapters: &Vec<DisplayAdapter>, outputs: &OutputMap) -> (found: Vec<MonitorInfo>)
        requires
            adapters@.len() <= u32::MAX,
            outputs.wf(),
        ensures
            final(self).wf(),
            final(self)@ == scan(adapters@, outputs@, adapters@.len() as int).0,
            models(found@) == final(self)@,
    {
        let ghost key = monitor_keyfn();
        let mut found: Vec<MonitorInfo> = Vec::new();
        let mut enum_index: u32 = 0;
        let mut i: usize = 0;
        assert(models(found@) =~= Seq::<MonitorModel>::empty());
        while i < adapters.len()
            invariant
                i <= adapters@.len(),
                adapters@.len() <= u32::MAX,
                outputs.wf(),
                enum_index <= i,
                key == monitor_keyfn(),
                keys_distinct(models(found@), key),
                (models(found@), enum_index as int) == scan(adapters@, outputs@, i as int),
            decreases adapters@.len() - i,
        {
            let a = &adapters[i];
            if a.attached {
                match &a.mode {
                    Some(m) => {
                        let dev_name = wchar_to_string(a.device_name.as_slice());
                        let device_id = wchar_to_string(a.device_id.as_slice());
                        let lower = to_lowercase(device_id.as_str());
                        let is_virtual = str_contains(lower.as_str(), VIRTUAL_DISPLAY_ID);
                        let index = match outputs.get(&dev_name) {
                            Some(g) => g,
                            None => enum_index,
                        };
                        let info = MonitorInfo {
                            key: dev_name,
                            index,
                            x: m.x,
                            y: m.y,
                            w: m.width,
                            h: m.height,
                            is_virtual,
                        };
                        assert(info@ == monitor_of(*a, *m, outputs@, enum_index));
                        upsert_monitor(&mut found, info);
                    },
                    None => {},
                }
                enum_index = enum_index + 1;
            }
            i = i + 1;
        }
        self.monitors = duplicate_all(&found);
        found
    }

    /// All registered displays.
    pub fn get_all(&self) -> (r: Vec<MonitorInfo>)
        ensures
            models(r@) == self@,
    {
        duplicate_all(&self.monitors)
    }

    /// The display registered under `key`.
    pub fn get(&self, key: &String) -> (r: Option<MonitorInfo>)
        requires
            self.wf(),
        ensures
            r matches Some(m) ==> lookup(self@, monitor_keyfn(), key@) == Some(m@),
            r is None ==> lookup(self@, monitor_keyfn(), key@) is None,
    {
        let ghost k = monitor_keyfn();
        let mut i: usize = 0;
        while i < self.monitors.len()
            invariant
                i <= self.monitors@.len(),
                self.wf(),
                k == monitor_keyfn(),
                forall|j: int| 0 <= j < i ==> #[trigger] k(self@[j]) != key@,
            decreases self.monitors@.len() - i,
        {
            if self.monitors[i].key == *key {
                proof {
                    assert(k(self@[i as int]) == key@);
                    lemma_key_index_unique(self@, k, key@, i as int);
                }
                return Some(self.monitors[i].duplicate());
            }
            i = i + 1;
        }
        assert(!has_key(self@, k, key@));
        None
    }

    /// The first virtual display in registry order, if any.
    pub fn get_virtual(&self) -> (r: Option<MonitorInfo>)
        ensures
            r is Some <==> first_virtual(self@) is Some,
            r matches Some(m) ==> first_virtual(self@) == Some(m@),
    {
        let mut i: usize = 0;
        assert(self@.skip(0) =~= self@);
        while i < self.monitors.len()
            invariant
                i <= self.monitors@.len(),
                first_virtual(self@) == first_virtual(self@.skip(i as int)),
            decreases self.monitors@.len() - i,
        {
            assert(self@[i as int] == self.monitors@[i as int]@);
            assert(self@.skip(i as int)[0] == self@[i as int]);
            if self.monitors[i].is_virtual {
                let m = self.monitors[i].duplicate();
                return Some(m);
            }
            assert(self@.skip(i as int).drop_first() =~= self@.skip(i as int + 1));
            i = i + 1;
        }
        None
    }
}

/// The first virtual display of `s`, if any.
pub open spec fn first_virtual(s: Seq<MonitorModel>) -> Option<MonitorModel>
    decreases s.len(),
{
    if s.len() == 0 {
        None
    } else if s[0].is_virtual {
        Some(s[0])
    } else {
        first_virtual(s.drop_first())
    }
}

} // verus!
