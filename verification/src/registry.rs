//! The table of discovered devices: devices by id, and the index from
//! announced service names to device ids.
use vstd::prelude::*;
use vstd::utf8::*;
use vstd::string::StringSliceAdditionalSpecFns;

verus! {

/// A device seen on the local network.
#[derive(Debug)]
pub struct DeviceInfo {
    /// Unique id of the device (a UUID).
    pub device_id: String,
    /// Name shown to the user.
    pub device_name: String,
    /// Address to reach the device at (for a discovered one, the first
    /// announced address on a local subnet).
    pub ip: String,
    /// Every IPv4 address the device announced.
    pub addresses: Vec<String>,
    /// Port of the device's transfer server.
    pub port: u16,
    /// `windows`, `macos` or `linux`.
    pub platform: String,
    /// Application version.
    pub version: String,
    /// Whether the device serves over HTTPS.
    pub https: bool,
    /// When the device was last heard from (Unix milliseconds).
    pub last_seen: u64,
}

/// The value of a device record.
pub struct DeviceView {
    pub device_id: Seq<char>,
    pub device_name: Seq<char>,
    pub ip: Seq<char>,
    pub addresses: Seq<Seq<char>>,
    pub port: u16,
    pub platform: Seq<char>,
    pub version: Seq<char>,
    pub https: bool,
    pub last_seen: u64,
}

impl View for DeviceInfo {
    type V = DeviceView;

    open spec fn view(&self) -> DeviceView {
        DeviceView {
            device_id: self.device_id@,
            device_name: self.device_name@,
            ip: self.ip@,
            addresses: Seq::new(self.addresses@.len(), |i: int| self.addresses@[i]@),
            port: self.port,
            platform: self.platform@,
            version: self.version@,
            https: self.https,
            last_seen: self.last_seen,
        }
    }
}

/// What `upsert_device` did.
#[derive(Debug, Clone, Copy, PartialEq, Eq, Structural)]
pub enum UpsertResult {
    /// The device was not known and has been added.
    Added,
    /// The device was known with a different address, port, name, version or platform.
    Updated,
    /// Nothing that matters changed; only the last-seen time was refreshed.
    NoChange,
}

/// Copies a list of strings.
pub fn clone_strings(v: &Vec<String>) -> (res: Vec<String>)
    ensures
        res@ == v@,
{
    let mut out: Vec<String> = Vec::new();
    let mut i: usize = 0;
    while i < v.len()
        invariant
            i <= v@.len(),
            out@ =~= v@.take(i as int),
        decreases v@.len() - i,
    {
        out.push(v[i].clone());
        i = i + 1;
    }
    assert(v@.take(v@.len() as int) =~= v@);
    out
}

impl DeviceInfo {
    /// A copy of this device.
    pub fn copy(&self) -> (res: DeviceInfo)
        ensures
            res@ == self@,
    {
        DeviceInfo {
            device_id: self.device_id.clone(),
            device_name: self.device_name.clone(),
            ip: self.ip.clone(),
            addresses: clone_strings(&self.addresses),
            port: self.port,
            platform: self.platform.clone(),
            version: self.version.clone(),
            https: self.https,
            last_seen: self.last_seen,
        }
    }
}

/// Whether two announcements of a device agree on everything but the
/// last-seen time, the address list and the HTTPS flag.
pub open spec fn same_announcement(a: DeviceView, b: DeviceView) -> bool {
    a.ip == b.ip && a.port == b.port && a.device_name == b.device_name && a.version == b.version
        && a.platform == b.platform
}

/// The devices of a list, by id (a later entry wins).
pub open spec fn device_map(s: Seq<DeviceInfo>) -> Map<Seq<char>, DeviceView>
    decreases s.len(),
{
    if s.len() == 0 {
        Map::empty()
    } else {
        device_map(s.drop_last()).insert(s.last().device_id@, s.last()@)
    }
}

/// The service-name index of a list of pairs (a later pair wins).
pub open spec fn name_map(s: Seq<(String, String)>) -> Map<Seq<char>, Seq<char>>
    decreases s.len(),
{
    if s.len() == 0 {
        Map::empty()
    } else {
        name_map(s.drop_last()).insert(s.last().0@, s.last().1@)
    }
}

pub open spec fn device_ids_unique(s: Seq<DeviceInfo>) -> bool {
    forall|i: int, j: int|
        0 <= i < j < s.len() ==> #[trigger] s[i].device_id@ != #[trigger] s[j].device_id@
}

pub open spec fn names_unique(s: Seq<(String, String)>) -> bool {
    forall|i: int, j: int| 0 <= i < j < s.len() ==> #[trigger] s[i].0@ != #[trigger] s[j].0@
}

proof fn lemma_device_map(s: Seq<DeviceInfo>)
    requires
        device_ids_unique(s),
    ensures
        forall|i: int|
            0 <= i < s.len() ==> #[trigger] device_map(s).contains_key(s[i].device_id@)
                && device_map(s)[s[i].device_id@] == s[i]@,
        forall|k: Seq<char>|
            #[trigger] device_map(s).contains_key(k) ==> exists|i: int|
                0 <= i < s.len() && s[i].device_id@ == k,
    decreases s.len(),
{
    if s.len() > 0 {
        let t = s.drop_last();
        assert(device_ids_unique(t)) by {
            assert forall|i: int, j: int| 0 <= i < j < t.len() implies #[trigger] t[i].device_id@
                != #[trigger] t[j].device_id@ by {
                assert(t[i] == s[i] && t[j] == s[j]);
            }
        }
        lemma_device_map(t);
        assert(device_map(s) == device_map(t).insert(s.last().device_id@, s.last()@));
        assert forall|k: Seq<char>| #[trigger] device_map(s).contains_key(k) implies exists|i: int|
            0 <= i < s.len() && s[i].device_id@ == k by {
            if k != s.last().device_id@ {
                assert(device_map(s) == device_map(t).insert(s.last().device_id@, s.last()@));
                assert(device_map(t).contains_key(k));
                let i = choose|i: int| 0 <= i < t.len() && t[i].device_id@ == k;
                assert(s[i] == t[i]);
            } else {
                assert(s[s.len() - 1].device_id@ == k);
            }
        }
        assert forall|i: int| 0 <= i < s.len() implies #[trigger] device_map(s).contains_key(
            s[i].device_id@,
        ) && device_map(s)[s[i].device_id@] == s[i]@ by {
            if i < s.len() - 1 {
                assert(s[i] == t[i]);
                assert(s[i].device_id@ != s[s.len() - 1].device_id@);
                assert(device_map(t).contains_key(t[i].device_id@));
            }
        }
    }
}

proof fn lemma_name_map(s: Seq<(String, String)>)
    requires
        names_unique(s),
    ensures
        forall|i: int|
            0 <= i < s.len() ==> #[trigger] name_map(s).contains_key(s[i].0@) && name_map(s)[s[i].0@]
                == s[i].1@,
        forall|k: Seq<char>|
            #[trigger] name_map(s).contains_key(k) ==> exists|i: int| 0 <= i < s.len() && s[i].0@ == k,
    decreases s.len(),
{
    if s.len() > 0 {
        let t = s.drop_last();
        assert(names_unique(t)) by {
            assert forall|i: int, j: int| 0 <= i < j < t.len() implies #[trigger] t[i].0@
                != #[trigger] t[j].0@ by {
                assert(t[i] == s[i] && t[j] == s[j]);
            }
        }
        lemma_name_map(t);
        assert(name_map(s) == name_map(t).insert(s.last().0@, s.last().1@));
        assert forall|k: Seq<char>| #[trigger] name_map(s).contains_key(k) implies exists|i: int|
            0 <= i < s.len() && s[i].0@ == k by {
            if k != s.last().0@ {
                assert(name_map(s) == name_map(t).insert(s.last().0@, s.last().1@));
                assert(name_map(t).contains_key(k));
                let i = choose|i: int| 0 <= i < t.len() && t[i].0@ == k;
                assert(s[i] == t[i]);
            } else {
                assert(s[s.len() - 1].0@ == k);
            }
        }
        assert forall|i: int| 0 <= i < s.len() implies #[trigger] name_map(s).contains_key(s[i].0@)
            && name_map(s)[s[i].0@] == s[i].1@ by {
            if i < s.len() - 1 {
                assert(s[i] == t[i]);
                assert(s[i].0@ != s[s.len() - 1].0@);
                assert(name_map(t).contains_key(t[i].0@));
            }
        }
    }
}

/// The byte-wise lexicographic order of strings (`Ord` for `String`).
pub open spec fn bytes_le(a: Seq<u8>, b: Seq<u8>) -> bool
    decreases a.len(),
{
    if a.len() == 0 {
        true
    } else if b.len() == 0 {
        false
    } else if a[0] < b[0] {
        true
    } else if a[0] > b[0] {
        false
    } else {
        bytes_le(a.drop_first(), b.drop_first())
    }
}

/// Devices ordered by name, as `String`'s `Ord` orders names.
pub open spec fn name_le(a: DeviceView, b: DeviceView) -> bool {
    bytes_le(encode_utf8(a.device_name), encode_utf8(b.device_name))
}

proof fn lemma_bytes_le_total(a: Seq<u8>, b: Seq<u8>)
    ensures
        bytes_le(a, b) || bytes_le(b, a),
    decreases a.len(),
{
    if a.len() > 0 && b.len() > 0 && a[0] == b[0] {
        lemma_bytes_le_total(a.drop_first(), b.drop_first());
    }
}

proof fn lemma_bytes_le_trans(a: Seq<u8>, b: Seq<u8>, c: Seq<u8>)
    requires
        bytes_le(a, b),
        bytes_le(b, c),
    ensures
        bytes_le(a, c),
    decreases a.len(),
{
    if a.len() > 0 && b.len() > 0 && c.len() > 0 && a[0] == b[0] && b[0] == c[0] {
        lemma_bytes_le_trans(a.drop_first(), b.drop_first(), c.drop_first());
    }
}

/// Whether `a` comes before or with `b` in byte-wise order.
fn bytes_le_exec(a: &[u8], b: &[u8]) -> (res: bool)
    ensures
        res == bytes_le(a@, b@),
{
    let mut i: usize = 0;
    assert(a@.skip(0) =~= a@);
    assert(b@.skip(0) =~= b@);
    while i < a.len() && i < b.len()
        invariant
            i <= a@.len(),
            i <= b@.len(),
            bytes_le(a@, b@) == bytes_le(a@.skip(i as int), b@.skip(i as int)),
        decreases a@.len() - i,
    {
        if a[i] < b[i] {
            return true;
        }
        if a[i] > b[i] {
            return false;
        }
        assert(a@.skip(i as int).drop_first() =~= a@.skip(i + 1));
        assert(b@.skip(i as int).drop_first() =~= b@.skip(i + 1));
        i = i + 1;
    }
    i == a.len()
}

/// Whether `a`'s name comes before or with `b`'s.
fn name_le_exec(a: &DeviceInfo, b: &DeviceInfo) -> (res: bool)
    ensures
        res == name_le(a@, b@),
{
    bytes_le_exec(a.device_name.as_str().as_bytes(), b.device_name.as_str().as_bytes())
}

/// What recording an announcement does: add an unknown device, keep a
/// known one whose announcement agrees, or replace it otherwise.
pub open spec fn upsert_outcome(m: Map<Seq<char>, DeviceView>, info: DeviceView) -> UpsertResult {
    if !m.contains_key(info.device_id) {
        UpsertResult::Added
    } else if same_announcement(m[info.device_id], info) {
        UpsertResult::NoChange
    } else {
        UpsertResult::Updated
    }
}

/// The devices after recording an announcement: a device whose
/// announcement agrees only has its last-seen time refreshed.
pub open spec fn upserted_devices(m: Map<Seq<char>, DeviceView>, info: DeviceView) -> Map<
    Seq<char>,
    DeviceView,
> {
    if upsert_outcome(m, info) == UpsertResult::NoChange {
        m.insert(info.device_id, DeviceView { last_seen: info.last_seen, ..m[info.device_id] })
    } else {
        m.insert(info.device_id, info)
    }
}

/// The service-name index without the names that point to `id`.
pub open spec fn names_without(names: Map<Seq<char>, Seq<char>>, id: Seq<char>) -> Map<
    Seq<char>,
    Seq<char>,
> {
    names.restrict(names.dom().filter(|k: Seq<char>| names[k] != id))
}

/// The values of a list of devices.
pub open spec fn views_of(s: Seq<DeviceInfo>) -> Seq<DeviceView> {
    Seq::new(s.len(), |i: int| s[i]@)
}

/// Whether `j` occurs in `perm`.
pub open spec fn covers(perm: Seq<int>, j: int) -> bool {
    exists|a: int| 0 <= a < perm.len() && perm[a] == j
}

/// Whether a device has not been heard from for more than `timeout_ms` at
/// time `now` (`now.saturating_sub(last_seen) > timeout_ms`).
pub open spec fn is_stale(d: DeviceView, now: u64, timeout_ms: u64) -> bool {
    (if now >= d.last_seen {
        now - d.last_seen
    } else {
        0
    }) > timeout_ms
}

/// Devices sorted by name.
pub open spec fn sorted_by_name(s: Seq<DeviceView>) -> bool {
    forall|i: int, j: int| 0 <= i < j < s.len() ==> name_le(#[trigger] s[i], #[trigger] s[j])
}

/// The discovered devices (by id) and the index from announced service
/// names to device ids.
pub struct DeviceRegistry {
    devices: Vec<DeviceInfo>,
    fullname_index: Vec<(String, String)>,
}

impl DeviceRegistry {
    /// Known devices, by id.
    pub closed spec fn devices(self) -> Map<Seq<char>, DeviceView> {
        device_map(self.devices@)
    }

    /// Announced service name to device id.
    pub closed spec fn names(self) -> Map<Seq<char>, Seq<char>> {
        name_map(self.fullname_index@)
    }

    /// Each device and each service name is held once.
    pub closed spec fn wf(self) -> bool {
        device_ids_unique(self.devices@) && names_unique(self.fullname_index@)
    }

    /// An empty table.
    pub fn new() -> (res: DeviceRegistry)
        ensures
            res.wf(),
            res.devices() == Map::<Seq<char>, DeviceView>::empty(),
            res.names() == Map::<Seq<char>, Seq<char>>::empty(),
    {
        DeviceRegistry { devices: Vec::new(), fullname_index: Vec::new() }
    }

    fn find_device(&self, id: &str) -> (res: Option<usize>)
        requires
            self.wf(),
        ensures
            match res {
                Some(i) => i < self.devices@.len() && self.devices@[i as int].device_id@ == id@,
                None => !self.devices().contains_key(id@),
            },
    {
        proof {
            lemma_device_map(self.devices@);
        }
        let mut i: usize = 0;
        while i < self.devices.len()
            invariant
                i <= self.devices@.len(),
                forall|j: int| 0 <= j < i ==> self.devices@[j].device_id@ != id@,
                device_ids_unique(self.devices@),
            decreases self.devices@.len() - i,
        {
            if str_eq(self.devices[i].device_id.as_str(), id) {
                return Some(i);
            }
            i = i + 1;
        }
        proof {
            lemma_device_map(self.devices@);
            if self.devices().contains_key(id@) {
                let j = choose|j: int| 0 <= j < self.devices@.len() && self.devices@[j].device_id@ == id@;
            }
        }
        None
    }

    /// The device with this id, if known.
    pub fn get_device(&self, id: &str) -> (res: Option<DeviceInfo>)
        requires
            self.wf(),
        ensures
            match res {
                Some(d) => self.devices().contains_key(id@) && d@ == self.devices()[id@],
                None => !self.devices().contains_key(id@),
            },
    {
        proof {
            lemma_device_map(self.devices@);
        }
        match self.find_device(id) {
            Some(i) => {
                proof {
                    assert(device_map(self.devices@).contains_key(self.devices@[i as int].device_id@));
                }
                Some(self.devices[i].copy())
            },
            None => None,
        }
    }

    /// The device id indexed under a service name, if any.
    pub fn device_id_for_name(&self, fullname: &str) -> (res: Option<String>)
        requires
            self.wf(),
        ensures
            match res {
                Some(id) => self.names().contains_key(fullname@) && id@ == self.names()[fullname@],
                None => !self.names().contains_key(fullname@),
            },
    {
        proof {
            lemma_name_map(self.fullname_index@);
        }
        let mut i: usize = 0;
        while i < self.fullname_index.len()
            invariant
                i <= self.fullname_index@.len(),
                forall|j: int| 0 <= j < i ==> self.fullname_index@[j].0@ != fullname@,
                names_unique(self.fullname_index@),
            decreases self.fullname_index@.len() - i,
        {
            if str_eq(self.fullname_index[i].0.as_str(), fullname) {
                proof {
                    lemma_name_map(self.fullname_index@);
                }
                return Some(self.fullname_index[i].1.clone());
            }
            i = i + 1;
        }
        proof {
            lemma_name_map(self.fullname_index@);
            if self.names().contains_key(fullname@) {
                let j = choose|j: int| 0 <= j < self.fullname_index@.len() && self.fullname_index@[j].0@ == fullname@;
            }
        }
        None
    }

    fn set_name(&mut self, fullname: String, id: String)
        requires
            old(self).wf(),
        ensures
            final(self).wf(),
            final(self).names() == old(self).names().insert(fullname@, id@),
            final(self).devices@ == old(self).devices@,
    {
        proof {
            lemma_name_map(self.fullname_index@);
        }
        let ghost s = self.fullname_index@;
        let mut i: usize = 0;
        while i < self.fullname_index.len()
            invariant
                i <= self.fullname_index@.len(),
                self.fullname_index@ == s,
                names_unique(s),
                s == old(self).fullname_index@,
                self.devices@ == old(self).devices@,
                device_ids_unique(self.devices@),
                forall|j: int| 0 <= j < i ==> s[j].0@ != fullname@,
            decreases s.len() - i,
        {
            if str_eq(self.fullname_index[i].0.as_str(), fullname.as_str()) {
                let ghost k = fullname@;
                self.fullname_index.set(i, (fullname, id));
                proof {
                    lemma_name_map_update(s, i as int, self.fullname_index@[i as int]);
                }
                return;
            }
            i = i + 1;
        }
        proof {
            assert forall|j: int, l: int| 0 <= j < l < s.len() + 1 implies #[trigger] s.push(
                (fullname, id),
            )[j].0@ != #[trigger] s.push((fullname, id))[l].0@ by {
                if l < s.len() {
                    assert(s.push((fullname, id))[j] == s[j]);
                    assert(s.push((fullname, id))[l] == s[l]);
                }
            }
            assert(s.push((fullname, id)).drop_last() =~= s);
        }
        self.fullname_index.push((fullname, id));
    }

    /// Records an announcement: the service name now points to the device,
    /// and the device is added, replaced, or only has its last-seen time
    /// refreshed when the announcement agrees with what was known.
    pub fn upsert_device(&mut self, fullname: String, info: DeviceInfo) -> (res: UpsertResult)
        requires
            old(self).wf(),
        ensures
            final(self).wf(),
            final(self).names() == old(self).names().insert(fullname@, info.device_id@),
            res == upsert_outcome(old(self).devices(), info@),
            final(self).devices() == upserted_devices(old(self).devices(), info@),
    {
        proof {
            lemma_device_map(self.devices@);
        }
        let id = info.device_id.clone();
        self.set_name(fullname, id);
        let ghost s = self.devices@;
        match self.find_device(info.device_id.as_str()) {
            None => {
                proof {
                    assert forall|j: int, l: int| 0 <= j < l < s.len() + 1 implies #[trigger] s.push(
                        info,
                    )[j].device_id@ != #[trigger] s.push(info)[l].device_id@ by {
                        if l < s.len() {
                            assert(s.push(info)[j] == s[j]);
                            assert(s.push(info)[l] == s[l]);
                        } else {
                            assert(s.push(info)[j] == s[j]);
                        }
                    }
                    assert(s.push(info).drop_last() =~= s);
                }
                self.devices.push(info);
                UpsertResult::Added
            },
            Some(i) => {
                let same = {
                    let e = &self.devices[i];
                    str_eq(e.ip.as_str(), info.ip.as_str()) && e.port == info.port && str_eq(
                        e.device_name.as_str(),
                        info.device_name.as_str(),
                    ) && str_eq(e.version.as_str(), info.version.as_str()) && str_eq(
                        e.platform.as_str(),
                        info.platform.as_str(),
                    )
                };
                if same {
                    let mut d = self.devices[i].copy();
                    d.last_seen = info.last_seen;
                    proof {
                        assert(device_map(s).contains_key(s[i as int].device_id@));
                        assert(d@ == DeviceView { last_seen: info.last_seen, ..s[i as int]@ });
                        lemma_device_map_update(s, i as int, d);
                    }
                    self.devices.set(i, d);
                    UpsertResult::NoChange
                } else {
                    proof {
                        lemma_device_map_update(s, i as int, info);
                    }
                    self.devices.set(i, info);
                    UpsertResult::Updated
                }
            },
        }
    }

    /// Forgets a device and every service name that points to it; tells
    /// whether the device was known.
    pub fn remove_device(&mut self, device_id: &str) -> (res: bool)
        requires
            old(self).wf(),
        ensures
            final(self).wf(),
            res == old(self).devices().contains_key(device_id@),
            final(self).devices() == old(self).devices().remove(device_id@),
            final(self).names() == names_without(old(self).names(), device_id@),
    {
        proof {
            lemma_device_map(self.devices@);
            lemma_name_map(self.fullname_index@);
        }
        let ghost s = self.fullname_index@;
        let ghost m = name_map(s);
        let mut kept: Vec<(String, String)> = Vec::new();
        let mut i: usize = 0;
        while i < self.fullname_index.len()
            invariant
                i <= s.len(),
                self.fullname_index@ == s,
                names_unique(s),
                names_unique(kept@),
                forall|a: int|
                    0 <= a < kept@.len() ==> exists|j: int| 0 <= j < i && #[trigger] kept@[a] == s[j],
                name_map(kept@) == names_without(name_map(s.take(i as int)), device_id@),
            decreases s.len() - i,
        {
            let e = &self.fullname_index[i];
            proof {
                assert(s.take(i + 1).drop_last() =~= s.take(i as int));
                lemma_name_map_prefix_fresh(s, i as int);
            }
            if !str_eq(e.1.as_str(), device_id) {
                let pair = (e.0.clone(), e.1.clone());
                proof {
                    assert forall|a: int, b: int| 0 <= a < b < kept@.len() + 1 implies #[trigger] kept@.push(
                        pair,
                    )[a].0@ != #[trigger] kept@.push(pair)[b].0@ by {
                        if b < kept@.len() {
                            assert(kept@.push(pair)[a] == kept@[a]);
                            assert(kept@.push(pair)[b] == kept@[b]);
                        } else {
                            assert(kept@.push(pair)[a] == kept@[a]);
                            let j = choose|j: int| 0 <= j < i && kept@[a] == s[j];
                            assert(s[j].0@ != s[i as int].0@);
                        }
                    }
                    assert(kept@.push(pair).drop_last() =~= kept@);
                }
                let ghost before = kept@;
                kept.push(pair);
                proof {
                    assert forall|a: int| 0 <= a < kept@.len() implies exists|j: int|
                        0 <= j < i + 1 && #[trigger] kept@[a] == s[j] by {
                        if a < before.len() {
                            assert(kept@[a] == before[a]);
                            let j = choose|j: int| 0 <= j < i && before[a] == s[j];
                            assert(0 <= j < i + 1 && kept@[a] == s[j]);
                        } else {
                            assert(kept@[a] == s[i as int]);
                        }
                    }
                    let mo = name_map(s.take(i as int));
                    let mn = name_map(s.take(i + 1));
                    assert(name_map(kept@) =~= names_without(mn, device_id@)) by {
                        assert(kept@.drop_last() =~= before);
                    }
                }
            } else {
                proof {
                    assert forall|a: int| 0 <= a < kept@.len() implies exists|j: int|
                        0 <= j < i + 1 && #[trigger] kept@[a] == s[j] by {
                        let j = choose|j: int| 0 <= j < i && kept@[a] == s[j];
                        assert(0 <= j < i + 1 && kept@[a] == s[j]);
                    }
                    let mo = name_map(s.take(i as int));
                    let mn = name_map(s.take(i + 1));
                    assert(name_map(kept@) =~= names_without(mn, device_id@));
                }
            }
            i = i + 1;
        }
        proof {
            assert(s.take(s.len() as int) =~= s);
        }
        self.fullname_index = kept;
        let ghost d = self.devices@;
        match self.find_device(device_id) {
            None => {
                assert(device_map(d).remove(device_id@) =~= device_map(d));
                false
            },
            Some(j) => {
                proof {
                    lemma_device_map_remove(d, j as int);
                }
                self.devices.remove(j);
                true
            },
        }
    }

    /// Forgets the device that a service name points to, if any (as when
    /// the service is withdrawn); tells whether a device was forgotten.
    pub fn remove_device_by_fullname(&mut self, fullname: &str) -> (res: bool)
        requires
            old(self).wf(),
        ensures
            final(self).wf(),
            !old(self).names().contains_key(fullname@) ==> !res && final(self).devices()
                == old(self).devices() && final(self).names() == old(self).names(),
            old(self).names().contains_key(fullname@) ==> {
                let id = old(self).names()[fullname@];
                &&& res == old(self).devices().contains_key(id)
                &&& final(self).devices() == old(self).devices().remove(id)
                &&& final(self).names() == names_without(old(self).names(), id)
            },
    {
        match self.device_id_for_name(fullname) {
            Some(id) => self.remove_device(id.as_str()),
            None => false,
        }
    }

    /// The known devices, sorted by name (byte-wise, as `String` orders),
    /// each once.
    pub fn list_devices(&self) -> (res: Vec<DeviceInfo>)
        requires
            self.wf(),
        ensures
            sorted_by_name(views_of(res@)),
            forall|a: int|
                0 <= a < res@.len() ==> #[trigger] self.devices().contains_key(res@[a]@.device_id)
                    && self.devices()[res@[a]@.device_id] == res@[a]@,
            forall|k: Seq<char>|
                #[trigger] self.devices().contains_key(k) ==> exists|a: int|
                    0 <= a < res@.len() && res@[a]@.device_id == k,
            forall|a: int, b: int|
                0 <= a < b < res@.len() ==> #[trigger] res@[a]@.device_id != #[trigger] res@[b]@.device_id,
    {
        let ghost s = self.devices@;
        let mut out: Vec<DeviceInfo> = Vec::new();
        let ghost mut perm: Seq<int> = Seq::empty();
        let mut i: usize = 0;
        while i < self.devices.len()
            invariant
                s == self.devices@,
                i <= s.len(),
                out@.len() == i,
                perm.len() == i,
                forall|a: int| 0 <= a < i ==> 0 <= #[trigger] perm[a] < i,
                forall|a: int| 0 <= a < i ==> #[trigger] out@[a]@ == s[perm[a]]@,
                forall|a: int, b: int| 0 <= a < b < i ==> #[trigger] perm[a] != #[trigger] perm[b],
                forall|j: int| 0 <= j < i ==> #[trigger] covers(perm, j),
                sorted_by_name(views_of(out@)),
            decreases s.len() - i,
        {
            let d = self.devices[i].copy();
            let mut p: usize = 0;
            while p < out.len() && name_le_exec(&out[p], &d)
                invariant
                    p <= out@.len(),
                    forall|a: int| 0 <= a < p ==> name_le(#[trigger] out@[a]@, d@),
                decreases out@.len() - p,
            {
                p = p + 1;
            }
            proof {
                assert forall|b: int| p <= b < out@.len() implies name_le(d@, #[trigger] out@[b]@) by {
                    let x = encode_utf8(d@.device_name);
                    let y = encode_utf8(out@[p as int]@.device_name);
                    let z = encode_utf8(out@[b]@.device_name);
                    assert(!bytes_le(y, x));
                    lemma_bytes_le_total(x, y);
                    if b > p {
                        assert(name_le(views_of(out@)[p as int], views_of(out@)[b]));
                        lemma_bytes_le_trans(x, y, z);
                    }
                }
            }
            let ghost old_out = out@;
            let ghost old_perm = perm;
            out.insert(p, d);
            proof {
                perm = old_perm.insert(p as int, i as int);
                assert forall|a: int| 0 <= a < i + 1 implies #[trigger] out@[a]@ == s[perm[a]]@ by {
                    if a < p {
                        assert(out@[a] == old_out[a]);
                        assert(perm[a] == old_perm[a]);
                    } else if a > p {
                        assert(out@[a] == old_out[a - 1]);
                        assert(perm[a] == old_perm[a - 1]);
                    }
                }
                assert forall|a: int| 0 <= a < i + 1 implies 0 <= #[trigger] perm[a] < i + 1 by {
                    if a < p {
                        assert(perm[a] == old_perm[a]);
                    } else if a > p {
                        assert(perm[a] == old_perm[a - 1]);
                    }
                }
                assert forall|a: int, b: int| 0 <= a < b < i + 1 implies #[trigger] perm[a]
                    != #[trigger] perm[b] by {
                    let a0 = if a < p { a } else { a - 1 };
                    let b0 = if b < p { b } else { b - 1 };
                    if a != p && b != p {
                        assert(perm[a] == old_perm[a0]);
                        assert(perm[b] == old_perm[b0]);
                    } else if a == p {
                        assert(perm[b] == old_perm[b0]);
                    } else {
                        assert(perm[a] == old_perm[a0]);
                    }
                }
                assert forall|j: int| 0 <= j < i + 1 implies #[trigger] covers(perm, j) by {
                    if j == i {
                        assert(perm[p as int] == j);
                    } else {
                        assert(covers(old_perm, j));
                        let a = choose|a: int| 0 <= a < old_perm.len() && old_perm[a] == j;
                        if a < p {
                            assert(perm[a] == j);
                        } else {
                            assert(perm[a + 1] == j);
                        }
                    }
                }
                assert forall|a: int, b: int| 0 <= a < b < out@.len() implies name_le(
                    #[trigger] views_of(out@)[a],
                    #[trigger] views_of(out@)[b],
                ) by {
                    if a < p && b < p {
                        assert(name_le(views_of(old_out)[a], views_of(old_out)[b]));
                    } else if a < p && b == p {
                    } else if a < p {
                        assert(name_le(views_of(old_out)[a], views_of(old_out)[b - 1]));
                    } else if a == p {
                        assert(out@[b] == old_out[b - 1]);
                    } else {
                        assert(name_le(views_of(old_out)[a - 1], views_of(old_out)[b - 1]));
                    }
                }
            }
            i = i + 1;
        }
        proof {
            lemma_device_map(s);
            assert forall|a: int|
                0 <= a < out@.len() implies #[trigger] self.devices().contains_key(out@[a]@.device_id)
                && self.devices()[out@[a]@.device_id] == out@[a]@ by {
                assert(device_map(s).contains_key(s[perm[a]].device_id@));
            }
            assert forall|k: Seq<char>| #[trigger] self.devices().contains_key(k) implies exists|a: int|
                0 <= a < out@.len() && out@[a]@.device_id == k by {
                let j = choose|j: int| 0 <= j < s.len() && s[j].device_id@ == k;
                assert(covers(perm, j));
                let a = choose|a: int| 0 <= a < perm.len() && perm[a] == j;
                assert(out@[a]@ == s[j]@);
            }
            assert forall|a: int, b: int| 0 <= a < b < out@.len() implies #[trigger] out@[a]@.device_id
                != #[trigger] out@[b]@.device_id by {
                assert(out@[a]@ == s[perm[a]]@);
                assert(out@[b]@ == s[perm[b]]@);
                if perm[a] < perm[b] {
                    assert(s[perm[a]].device_id@ != s[perm[b]].device_id@);
                } else {
                    assert(s[perm[b]].device_id@ != s[perm[a]].device_id@);
                }
            }
        }
        out
    }

    /// The devices not heard from for more than `timeout_ms` at time `now`
    /// (Unix milliseconds), each once, with the address and port to check
    /// them at.
    pub fn timed_out(&self, now: u64, timeout_ms: u64) -> (res: Vec<(String, String, u16)>)
        requires
            self.wf(),
        ensures
            forall|a: int|
                0 <= a < res@.len() ==> #[trigger] self.devices().contains_key(res@[a].0@) && {
                    let d = self.devices()[res@[a].0@];
                    &&& res@[a].1@ == d.ip
                    &&& res@[a].2 == d.port
                    &&& is_stale(d, now, timeout_ms)
                },
            forall|k: Seq<char>|
                #[trigger] self.devices().contains_key(k) && is_stale(self.devices()[k], now, timeout_ms)
                    ==> exists|a: int| 0 <= a < res@.len() && res@[a].0@ == k,
            forall|a: int, b: int| 0 <= a < b < res@.len() ==> #[trigger] res@[a].0@ != #[trigger] res@[b].0@,
    {
        let ghost s = self.devices@;
        proof {
            lemma_device_map(s);
        }
        let mut out: Vec<(String, String, u16)> = Vec::new();
        let ghost mut idx: Seq<int> = Seq::empty();
        let mut i: usize = 0;
        while i < self.devices.len()
            invariant
                s == self.devices@,
                device_ids_unique(s),
                i <= s.len(),
                out@.len() == idx.len(),
                forall|a: int| 0 <= a < idx.len() ==> 0 <= #[trigger] idx[a] < i,
                forall|a: int, b: int| 0 <= a < b < idx.len() ==> #[trigger] idx[a] < #[trigger] idx[b],
                forall|a: int|
                    0 <= a < idx.len() ==> {
                        let d = #[trigger] s[idx[a]];
                        &&& out@[a].0@ == d.device_id@
                        &&& out@[a].1@ == d.ip@
                        &&& out@[a].2 == d.port
                        &&& is_stale(d@, now, timeout_ms)
                    },
                forall|j: int|
                    0 <= j < i && is_stale(#[trigger] s[j]@, now, timeout_ms) ==> exists|a: int|
                        0 <= a < idx.len() && idx[a] == j,
            decreases s.len() - i,
        {
            let d = &self.devices[i];
            if now.saturating_sub(d.last_seen) > timeout_ms {
                out.push((d.device_id.clone(), d.ip.clone(), d.port));
                proof {
                    let old_idx = idx;
                    idx = idx.push(i as int);
                    assert forall|j: int|
                        0 <= j < i + 1 && is_stale(#[trigger] s[j]@, now, timeout_ms) implies exists|a: int|
                        0 <= a < idx.len() && idx[a] == j by {
                        if j < i {
                            let a = choose|a: int| 0 <= a < old_idx.len() && old_idx[a] == j;
                            assert(idx[a] == j);
                        } else {
                            assert(idx[idx.len() - 1] == j);
                        }
                    }
                }
            }
            i = i + 1;
        }
        proof {
            assert forall|a: int| 0 <= a < out@.len() implies #[trigger] self.devices().contains_key(
                out@[a].0@,
            ) && {
                let d = self.devices()[out@[a].0@];
                &&& out@[a].1@ == d.ip
                &&& out@[a].2 == d.port
                &&& is_stale(d, now, timeout_ms)
            } by {
                assert(device_map(s).contains_key(s[idx[a]].device_id@));
            }
            assert forall|k: Seq<char>|
                #[trigger] self.devices().contains_key(k) && is_stale(self.devices()[k], now, timeout_ms)
                implies exists|a: int| 0 <= a < out@.len() && out@[a].0@ == k by {
                let j = choose|j: int| 0 <= j < s.len() && s[j].device_id@ == k;
                assert(device_map(s).contains_key(s[j].device_id@));
                let a = choose|a: int| 0 <= a < idx.len() && idx[a] == j;
                assert(out@[a].0@ == k);
            }
            assert forall|a: int, b: int| 0 <= a < b < out@.len() implies #[trigger] out@[a].0@
                != #[trigger] out@[b].0@ by {
                assert(s[idx[a]].device_id@ != s[idx[b]].device_id@);
            }
        }
        out
    }

    /// A device answered a heartbeat at time `now`: its last-seen time is
    /// refreshed, and a reported name that differs from the known one
    /// replaces it. Returns the updated device when its name changed.
    pub fn record_ping_success(&mut self, device_id: &str, now: u64, new_name: Option<String>) -> (res:
        Option<DeviceInfo>)
        requires
            old(self).wf(),
        ensures
            final(self).wf(),
            final(self).names() == old(self).names(),
            !old(self).devices().contains_key(device_id@) ==> res is None && final(self).devices()
                == old(self).devices(),
            old(self).devices().contains_key(device_id@) ==> {
                let d = old(self).devices()[device_id@];
                let renamed = new_name matches Some(n) && n@ != d.device_name;
                let nd = DeviceView {
                    last_seen: now,
                    device_name: if renamed {
                        new_name.unwrap()@
                    } else {
                        d.device_name
                    },
                    ..d
                };
                &&& final(self).devices() == old(self).devices().insert(device_id@, nd)
                &&& (renamed ==> (res matches Some(r) && r@ == nd))
                &&& (!renamed ==> res is None)
            },
    {
        proof {
            lemma_device_map(self.devices@);
        }
        let ghost s = self.devices@;
        match self.find_device(device_id) {
            None => None,
            Some(i) => {
                let mut d = self.devices[i].copy();
                d.last_seen = now;
                let mut renamed = false;
                match new_name {
                    Some(n) => {
                        if !str_eq(n.as_str(), d.device_name.as_str()) {
                            d.device_name = n;
                            renamed = true;
                        }
                    },
                    None => {},
                }
                proof {
                    assert(device_map(s).contains_key(s[i as int].device_id@));
                    lemma_device_map_update(s, i as int, d);
                }
                let out = if renamed {
                    Some(d.copy())
                } else {
                    None
                };
                self.devices.set(i, d);
                out
            },
        }
    }

    /// Empties the table.
    pub fn clear(&mut self)
        ensures
            final(self).wf(),
            final(self).devices() == Map::<Seq<char>, DeviceView>::empty(),
            final(self).names() == Map::<Seq<char>, Seq<char>>::empty(),
    {
        self.devices.clear();
        self.fullname_index.clear();
    }
}

// ---------- laws ----------

/// Withdrawing the service under which a device was just announced forgets
/// that device, whatever the table held before.
pub proof fn lemma_announce_then_withdraw(
    devices: Map<Seq<char>, DeviceView>,
    names: Map<Seq<char>, Seq<char>>,
    fullname: Seq<char>,
    info: DeviceView,
)
    ensures
        ({
            let names1 = names.insert(fullname, info.device_id);
            let devices1 = upserted_devices(devices, info);
            &&& names1.contains_key(fullname)
            &&& names1[fullname] == info.device_id
            &&& devices1.contains_key(info.device_id)
            &&& !devices1.remove(names1[fullname]).contains_key(info.device_id)
            &&& !names_without(names1, info.device_id).contains_key(fullname)
        }),
{
}

/// Announcing the same device twice changes nothing the second time but
/// the last-seen time, and reports no change.
pub proof fn lemma_announce_twice(m: Map<Seq<char>, DeviceView>, info: DeviceView)
    ensures
        upsert_outcome(upserted_devices(m, info), info) == UpsertResult::NoChange,
        upserted_devices(upserted_devices(m, info), info) == upserted_devices(m, info),
{
    let m1 = upserted_devices(m, info);
    assert(m1[info.device_id].last_seen == info.last_seen);
    assert(upserted_devices(m1, info) =~= m1);
}

/// After a device is forgotten no service name points to it any more.
pub proof fn lemma_forget_leaves_no_name(names: Map<Seq<char>, Seq<char>>, id: Seq<char>)
    ensures
        forall|k: Seq<char>| #[trigger] names_without(names, id).contains_key(k) ==> names_without(
            names,
            id,
        )[k] != id && names.contains_key(k) && names[k] == names_without(names, id)[k],
{
}

/// Forgetting a device drops exactly the service names that point to it:
/// every other name keeps pointing where it did.
pub proof fn lemma_forget_keeps_other_names(names: Map<Seq<char>, Seq<char>>, id: Seq<char>)
    ensures
        forall|k: Seq<char>|
            #[trigger] names_without(names, id).contains_key(k) <==> (names.contains_key(k)
                && names[k] != id),
        forall|k: Seq<char>|
            names.contains_key(k) && names[k] != id ==> #[trigger] names_without(names, id)[k]
                == names[k],
{
}

/// After one device is forgotten, withdrawing the service of another
/// device still finds that device through its service name, and it is
/// still known unless it was the one forgotten.
pub proof fn lemma_withdraw_after_forgetting_another(
    devices: Map<Seq<char>, DeviceView>,
    names: Map<Seq<char>, Seq<char>>,
    forgotten: Seq<char>,
    fullname: Seq<char>,
)
    requires
        names.contains_key(fullname),
        names[fullname] != forgotten,
        devices.contains_key(names[fullname]),
    ensures
        names_without(names, forgotten).contains_key(fullname),
        names_without(names, forgotten)[fullname] == names[fullname],
        devices.remove(forgotten).contains_key(names[fullname]),
        !devices.remove(forgotten).remove(names[fullname]).contains_key(names[fullname]),
{
}

/// What recording an announcement reports and keeps, field by field: an
/// unknown device is added as announced; a known one whose address, port,
/// name, version or platform differs is reported updated and replaced by
/// the announcement; a known one that agrees on all five keeps its record
/// with only the last-seen time refreshed. Other devices are untouched.
pub proof fn lemma_upsert_by_fields(m: Map<Seq<char>, DeviceView>, info: DeviceView)
    ensures
        ({
            let id = info.device_id;
            let after = upserted_devices(m, info);
            &&& !m.contains_key(id) ==> upsert_outcome(m, info) == UpsertResult::Added
                && after[id] == info
            &&& m.contains_key(id) && (m[id].ip != info.ip || m[id].port != info.port
                || m[id].device_name != info.device_name || m[id].version != info.version
                || m[id].platform != info.platform) ==> upsert_outcome(m, info)
                == UpsertResult::Updated && after[id] == info
            &&& m.contains_key(id) && m[id].ip == info.ip && m[id].port == info.port
                && m[id].device_name == info.device_name && m[id].version == info.version
                && m[id].platform == info.platform ==> upsert_outcome(m, info)
                == UpsertResult::NoChange && after[id] == DeviceView {
                last_seen: info.last_seen,
                ..m[id]
            }
            &&& after.contains_key(id)
            &&& forall|k: Seq<char>|
                k != id ==> (#[trigger] after.contains_key(k) <==> m.contains_key(k)) && (
                m.contains_key(k) ==> after[k] == m[k])
        }),
{
}

/// Whether two strings are equal (compared byte for byte).
pub fn str_eq(a: &str, b: &str) -> (res: bool)
    ensures
        res == (a@ == b@),
{
    let x = a.as_bytes();
    let y = b.as_bytes();
    proof {
        encode_utf8_decode_utf8(a@);
        encode_utf8_decode_utf8(b@);
    }
    if x.len() != y.len() {
        return false;
    }
    let mut i: usize = 0;
    while i < x.len()
        invariant
            x@.len() == y@.len(),
            i <= x@.len(),
            x@ == encode_utf8(a@),
            y@ == encode_utf8(b@),
            decode_utf8(encode_utf8(a@)) == a@,
            decode_utf8(encode_utf8(b@)) == b@,
            forall|j: int| 0 <= j < i ==> x@[j] == y@[j],
        decreases x@.len() - i,
    {
        if x[i] != y[i] {
            return false;
        }
        i = i + 1;
    }
    assert(x@ =~= y@);
    true
}

proof fn lemma_device_map_update(s: Seq<DeviceInfo>, i: int, x: DeviceInfo)
    requires
        device_ids_unique(s),
        0 <= i < s.len(),
        x.device_id@ == s[i].device_id@,
    ensures
        device_ids_unique(s.update(i, x)),
        device_map(s.update(i, x)) == device_map(s).insert(x.device_id@, x@),
    decreases s.len(),
{
    let u = s.update(i, x);
    assert forall|a: int, b: int| 0 <= a < b < u.len() implies #[trigger] u[a].device_id@
        != #[trigger] u[b].device_id@ by {
        assert(s[a].device_id@ != s[b].device_id@);
    }
    if i == s.len() - 1 {
        assert(u.drop_last() =~= s.drop_last());
        assert(device_map(s).insert(x.device_id@, x@) =~= device_map(s.drop_last()).insert(
            x.device_id@,
            x@,
        ));
    } else {
        let t = s.drop_last();
        assert(device_ids_unique(t)) by {
            assert forall|a: int, b: int| 0 <= a < b < t.len() implies #[trigger] t[a].device_id@
                != #[trigger] t[b].device_id@ by {
                assert(t[a] == s[a] && t[b] == s[b]);
            }
        }
        lemma_device_map_update(t, i, x);
        assert(u.drop_last() =~= t.update(i, x));
        assert(s.last().device_id@ != x.device_id@) by {
            assert(s[i].device_id@ != s[s.len() - 1].device_id@);
        }
        assert(device_map(u) =~= device_map(s).insert(x.device_id@, x@));
    }
}

proof fn lemma_device_map_remove(s: Seq<DeviceInfo>, i: int)
    requires
        device_ids_unique(s),
        0 <= i < s.len(),
    ensures
        device_ids_unique(s.remove(i)),
        device_map(s.remove(i)) == device_map(s).remove(s[i].device_id@),
    decreases s.len(),
{
    let r = s.remove(i);
    assert forall|a: int, b: int| 0 <= a < b < r.len() implies #[trigger] r[a].device_id@
        != #[trigger] r[b].device_id@ by {
        let a0 = if a < i { a } else { a + 1 };
        let b0 = if b < i { b } else { b + 1 };
        assert(r[a] == s[a0] && r[b] == s[b0]);
    }
    let t = s.drop_last();
    assert(device_ids_unique(t)) by {
        assert forall|a: int, b: int| 0 <= a < b < t.len() implies #[trigger] t[a].device_id@
            != #[trigger] t[b].device_id@ by {
            assert(t[a] == s[a] && t[b] == s[b]);
        }
    }
    lemma_device_map(t);
    if i == s.len() - 1 {
        assert(r =~= t);
        assert forall|a: int| 0 <= a < t.len() implies #[trigger] t[a].device_id@ != s[i].device_id@ by {
            assert(t[a] == s[a]);
        }
        assert(!device_map(t).contains_key(s[i].device_id@));
        assert(device_map(r) =~= device_map(s).remove(s[i].device_id@));
    } else {
        lemma_device_map_remove(t, i);
        assert(r.drop_last() =~= t.remove(i));
        assert(r.last() == s.last());
        assert(s.last().device_id@ != s[i].device_id@);
        assert(device_map(r) =~= device_map(s).remove(s[i].device_id@));
    }
}

proof fn lemma_name_map_update(s: Seq<(String, String)>, i: int, x: (String, String))
    requires
        names_unique(s),
        0 <= i < s.len(),
        x.0@ == s[i].0@,
    ensures
        names_unique(s.update(i, x)),
        name_map(s.update(i, x)) == name_map(s).insert(x.0@, x.1@),
    decreases s.len(),
{
    let u = s.update(i, x);
    assert forall|a: int, b: int| 0 <= a < b < u.len() implies #[trigger] u[a].0@ != #[trigger] u[b].0@ by {
        assert(s[a].0@ != s[b].0@);
    }
    if i == s.len() - 1 {
        assert(u.drop_last() =~= s.drop_last());
        assert(name_map(s).insert(x.0@, x.1@) =~= name_map(s.drop_last()).insert(x.0@, x.1@));
    } else {
        let t = s.drop_last();
        assert(names_unique(t)) by {
            assert forall|a: int, b: int| 0 <= a < b < t.len() implies #[trigger] t[a].0@
                != #[trigger] t[b].0@ by {
                assert(t[a] == s[a] && t[b] == s[b]);
            }
        }
        lemma_name_map_update(t, i, x);
        assert(u.drop_last() =~= t.update(i, x));
        assert(s.last().0@ != x.0@) by {
            assert(s[i].0@ != s[s.len() - 1].0@);
        }
        assert(name_map(u) =~= name_map(s).insert(x.0@, x.1@));
    }
}

/// In a list of distinct names, the name at position `i` does not occur
/// before it.
proof fn lemma_name_map_prefix_fresh(s: Seq<(String, String)>, i: int)
    requires
        names_unique(s),
        0 <= i < s.len(),
    ensures
        !name_map(s.take(i)).contains_key(s[i].0@),
{
    let t = s.take(i);
    assert(names_unique(t)) by {
        assert forall|a: int, b: int| 0 <= a < b < t.len() implies #[trigger] t[a].0@
            != #[trigger] t[b].0@ by {
            assert(t[a] == s[a] && t[b] == s[b]);
        }
    }
    lemma_name_map(t);
    if name_map(t).contains_key(s[i].0@) {
        let j = choose|j: int| 0 <= j < t.len() && t[j].0@ == s[i].0@;
        assert(t[j] == s[j]);
    }
}

} // verus!
