//! The state of the discovery service, and the decisions its commands take
//! on it: starting, registering, renaming, withdrawing, answering pings and
//! connecting to peers.
use vstd::prelude::*;
use vstd::string::StringExecFns;
use crate::discovery::{
    announces, build_service_info, is_valid_device_name, mdns_addresses_parse,
    parse_resolved_service_at, ServiceAnnouncement,
    resolved_device, spec_is_valid_device_name, DiscoveryConfig, DiscoveryConfigView,
    ResolvedService, ServiceError,
};
use crate::lan::IpAddress;
use crate::registry::{names_without, upsert_outcome, upserted_devices, UpsertResult};
use crate::protocol::{Handshake, HandshakeView};
use crate::registry::{str_eq, DeviceInfo, DeviceRegistry, DeviceView};

verus! {

/// Why a discovery command was refused.
#[derive(Debug, Clone, Copy, PartialEq, Eq, Structural)]
pub enum SessionError {
    /// No device with that id is known.
    DeviceNotFound,
    /// Discovery has not been started (no configuration).
    NotStarted,
    /// This device's id is not known yet.
    NoDeviceId,
    /// A device name must be 1 to 32 bytes without `.`.
    InvalidName,
    /// No usable LAN address to announce.
    NoLanInterface,
    /// The announced service could not be built.
    BadService,
}

/// What `start_discovery` must do.
#[derive(Debug)]
pub enum StartPlan {
    /// Nothing runs yet: create the daemon, register if the port is set,
    /// and browse.
    Start,
    /// Discovery runs without a registered service and a port is now
    /// given: register this device (with this id) on the running daemon.
    Register { device_id: String },
    /// As `Register`, but this device's id is not known.
    MissingDeviceId,
    /// Discovery already runs and nothing is to be added.
    AlreadyRunning,
}

/// What `set_device_name` must do besides updating the configuration.
#[derive(Debug)]
pub enum RenamePlan {
    /// Withdraw the service `old_fullname` and announce a new one under the
    /// new name, with this id, port, platform and version.
    Reregister { old_fullname: String, device_id: String, port: u16, platform: String, version: String },
    /// Nothing is announced: only the configuration changes.
    LocalOnly,
}

/// The discovery service's state that its commands decide on (the mDNS
/// daemon and background tasks themselves are held by the caller).
pub struct DiscoveryState {
    /// Whether the mDNS daemon runs.
    pub daemon_running: bool,
    /// Full name of this device's registered service, if registered.
    pub registered_fullname: Option<String>,
    /// This device's id, once known.
    pub self_device_id: Option<String>,
    /// The configuration discovery was last started with.
    pub last_config: Option<DiscoveryConfig>,
    /// Discovered devices.
    pub devices: DeviceRegistry,
}

pub open spec fn opt_str(o: Option<String>) -> Option<Seq<char>> {
    match o {
        Some(s) => Some(s@),
        None => None,
    }
}

pub open spec fn opt_config(o: Option<DiscoveryConfig>) -> Option<DiscoveryConfigView> {
    match o {
        Some(c) => Some(c@),
        None => None,
    }
}

/// The addresses to try, in order: the preferred one, then each announced
/// address not already listed.
pub open spec fn connect_candidates_of(ip: Seq<char>, addrs: Seq<Seq<char>>) -> Seq<Seq<char>>
    decreases addrs.len(),
{
    if addrs.len() == 0 {
        seq![ip]
    } else {
        let c = connect_candidates_of(ip, addrs.drop_last());
        if c.contains(addrs.last()) {
            c
        } else {
            c.push(addrs.last())
        }
    }
}

fn contains_string(v: &Vec<String>, s: &String) -> (res: bool)
    ensures
        res == Seq::new(v@.len(), |i: int| v@[i]@).contains(s@),
{
    let ghost w = Seq::new(v@.len(), |i: int| v@[i]@);
    let mut i: usize = 0;
    while i < v.len()
        invariant
            i <= v@.len(),
            w == Seq::new(v@.len(), |i: int| v@[i]@),
            forall|j: int| 0 <= j < i ==> w[j] != s@,
        decreases v@.len() - i,
    {
        if str_eq(v[i].as_str(), s.as_str()) {
            assert(w[i as int] == s@);
            return true;
        }
        i = i + 1;
    }
    false
}

/// The addresses to try when connecting to a device (see
/// `connect_candidates_of`).
pub fn connect_candidates(info: &DeviceInfo) -> (res: Vec<String>)
    ensures
        Seq::new(res@.len(), |i: int| res@[i]@) == connect_candidates_of(info@.ip, info@.addresses),
{
    let mut out: Vec<String> = Vec::new();
    out.push(info.ip.clone());
    let ghost addrs = info@.addresses;
    let mut i: usize = 0;
    assert(Seq::new(out@.len(), |k: int| out@[k]@) =~= connect_candidates_of(info@.ip, addrs.take(0)));
    while i < info.addresses.len()
        invariant
            i <= info.addresses@.len(),
            addrs == info@.addresses,
            Seq::new(out@.len(), |k: int| out@[k]@) == connect_candidates_of(info@.ip, addrs.take(i as int)),
        decreases info.addresses@.len() - i,
    {
        let a = &info.addresses[i];
        proof {
            assert(addrs.take(i + 1).drop_last() =~= addrs.take(i as int));
            assert(addrs.take(i + 1).last() == a@);
        }
        if !contains_string(&out, a) {
            let ghost before = out@;
            out.push(a.clone());
            assert(Seq::new(out@.len(), |k: int| out@[k]@) =~= Seq::new(before.len(), |k: int| before[k]@).push(a@));
        }
        i = i + 1;
    }
    assert(addrs.take(info.addresses@.len() as int) =~= addrs);
    out
}

/// The candidate list starts with the preferred address, holds every
/// announced address, and holds none twice when the announced list holds
/// none twice.
pub proof fn lemma_connect_candidates(ip: Seq<char>, addrs: Seq<Seq<char>>)
    ensures
        connect_candidates_of(ip, addrs).len() >= 1,
        connect_candidates_of(ip, addrs)[0] == ip,
        forall|i: int| 0 <= i < addrs.len() ==> connect_candidates_of(ip, addrs).contains(#[trigger] addrs[i]),
        forall|i: int, j: int|
            0 <= i < j < connect_candidates_of(ip, addrs).len() ==> #[trigger] connect_candidates_of(ip, addrs)[i]
                != #[trigger] connect_candidates_of(ip, addrs)[j],
    decreases addrs.len(),
{
    if addrs.len() > 0 {
        let t = addrs.drop_last();
        lemma_connect_candidates(ip, t);
        let c = connect_candidates_of(ip, t);
        assert forall|i: int| 0 <= i < addrs.len() implies connect_candidates_of(ip, addrs).contains(
            #[trigger] addrs[i],
        ) by {
            if i < addrs.len() - 1 {
                assert(addrs[i] == t[i]);
                assert(c.contains(t[i]));
                if !c.contains(addrs.last()) {
                    let k = choose|k: int| 0 <= k < c.len() && c[k] == t[i];
                    assert(c.push(addrs.last())[k] == t[i]);
                }
            } else {
                if !c.contains(addrs.last()) {
                    assert(c.push(addrs.last())[c.len() as int] == addrs.last());
                }
            }
        }
    }
}

/// What the browser reports after a service was resolved.
#[derive(Debug)]
pub enum BrowseAction {
    /// The service is this device's own: nothing changes.
    OwnService,
    /// The service does not describe a usable device: nothing changes.
    Unusable,
    /// A device appeared (`device-online`).
    Online(DeviceInfo),
    /// A known device changed (`device-updated`).
    Updated(DeviceInfo),
    /// A known device announced itself again unchanged: only its last-seen
    /// time is refreshed, and nothing is reported.
    Refreshed,
}

impl DiscoveryState {
    /// Nothing running, nothing known.
    pub fn new() -> (res: DiscoveryState)
        ensures
            res.devices.wf(),
            !res.daemon_running,
            res.registered_fullname is None,
            res.self_device_id is None,
            res.last_config is None,
            res.devices.devices() == Map::<Seq<char>, DeviceView>::empty(),
            res.devices.names() == Map::<Seq<char>, Seq<char>>::empty(),
    {
        DiscoveryState {
            daemon_running: false,
            registered_fullname: None,
            self_device_id: None,
            last_config: None,
            devices: DeviceRegistry::new(),
        }
    }

    /// What starting discovery with this port must do: start everything
    /// when nothing runs; when it runs, register this device if a port is
    /// given and no service is registered yet (which needs this device's
    /// id), and otherwise do nothing.
    pub fn start_plan(&self, port: u16) -> (res: StartPlan)
        ensures
            !self.daemon_running ==> res is Start,
            self.daemon_running && port > 0 && self.registered_fullname is None ==> match self.self_device_id {
                Some(id) => res matches StartPlan::Register { device_id } && device_id@ == id@,
                None => res is MissingDeviceId,
            },
            self.daemon_running && !(port > 0 && self.registered_fullname is None) ==> res is AlreadyRunning,
    {
        if !self.daemon_running {
            return StartPlan::Start;
        }
        if port > 0 && self.registered_fullname.is_none() {
            match &self.self_device_id {
                Some(id) => StartPlan::Register { device_id: id.clone() },
                None => StartPlan::MissingDeviceId,
            }
        } else {
            StartPlan::AlreadyRunning
        }
    }

    /// Discovery has started: the daemon runs, with this device's id, the
    /// registered service (if any) and the configuration.
    pub fn finish_start(&mut self, registered_fullname: Option<String>, self_device_id: String, config: DiscoveryConfig)
        ensures
            final(self).daemon_running,
            opt_str(final(self).registered_fullname) == opt_str(registered_fullname),
            opt_str(final(self).self_device_id) == Some(self_device_id@),
            opt_config(final(self).last_config) == Some(config@),
            final(self).devices == old(self).devices,
    {
        self.daemon_running = true;
        self.registered_fullname = registered_fullname;
        self.self_device_id = Some(self_device_id);
        self.last_config = Some(config);
    }

    /// This device's service has been registered on the running daemon.
    pub fn finish_register(&mut self, registered_fullname: Option<String>, config: DiscoveryConfig)
        ensures
            final(self).daemon_running == old(self).daemon_running,
            opt_str(final(self).registered_fullname) == opt_str(registered_fullname),
            opt_str(final(self).self_device_id) == opt_str(old(self).self_device_id),
            opt_config(final(self).last_config) == Some(config@),
            final(self).devices == old(self).devices,
    {
        self.registered_fullname = registered_fullname;
        self.last_config = Some(config);
    }

    /// Discovery has stopped: nothing runs and everything is forgotten.
    pub fn stop(&mut self)
        ensures
            !final(self).daemon_running,
            final(self).registered_fullname is None,
            final(self).self_device_id is None,
            final(self).last_config is None,
            final(self).devices.wf(),
            final(self).devices.devices() == Map::<Seq<char>, DeviceView>::empty(),
            final(self).devices.names() == Map::<Seq<char>, Seq<char>>::empty(),
    {
        self.daemon_running = false;
        self.registered_fullname = None;
        self.self_device_id = None;
        self.last_config = None;
        self.devices.clear();
    }

    /// Withdraws this device's service while browsing goes on: when the
    /// daemon runs with a registered service, forgets the registration and
    /// the configuration and returns the service name to unregister.
    pub fn take_registration(&mut self) -> (res: Option<String>)
        ensures
            old(self).daemon_running && old(self).registered_fullname is Some ==> {
                &&& opt_str(res) == opt_str(old(self).registered_fullname)
                &&& final(self).registered_fullname is None
                &&& final(self).last_config is None
            },
            !(old(self).daemon_running && old(self).registered_fullname is Some) ==> res is None
                && opt_str(final(self).registered_fullname) == opt_str(old(self).registered_fullname)
                && opt_config(final(self).last_config) == opt_config(old(self).last_config),
            final(self).daemon_running == old(self).daemon_running,
            opt_str(final(self).self_device_id) == opt_str(old(self).self_device_id),
            final(self).devices == old(self).devices,
    {
        if self.daemon_running && self.registered_fullname.is_some() {
            let f = self.registered_fullname.take();
            self.last_config = None;
            f
        } else {
            None
        }
    }

    /// What renaming this device must do: refuse an invalid name; when a
    /// service is registered (daemon, registration, configuration and id
    /// all present), withdraw it and announce a new one; otherwise only
    /// update the configuration.
    pub fn rename_plan(&self, name: &str) -> (res: Result<RenamePlan, SessionError>)
        ensures
            !spec_is_valid_device_name(name@) ==> res == Err::<RenamePlan, SessionError>(SessionError::InvalidName),
            spec_is_valid_device_name(name@) ==> match (self.daemon_running, self.registered_fullname, self.last_config, self.self_device_id) {
                (true, Some(f), Some(c), Some(id)) => res matches Ok(RenamePlan::Reregister { old_fullname, device_id, port, platform, version })
                    && old_fullname@ == f@ && device_id@ == id@ && port == c.port && platform@ == c.platform@ && version@ == c.version@,
                _ => res matches Ok(RenamePlan::LocalOnly),
            },
    {
        if !is_valid_device_name(name) {
            return Err(SessionError::InvalidName);
        }
        if self.daemon_running {
            match (&self.registered_fullname, &self.last_config, &self.self_device_id) {
                (Some(f), Some(c), Some(id)) => {
                    return Ok(RenamePlan::Reregister {
                        old_fullname: f.clone(),
                        device_id: id.clone(),
                        port: c.port,
                        platform: c.platform.clone(),
                        version: c.version.clone(),
                    });
                },
                _ => {},
            }
        }
        Ok(RenamePlan::LocalOnly)
    }

    /// The rename has been carried out: record the new service name (if a
    /// new service was announced) and the new name in the configuration.
    pub fn apply_rename(&mut self, name: String, new_fullname: Option<String>)
        ensures
            new_fullname is Some ==> opt_str(final(self).registered_fullname) == opt_str(new_fullname),
            new_fullname is None ==> opt_str(final(self).registered_fullname) == opt_str(old(self).registered_fullname),
            match old(self).last_config {
                Some(c) => opt_config(final(self).last_config) == Some(DiscoveryConfigView { device_name: name@, ..c@ }),
                None => final(self).last_config is None,
            },
            final(self).daemon_running == old(self).daemon_running,
            opt_str(final(self).self_device_id) == opt_str(old(self).self_device_id),
            final(self).devices == old(self).devices,
    {
        if new_fullname.is_some() {
            self.registered_fullname = new_fullname;
        }
        match &mut self.last_config {
            Some(c) => {
                c.device_name = name;
            },
            None => {},
        }
    }

    /// The name a ping is answered with: the configured device name, or
    /// the empty string before discovery starts.
    pub fn ping_reply_name(&self) -> (res: String)
        ensures
            match self.last_config {
                Some(c) => res@ == c.device_name@,
                None => res@ == Seq::<char>::empty(),
            },
    {
        match &self.last_config {
            Some(c) => c.device_name.clone(),
            None => String::new(),
        }
    }

    /// Whether a resolved service is this device's own registration.
    pub fn is_own_service(&self, fullname: &str) -> (res: bool)
        ensures
            res == (self.registered_fullname matches Some(f) && f@ == fullname@),
    {
        match &self.registered_fullname {
            Some(f) => str_eq(f.as_str(), fullname),
            None => false,
        }
    }

    /// The handshake this device sends: its id, the configured name, port,
    /// platform and version. Needs a configuration, then an id.
    pub fn own_handshake(&self) -> (res: Result<Handshake, SessionError>)
        ensures
            match (self.last_config, self.self_device_id) {
                (None, _) => res == Err::<Handshake, SessionError>(SessionError::NotStarted),
                (Some(_), None) => res == Err::<Handshake, SessionError>(SessionError::NoDeviceId),
                (Some(c), Some(id)) => res matches Ok(h) && h@ == (HandshakeView {
                    device_id: id@,
                    device_name: c.device_name@,
                    server_port: c.port,
                    platform: c.platform@,
                    version: c.version@,
                }),
            },
    {
        let c = match &self.last_config {
            Some(c) => c,
            None => {
                return Err(SessionError::NotStarted);
            },
        };
        let id = match &self.self_device_id {
            Some(id) => id,
            None => {
                return Err(SessionError::NoDeviceId);
            },
        };
        Ok(Handshake {
            device_id: id.clone(),
            device_name: c.device_name.clone(),
            server_port: c.port,
            platform: c.platform.clone(),
            version: c.version.clone(),
        })
    }

    /// What connecting to a discovered device needs: the device (refused if
    /// unknown) and this device's handshake.
    pub fn connect_plan(&self, device_id: &str) -> (res: Result<(DeviceInfo, Handshake), SessionError>)
        requires
            self.devices.wf(),
        ensures
            !self.devices.devices().contains_key(device_id@) ==> res == Err::<(DeviceInfo, Handshake), SessionError>(
                SessionError::DeviceNotFound,
            ),
            self.devices.devices().contains_key(device_id@) ==> match (self.last_config, self.self_device_id) {
                (None, _) => res == Err::<(DeviceInfo, Handshake), SessionError>(SessionError::NotStarted),
                (Some(_), None) => res == Err::<(DeviceInfo, Handshake), SessionError>(SessionError::NoDeviceId),
                (Some(c), Some(id)) => res matches Ok((d, h)) && d@ == self.devices.devices()[device_id@] && h@
                    == (HandshakeView {
                    device_id: id@,
                    device_name: c.device_name@,
                    server_port: c.port,
                    platform: c.platform@,
                    version: c.version@,
                }),
            },
    {
        let info = match self.devices.get_device(device_id) {
            Some(d) => d,
            None => {
                return Err(SessionError::DeviceNotFound);
            },
        };
        match self.own_handshake() {
            Ok(h) => Ok((info, h)),
            Err(e) => Err(e),
        }
    }

    /// The service to register for this configuration, or `None` when the
    /// port is 0 (browse only). `lan_ips` are this machine's usable LAN
    /// addresses, comma-separated; without any, registration is refused.
    pub fn registration(config: &DiscoveryConfig, device_id: &str, lan_ips: Option<&str>) -> (res: Result<
        Option<(mdns_sd::ServiceInfo, ServiceAnnouncement)>,
        SessionError,
    >)
        ensures
            config.port == 0 ==> res matches Ok(None),
            config.port != 0 && lan_ips is None ==> res matches Err(SessionError::NoLanInterface),
            config.port != 0 && lan_ips is Some ==> ((res matches Ok(Some(_))) <==> mdns_addresses_parse(lan_ips.unwrap()@)),
            config.port != 0 && lan_ips is Some ==> (res is Err ==> res matches Err(SessionError::BadService)),
            res matches Ok(Some((_, a))) ==> announces(
                a,
                device_id@,
                config.device_name@,
                lan_ips.unwrap()@,
                config.port,
                config.platform@,
                config.version@,
            ),
    {
        if config.port == 0 {
            return Ok(None);
        }
        let ips = match lan_ips {
            Some(ips) => ips,
            None => {
                return Err(SessionError::NoLanInterface);
            },
        };
        match build_service_info(
            device_id,
            config.device_name.as_str(),
            ips,
            config.port,
            config.platform.as_str(),
            config.version.as_str(),
        ) {
            Ok(info) => Ok(Some(info)),
            Err(_) => Err(SessionError::BadService),
        }
    }
}

/// The device record for a peer reached by address: no id, platform or
/// version; its address and port as given; the name it answered a ping
/// with, or `未知设备(<ip>)` when it did not.
pub fn manual_peer_info(peer_ip: &str, peer_port: u16, pinged_name: Option<String>, now: u64) -> (res: DeviceInfo)
    ensures
        res@.device_id == Seq::<char>::empty(),
        res@.ip == peer_ip@,
        res@.addresses == seq![peer_ip@],
        res@.port == peer_port,
        res@.platform == Seq::<char>::empty(),
        res@.version == Seq::<char>::empty(),
        !res@.https,
        res@.last_seen == now,
        match pinged_name {
            Some(n) => res@.device_name == n@,
            None => res@.device_name == "未知设备("@ + peer_ip@ + ")"@,
        },
{
    let name = match pinged_name {
        Some(n) => n,
        None => {
            let mut s = String::new();
            s.append("未知设备(");
            s.append(peer_ip);
            s.append(")");
            s
        },
    };
    let mut ip = String::new();
    ip.append(peer_ip);
    let mut ip2 = String::new();
    ip2.append(peer_ip);
    let mut addresses: Vec<String> = Vec::new();
    addresses.push(ip2);
    let res = DeviceInfo {
        device_id: String::new(),
        device_name: name,
        ip,
        addresses,
        port: peer_port,
        platform: String::new(),
        version: String::new(),
        https: false,
        last_seen: now,
    };
    assert(res@.addresses =~= seq![peer_ip@]);
    assert(res@.ip =~= peer_ip@);
    res
}

impl DeviceInfo {
    /// The same device, reached at another address.
    pub fn with_ip(&self, ip: &str) -> (res: DeviceInfo)
        ensures
            res@ == (DeviceView { ip: ip@, ..self@ }),
    {
        let mut d = self.copy();
        let mut s = String::new();
        s.append(ip);
        assert(s@ =~= ip@);
        d.ip = s;
        d
    }
}

/// What the heartbeat reports after checking one silent device.
#[derive(Debug)]
pub enum PingAction {
    /// The device answered and nothing to report changed.
    Alive,
    /// The device answered under a new name (`device-updated`).
    Renamed(DeviceInfo),
    /// The device did not answer and was forgotten (`device-offline`
    /// when it was still known).
    Offline { was_known: bool },
}

impl DiscoveryState {
    /// Handles a resolved service named `fullname` at `now` (Unix
    /// milliseconds): this device's own service is skipped, one that does not
    /// describe a usable device (see `resolved_device`) is reported as such,
    /// and otherwise the device is recorded and the outcome reported.
    pub fn on_service_resolved_at(
        &mut self,
        fullname: String,
        service: &ResolvedService,
        locals: &Vec<IpAddress>,
        now: u64,
    ) -> (res: BrowseAction)
        requires
            old(self).devices.wf(),
        ensures
            final(self).devices.wf(),
            final(self).daemon_running == old(self).daemon_running,
            opt_str(final(self).registered_fullname) == opt_str(old(self).registered_fullname),
            opt_str(final(self).self_device_id) == opt_str(old(self).self_device_id),
            opt_config(final(self).last_config) == opt_config(old(self).last_config),
            (old(self).registered_fullname matches Some(f) && f@ == fullname@) ==> {
                &&& res is OwnService
                &&& final(self).devices == old(self).devices
            },
            !(old(self).registered_fullname matches Some(f) && f@ == fullname@) ==> match resolved_device(
                service@,
                opt_str(old(self).self_device_id),
                locals@,
                now,
            ) {
                None => res is Unusable && final(self).devices == old(self).devices,
                Some(d) => {
                    &&& final(self).devices.devices() == upserted_devices(old(self).devices.devices(), d)
                    &&& final(self).devices.names() == old(self).devices.names().insert(fullname@, d.device_id)
                    &&& match upsert_outcome(old(self).devices.devices(), d) {
                        UpsertResult::Added => res matches BrowseAction::Online(x) && x@ == d,
                        UpsertResult::Updated => res matches BrowseAction::Updated(x) && x@ == d,
                        UpsertResult::NoChange => res is Refreshed,
                    }
                },
            },
    {
        if self.is_own_service(fullname.as_str()) {
            return BrowseAction::OwnService;
        }
        let own_id: Option<&str> = match &self.self_device_id {
            Some(id) => Some(id.as_str()),
            None => None,
        };
        let info = match parse_resolved_service_at(service, own_id, locals, now) {
            Some(d) => d,
            None => {
                return BrowseAction::Unusable;
            },
        };
        let reported = info.copy();
        match self.devices.upsert_device(fullname, info) {
            UpsertResult::Added => BrowseAction::Online(reported),
            UpsertResult::Updated => BrowseAction::Updated(reported),
            UpsertResult::NoChange => BrowseAction::Refreshed,
        }
    }

    /// Handles a withdrawn service: the device it named is forgotten, with
    /// every name that points to it. Returns the forgotten device's id
    /// (`device-offline`), if a known device was forgotten.
    pub fn on_service_removed(&mut self, fullname: &str) -> (res: Option<String>)
        requires
            old(self).devices.wf(),
        ensures
            final(self).devices.wf(),
            final(self).daemon_running == old(self).daemon_running,
            opt_str(final(self).registered_fullname) == opt_str(old(self).registered_fullname),
            opt_str(final(self).self_device_id) == opt_str(old(self).self_device_id),
            opt_config(final(self).last_config) == opt_config(old(self).last_config),
            !old(self).devices.names().contains_key(fullname@) ==> {
                &&& res is None
                &&& final(self).devices == old(self).devices
            },
            old(self).devices.names().contains_key(fullname@) ==> {
                let id = old(self).devices.names()[fullname@];
                &&& final(self).devices.devices() == old(self).devices.devices().remove(id)
                &&& final(self).devices.names() == names_without(old(self).devices.names(), id)
                &&& (old(self).devices.devices().contains_key(id) ==> (res matches Some(r) && r@ == id))
                &&& (!old(self).devices.devices().contains_key(id) ==> res is None)
            },
    {
        match self.devices.device_id_for_name(fullname) {
            Some(id) => {
                if self.devices.remove_device(id.as_str()) {
                    Some(id)
                } else {
                    None
                }
            },
            None => None,
        }
    }

    /// Handles the heartbeat's check of the silent device `device_id` at
    /// `now`: `answer` is `None` when the device could not be reached, and
    /// otherwise the name it gave (`None` from a peer too old to answer
    /// pings). A reachable device has its last-seen time refreshed and a new
    /// name recorded; an unreachable one is forgotten.
    pub fn on_ping_result(&mut self, device_id: &str, now: u64, answer: Option<Option<String>>) -> (res:
        PingAction)
        requires
            old(self).devices.wf(),
        ensures
            final(self).devices.wf(),
            final(self).daemon_running == old(self).daemon_running,
            opt_str(final(self).registered_fullname) == opt_str(old(self).registered_fullname),
            opt_str(final(self).self_device_id) == opt_str(old(self).self_device_id),
            opt_config(final(self).last_config) == opt_config(old(self).last_config),
            answer is None ==> {
                &&& res == (PingAction::Offline {
                    was_known: old(self).devices.devices().contains_key(device_id@),
                })
                &&& final(self).devices.devices() == old(self).devices.devices().remove(device_id@)
                &&& final(self).devices.names() == names_without(old(self).devices.names(), device_id@)
            },
            answer matches Some(name) ==> {
                &&& final(self).devices.names() == old(self).devices.names()
                &&& !old(self).devices.devices().contains_key(device_id@) ==> res is Alive
                    && final(self).devices.devices() == old(self).devices.devices()
                &&& old(self).devices.devices().contains_key(device_id@) ==> {
                    let d = old(self).devices.devices()[device_id@];
                    let renamed = name matches Some(n) && n@ != d.device_name;
                    let nd = DeviceView {
                        last_seen: now,
                        device_name: if renamed {
                            name.unwrap()@
                        } else {
                            d.device_name
                        },
                        ..d
                    };
                    &&& final(self).devices.devices() == old(self).devices.devices().insert(device_id@, nd)
                    &&& (renamed ==> (res matches PingAction::Renamed(r) && r@ == nd))
                    &&& (!renamed ==> res is Alive)
                }
            },
    {
        match answer {
            None => {
                let was_known = self.devices.remove_device(device_id);
                PingAction::Offline { was_known }
            },
            Some(name) => match self.devices.record_ping_success(device_id, now, name) {
                Some(d) => PingAction::Renamed(d),
                None => PingAction::Alive,
            },
        }
    }
}

} // verus!
