//! Cast devices found by mDNS discovery: choosing each device's address and
//! name from a resolved service, and keeping one entry per service.

use vstd::prelude::*;

verus! {

broadcast use vstd::string::group_string_axioms;

/// A Cast device on the local network.
pub struct Device {
    /// The mDNS full name of the device's service; it identifies the device.
    pub id: String,
    /// The name shown to the user.
    pub name: String,
    /// The address the device is reached at.
    pub ip: String,
    /// The port of the Cast service.
    pub port: u16,
}

/// One address of a resolved service, as text, and whether it is IPv4.
pub struct ServiceAddress {
    /// Whether the address is an IPv4 address.
    pub is_ipv4: bool,
    /// The address, as text.
    pub text: String,
}

/// The position of the address a device is reached at: the first IPv4 address,
/// or else the first address; `None` for a service without addresses.
pub open spec fn chosen_address(addrs: Seq<ServiceAddress>) -> Option<int> {
    if exists|i: int| 0 <= i < addrs.len() && #[trigger] addrs[i].is_ipv4 {
        Some(choose|i: int| 0 <= i < addrs.len() && #[trigger] addrs[i].is_ipv4 && forall|j: int| 0 <= j < i ==> !addrs[j].is_ipv4)
    } else if addrs.len() > 0 {
        Some(0)
    } else {
        None
    }
}

/// The address text a device is reached at (empty when the service has none).
pub open spec fn address_text(addrs: Seq<ServiceAddress>) -> Seq<char> {
    match chosen_address(addrs) {
        Some(i) => addrs[i].text@,
        None => Seq::empty(),
    }
}

/// The name shown for a device: its `fn` TXT property, or else its host name.
pub open spec fn display_name(friendly_name: Option<Seq<char>>, host: Seq<char>) -> Seq<char> {
    match friendly_name {
        Some(n) => n,
        None => host,
    }
}

/// The address a device is reached at (see `address_text`).
pub fn device_address(addrs: &[ServiceAddress]) -> (ip: String)
    ensures
        ip@ == address_text(addrs@),
{
    let mut i: usize = 0;
    while i < addrs.len()
        invariant
            i <= addrs@.len(),
            forall|j: int| 0 <= j < i ==> !addrs@[j].is_ipv4,
        decreases addrs@.len() - i,
    {
        if addrs[i].is_ipv4 {
            let ghost w = choose|k: int| 0 <= k < addrs@.len() && #[trigger] addrs@[k].is_ipv4 && forall|j: int| 0 <= j < k ==> !addrs@[j].is_ipv4;
            assert(addrs@[i as int].is_ipv4);
            assert(w == i) by {
                if w < i {
                    assert(!addrs@[w].is_ipv4);
                } else if w > i {
                    assert(!addrs@[i as int].is_ipv4);
                }
            }
            return addrs[i].text.clone();
        }
        i = i + 1;
    }
    if addrs.len() > 0 {
        addrs[0].text.clone()
    } else {
        String::new()
    }
}

/// The device that a resolved `_googlecast._tcp` service describes: its full
/// name identifies it, its `fn` property (or host name) names it, and it is
/// reached at the address `address_text` picks, on the service's port.
pub fn resolved_device(
    fullname: &str,
    host: &str,
    friendly_name: Option<&str>,
    addrs: &[ServiceAddress],
    port: u16,
) -> (d: Device)
    ensures
        d.id@ == fullname@,
        d.name@ == display_name(
            match friendly_name {
                Some(n) => Some(n@),
                None => None,
            },
            host@,
        ),
        d.ip@ == address_text(addrs@),
        d.port == port,
{
    let name = match friendly_name {
        Some(n) => String::from_str(n),
        None => String::from_str(host),
    };
    Device { id: String::from_str(fullname), name, ip: device_address(addrs), port }
}

/// No two devices of the list share an id.
pub open spec fn unique_ids(ds: Seq<Device>) -> bool {
    forall|i: int, j: int| 0 <= i < j < ds.len() ==> (#[trigger] ds[i]).id@ != (#[trigger] ds[j]).id@
}

/// Some device of the list has the id `id`.
pub open spec fn has_id(ds: Seq<Device>, id: Seq<char>) -> bool {
    exists|i: int| 0 <= i < ds.len() && (#[trigger] ds[i]).id@ == id
}

/// Records a discovered device, unless a device with the same id is already
/// listed (a service may be resolved more than once during a scan).
pub fn add_device(devices: &mut Vec<Device>, d: Device)
    ensures
        has_id(old(devices)@, d.id@) ==> final(devices)@ == old(devices)@,
        !has_id(old(devices)@, d.id@) ==> final(devices)@ == old(devices)@.push(d),
{
    let mut i: usize = 0;
    while i < devices.len()
        invariant
            i <= devices@.len(),
            devices@ == old(devices)@,
            forall|k: int| 0 <= k < i ==> (#[trigger] devices@[k]).id@ != d.id@,
        decreases devices@.len() - i,
    {
        if devices[i].id == d.id {
            assert(devices@[i as int].id@ == d.id@);
            return;
        }
        i = i + 1;
    }
    devices.push(d);
}

/// Recording devices never lists two devices with the same id.
pub proof fn lemma_add_device_keeps_ids_unique(before: Seq<Device>, after: Seq<Device>, d: Device)
    requires
        unique_ids(before),
        has_id(before, d.id@) ==> after == before,
        !has_id(before, d.id@) ==> after == before.push(d),
    ensures
        unique_ids(after),
        has_id(after, d.id@),
{
    if !has_id(before, d.id@) {
        assert forall|i: int, j: int| 0 <= i < j < after.len() implies (#[trigger] after[i]).id@ != (#[trigger] after[j]).id@ by {
            if j == before.len() {
                assert(after[j] == d);
                assert(after[i] == before[i]);
            } else {
                assert(after[i] == before[i]);
                assert(after[j] == before[j]);
            }
        }
        assert(after[before.len() as int] == d);
    }
}

/// How long a device scan listens for answers, in milliseconds.
pub const SCAN_WINDOW_MS: u64 = 3000;

/// What one wait for an mDNS event brought.
pub enum ScanEvent {
    /// A `_googlecast._tcp` service was resolved.
    Resolved,
    /// Some other mDNS event.
    Other,
    /// Receiving failed (the wait timed out or the daemon stopped).
    Failed,
}

/// How long the next wait may last, `elapsed_ms` into a scan: what is left of the
/// scan window; `None` once the window is over, which ends the scan.
pub fn scan_wait_ms(elapsed_ms: u64) -> (wait: Option<u64>)
    ensures
        wait == if elapsed_ms >= SCAN_WINDOW_MS {
            None::<u64>
        } else {
            Some((SCAN_WINDOW_MS - elapsed_ms) as u64)
        },
{
    if elapsed_ms >= SCAN_WINDOW_MS {
        None
    } else {
        Some(SCAN_WINDOW_MS - elapsed_ms)
    }
}

/// Whether the scan goes on after an event: a receive failure ends it, any
/// event received keeps it going.
pub fn scan_goes_on(event: &ScanEvent) -> (b: bool)
    ensures
        b == !(event is Failed),
{
    match event {
        ScanEvent::Failed => false,
        _ => true,
    }
}

} // verus!
