//! Bluetooth controller and its devices.

use vstd::prelude::*;

use crate::bytes;
use crate::bytes::ProgramOutput;
use crate::markup;
use crate::markup::PolybarActionType;
use crate::polybar_module::RenderablePolybarModule;
use crate::text;
use crate::theme;
use crate::theme::{Color, Palette};
use crate::views;

verus! {

broadcast use {crate::text::texts_push, crate::views::views_push};

// Addresses

/// Address of a controller or a device.
#[derive(Clone, Copy, Debug, PartialEq, Eq)]
pub struct MacAddr {
    pub bytes: [u8; 6],
}

/// The character of a hexadecimal digit, in upper case.
pub open spec fn upper_hex(n: int) -> char {
    if n < 10 {
        (48 + n) as char
    } else {
        (55 + n) as char
    }
}

/// An address as text: two digits for each byte, with colons in between.
pub open spec fn addr_text(b: Seq<u8>) -> Seq<char> {
    Seq::new(
        17,
        |i: int|
            if i % 3 == 2 {
                ':'
            } else if i % 3 == 0 {
                upper_hex(b[i / 3] as int / 16)
            } else {
                upper_hex(b[i / 3] as int % 16)
            },
    )
}

/// Whether a text has the form of an address.
pub open spec fn is_addr(s: Seq<char>) -> bool {
    &&& s.len() == 17
    &&& forall|i: int|
        0 <= i < 17 ==> if i % 3 == 2 {
            #[trigger] s[i] == ':'
        } else {
            'A' <= s[i] <= 'F' || '0' <= s[i] <= '9'
        }
}

/// `macaddr::MacAddr6::from_str`: a text of the form of an address is read as the address with that
/// text.
#[verifier::external_body]
fn addr_from_str(s: &str) -> (r: Option<[u8; 6]>)
    requires
        is_addr(s@),
    ensures
        match r {
            Some(b) => addr_text(b@) == s@,
            None => false,
        },
{
    s.parse::<macaddr::MacAddr6>().ok().map(|a| a.into_array())
}

/// `Display` of `macaddr::MacAddr6`: two digits in upper case for each byte, with colons in between.
#[verifier::external_body]
fn addr_to_string(b: [u8; 6]) -> (r: String)
    ensures
        r@ == addr_text(b@),
{
    macaddr::MacAddr6::from(b).to_string()
}

/// Different addresses have different texts.
pub proof fn addr_text_is_unique(a: Seq<u8>, b: Seq<u8>)
    requires
        a.len() == 6,
        b.len() == 6,
        addr_text(a) == addr_text(b),
    ensures
        a == b,
{
    assert forall|k: int| 0 <= k < 6 implies a[k] == b[k] by {
        let s = addr_text(a);
        let t = addr_text(b);
        assert(s[3 * k] == t[3 * k]);
        assert(s[3 * k + 1] == t[3 * k + 1]);
        assert((3 * k) % 3 == 0 && (3 * k) / 3 == k);
        assert((3 * k + 1) % 3 == 1 && (3 * k + 1) / 3 == k);
    }
    assert(a =~= b);
}

/// The text of an address has the form of one.
pub proof fn addr_text_is_addr(b: Seq<u8>)
    requires
        b.len() == 6,
    ensures
        is_addr(addr_text(b)),
{
    let s = addr_text(b);
    assert forall|i: int| 0 <= i < 17 implies if i % 3 == 2 {
        #[trigger] s[i] == ':'
    } else {
        'A' <= s[i] <= 'F' || '0' <= s[i] <= '9'
    } by {
        assert(0 <= i / 3 < 6);
    }
}

impl MacAddr {
    pub open spec fn text(self) -> Seq<char> {
        addr_text(self.bytes@)
    }

    /// Reads an address; none where the text does not have the form of one.
    pub fn parse(s: &str) -> (r: Option<MacAddr>)
        ensures
            match r {
                Some(a) => is_addr(s@) && a.text() == s@,
                None => !is_addr(s@),
            },
    {
        let v = text::chars_of(s);
        if looks_like_addr(&v, 0) && v.len() == 17 {
            assert(v@.subrange(0, 17) =~= s@);
            match addr_from_str(s) {
                Some(bytes) => Some(MacAddr { bytes }),
                None => None,
            }
        } else {
            if v.len() == 17 {
                assert(v@.subrange(0, 17) =~= s@);
            }
            None
        }
    }

    /// Whether two addresses are the same.
    pub fn same(self, other: MacAddr) -> (r: bool)
        ensures
            r == (self.text() == other.text()),
    {
        let mut i: usize = 0;
        while i < 6
            invariant
                i <= 6,
                forall|j: int| 0 <= j < i ==> self.bytes@[j] == other.bytes@[j],
            decreases 6 - i,
        {
            if self.bytes[i] != other.bytes[i] {
                proof {
                    if self.text() == other.text() {
                        addr_text_is_unique(self.bytes@, other.bytes@);
                    }
                }
                return false;
            }
            i += 1;
        }
        assert(self.bytes@ =~= other.bytes@);
        true
    }
}

#[verifier::loop_isolation(false)]
fn looks_like_addr(v: &Vec<char>, at: usize) -> (r: bool)
    ensures
        r == (at + 17 <= v@.len() && is_addr(v@.subrange(at as int, at + 17))),
{
    if v.len() < 17 || at > v.len() - 17 {
        return false;
    }
    let ghost s = v@.subrange(at as int, at + 17);
    let mut i: usize = 0;
    while i < 17
        invariant
            i <= 17,
            forall|j: int|
                0 <= j < i ==> if j % 3 == 2 {
                    #[trigger] s[j] == ':'
                } else {
                    'A' <= s[j] <= 'F' || '0' <= s[j] <= '9'
                },
        decreases 17 - i,
    {
        let c = v[at + i];
        assert(s[i as int] == c);
        let ok = if i % 3 == 2 {
            c == ':'
        } else {
            ('A' <= c && c <= 'F') || ('0' <= c && c <= '9')
        };
        if !ok {
            return false;
        }
        i += 1;
    }
    true
}

// Lines of bluetoothctl

/// Address of a line that starts with `head`, an address and a space.
pub open spec fn addr_after(line: Seq<char>, head: Seq<char>) -> Option<Seq<char>> {
    let n = head.len() as int;
    if text::occurs_at(line, head, 0) && line.len() > n + 17 && is_addr(line.subrange(n, n + 17))
        && line[n + 17] == ' ' {
        Some(line.subrange(n, n + 17))
    } else {
        None
    }
}

/// Address of a line that ends with `head`, an address and `tail`.
pub open spec fn addr_before(line: Seq<char>, head: Seq<char>, tail: Seq<char>) -> Option<
    Seq<char>,
> {
    let p = line.len() - tail.len() - 17;
    if p >= head.len() && text::occurs_at(line, tail, p + 17) && is_addr(line.subrange(p, p + 17))
        && text::occurs_at(line, head, p - head.len()) {
        Some(line.subrange(p, p + 17))
    } else {
        None
    }
}

/// What a line of `bluetoothctl` tells.
#[derive(Clone, Copy, Debug)]
pub enum BluetoothEvent {
    /// A controller was switched on or off.
    Powered(MacAddr, bool),
    /// A device was connected or disconnected.
    Connected(MacAddr, bool),
    /// Nothing of interest.
    Other,
}

/// What a line of `bluetoothctl` tells, with the address as text: whether it is a controller, its
/// address, and the status.
pub open spec fn event_in(line: Seq<char>) -> Option<(bool, Seq<char>, bool)> {
    let power_yes = addr_before(line, "[CHG] Controller "@, " Powered: yes"@);
    let power_no = addr_before(line, "[CHG] Controller "@, " Powered: no"@);
    let connect_yes = addr_before(line, "[CHG] Device "@, " Connected: yes"@);
    let connect_no = addr_before(line, "[CHG] Device "@, " Connected: no"@);
    if power_yes is Some {
        Some((true, power_yes->0, true))
    } else if power_no is Some {
        Some((true, power_no->0, false))
    } else if connect_yes is Some {
        Some((false, connect_yes->0, true))
    } else if connect_no is Some {
        Some((false, connect_no->0, false))
    } else {
        None
    }
}

pub open spec fn event_view(e: BluetoothEvent) -> Option<(bool, Seq<char>, bool)> {
    match e {
        BluetoothEvent::Powered(a, on) => Some((true, a.text(), on)),
        BluetoothEvent::Connected(a, on) => Some((false, a.text(), on)),
        BluetoothEvent::Other => None,
    }
}

fn find_before(line: &Vec<char>, head: &str, tail: &str) -> (r: Option<MacAddr>)
    ensures
        match r {
            Some(a) => addr_before(line@, head@, tail@) == Some(a.text()),
            None => addr_before(line@, head@, tail@) is None,
        },
{
    let h = text::chars_of(head);
    let t = text::chars_of(tail);
    if line.len() < 17 || line.len() - 17 < t.len() {
        return None;
    }
    let p: usize = line.len() - 17 - t.len();
    if p >= h.len() && text::matches_at(line, &t, p + 17) && looks_like_addr(line, p)
        && text::matches_at(line, &h, p - h.len()) {
        let s = text::slice_text(line, p, p + 17);
        MacAddr::parse(s.as_str())
    } else {
        None
    }
}

fn find_after(line: &Vec<char>, head: &str) -> (r: Option<MacAddr>)
    ensures
        match r {
            Some(a) => addr_after(line@, head@) == Some(a.text()),
            None => addr_after(line@, head@) is None,
        },
{
    let h = text::chars_of(head);
    let n: usize = h.len();
    if !text::matches_at(line, &h, 0) || line.len() - n <= 17 {
        return None;
    }
    if looks_like_addr(line, n) && line[n + 17] == ' ' {
        let s = text::slice_text(line, n, n + 17);
        MacAddr::parse(s.as_str())
    } else {
        None
    }
}

/// Reads a line of `bluetoothctl`.
pub fn parse_event(line: &str) -> (r: BluetoothEvent)
    ensures
        event_view(r) == event_in(line@),
{
    let v = text::chars_of(line);
    if let Some(a) = find_before(&v, "[CHG] Controller ", " Powered: yes") {
        return BluetoothEvent::Powered(a, true);
    }
    if let Some(a) = find_before(&v, "[CHG] Controller ", " Powered: no") {
        return BluetoothEvent::Powered(a, false);
    }
    if let Some(a) = find_before(&v, "[CHG] Device ", " Connected: yes") {
        return BluetoothEvent::Connected(a, true);
    }
    if let Some(a) = find_before(&v, "[CHG] Device ", " Connected: no") {
        return BluetoothEvent::Connected(a, false);
    }
    BluetoothEvent::Other
}

/// Answer of the first line that is `key` followed by yes or no.
pub open spec fn first_answer(lines: Seq<Seq<char>>, key: Seq<char>) -> Option<bool>
    decreases lines.len(),
{
    if lines.len() == 0 {
        None
    } else if lines[0] == key + "yes"@ {
        Some(true)
    } else if lines[0] == key + "no"@ {
        Some(false)
    } else {
        first_answer(lines.skip(1), key)
    }
}

/// Address of the first line that starts with `head`, an address and a space.
pub open spec fn first_addr(lines: Seq<Seq<char>>, head: Seq<char>) -> Option<Seq<char>>
    decreases lines.len(),
{
    if lines.len() == 0 {
        None
    } else {
        match addr_after(lines[0], head) {
            Some(a) => Some(a),
            None => first_addr(lines.skip(1), head),
        }
    }
}

fn find_answer(lines: &Vec<String>, key: &str) -> (r: Option<bool>)
    ensures
        r == first_answer(text::texts(lines@), key@),
{
    let mut yes = key.to_owned();
    yes.append("yes");
    let mut no = key.to_owned();
    no.append("no");
    let ghost all = text::texts(lines@);
    let mut i: usize = 0;
    assert(all.skip(0) =~= all);
    while i < lines.len()
        invariant
            i <= lines.len(),
            all == text::texts(lines@),
            yes@ == key@ + "yes"@,
            no@ == key@ + "no"@,
            first_answer(all, key@) == first_answer(all.skip(i as int), key@),
        decreases lines.len() - i,
    {
        assert(all.skip(i as int)[0] == lines[i as int]@);
        assert(all.skip(i as int).skip(1) =~= all.skip(i + 1));
        if text::same(lines[i].as_str(), yes.as_str()) {
            return Some(true);
        }
        if text::same(lines[i].as_str(), no.as_str()) {
            return Some(false);
        }
        i += 1;
    }
    None
}

fn find_addr(lines: &Vec<String>, head: &str) -> (r: Option<MacAddr>)
    ensures
        match r {
            Some(a) => first_addr(text::texts(lines@), head@) == Some(a.text()),
            None => first_addr(text::texts(lines@), head@) is None,
        },
{
    let ghost all = text::texts(lines@);
    let mut i: usize = 0;
    assert(all.skip(0) =~= all);
    while i < lines.len()
        invariant
            i <= lines.len(),
            all == text::texts(lines@),
            first_addr(all, head@) == first_addr(all.skip(i as int), head@),
        decreases lines.len() - i,
    {
        assert(all.skip(i as int)[0] == lines[i as int]@);
        assert(all.skip(i as int).skip(1) =~= all.skip(i + 1));
        let v = text::chars_of(lines[i].as_str());
        if let Some(a) = find_after(&v, head) {
            return Some(a);
        }
        i += 1;
    }
    None
}

// Probing

#[derive(Clone, Copy, Debug, PartialEq, Eq, Structural)]
pub enum BluetoothError {
    /// `bluetoothctl` exited with an error.
    ExitStatus,
    /// It is not known whether the controller is on.
    ControllerPowered,
    /// The address of the controller is not known.
    ControllerAddress,
    /// It is not known whether a device is connected.
    DeviceConnected,
}

#[derive(Clone, Copy, Debug)]
pub struct BluetoothController {
    pub powered: bool,
    pub addr: MacAddr,
}

#[derive(Debug, PartialEq, Eq)]
pub struct BluetoothDevice {
    pub connected: bool,
    pub name: String,
    pub addr: MacAddr,
}

impl View for BluetoothDevice {
    type V = (bool, Seq<char>, Seq<char>);

    /// Whether it is connected, its name, and the text of its address.
    open spec fn view(&self) -> (bool, Seq<char>, Seq<char>) {
        (self.connected, self.name@, self.addr.text())
    }
}

/// A device that the controller knows.
pub struct KnownDevice {
    pub addr: MacAddr,
    pub name: String,
}

impl View for KnownDevice {
    type V = (Seq<char>, Seq<char>);

    /// The text of its address, and its name.
    open spec fn view(&self) -> (Seq<char>, Seq<char>) {
        (self.addr.text(), self.name@)
    }
}

/// What `bluetoothctl` wrote, where it ended well.
pub fn bluetoothctl_output(out: &ProgramOutput) -> (r: Result<String, BluetoothError>)
    ensures
        match r {
            Ok(s) => out.success && s@ == bytes::lossy_text(out.stdout@),
            Err(e) => !out.success && e == BluetoothError::ExitStatus,
        },
{
    if out.success {
        Ok(bytes::from_utf8_lossy(out.stdout.as_slice()))
    } else {
        Err(BluetoothError::ExitStatus)
    }
}

/// Reads the output of `bluetoothctl show`.
pub fn probe_controller(show_output: &str) -> (r: Result<BluetoothController, BluetoothError>)
    ensures
        ({
            let lines = text::line_seq(show_output@);
            let powered = first_answer(lines, "\tPowered: "@);
            let addr = first_addr(lines, "Controller "@);
            match r {
                Ok(c) => powered == Some(c.powered) && addr == Some(c.addr.text()),
                Err(e) => {
                    ||| powered is None && e == BluetoothError::ControllerPowered
                    ||| powered is Some && addr is None && e == BluetoothError::ControllerAddress
                },
            }
        }),
{
    let lines = text::lines(show_output);
    let powered = match find_answer(&lines, "\tPowered: ") {
        Some(p) => p,
        None => {
            return Err(BluetoothError::ControllerPowered);
        },
    };
    match find_addr(&lines, "Controller ") {
        Some(addr) => Ok(BluetoothController { powered, addr }),
        None => Err(BluetoothError::ControllerAddress),
    }
}

/// Device that a line of `bluetoothctl devices` tells of.
pub open spec fn known_device(line: Seq<char>) -> Option<(Seq<char>, Seq<char>)> {
    match addr_after(line, "Device "@) {
        Some(a) => Some((a, line.skip(25))),
        None => None,
    }
}

/// Whether an address is let through: any is by an empty list.
pub open spec fn whitelisted(addr: Seq<char>, whitelist: Seq<MacAddr>) -> bool {
    whitelist.len() == 0 || exists|i: int|
        0 <= i < whitelist.len() && (#[trigger] whitelist[i]).text() == addr
}

/// Devices of interest that the lines tell of, in order.
pub open spec fn known_devices(lines: Seq<Seq<char>>, whitelist: Seq<MacAddr>) -> Seq<
    (Seq<char>, Seq<char>),
>
    decreases lines.len(),
{
    if lines.len() == 0 {
        Seq::empty()
    } else {
        let before = known_devices(lines.drop_last(), whitelist);
        match known_device(lines.last()) {
            Some(d) => if whitelisted(d.0, whitelist) {
                before.push(d)
            } else {
                before
            },
            None => before,
        }
    }
}

fn is_whitelisted(addr: MacAddr, whitelist: &Vec<MacAddr>) -> (r: bool)
    ensures
        r == whitelisted(addr.text(), whitelist@),
{
    if whitelist.len() == 0 {
        return true;
    }
    let mut i: usize = 0;
    while i < whitelist.len()
        invariant
            i <= whitelist.len(),
            whitelist@.len() > 0,
            forall|j: int| 0 <= j < i ==> (#[trigger] whitelist@[j]).text() != addr.text(),
        decreases whitelist.len() - i,
    {
        if whitelist[i].same(addr) {
            assert(whitelist@[i as int].text() == addr.text());
            return true;
        }
        i += 1;
    }
    false
}

/// Reads the output of `bluetoothctl devices`: the devices of interest, of which it is still to be
/// found out whether they are connected.
pub fn probe_devices(devices_output: &str, whitelist: &Vec<MacAddr>) -> (r: Vec<KnownDevice>)
    ensures
        views::views(r@) == known_devices(text::line_seq(devices_output@), whitelist@),
{
    let lines = text::lines(devices_output);
    let ghost all = text::line_seq(devices_output@);
    let mut r: Vec<KnownDevice> = Vec::new();
    let mut i: usize = 0;
    assert(views::views(r@) =~= known_devices(all.take(0), whitelist@));
    while i < lines.len()
        invariant
            i <= lines.len(),
            all == text::texts(lines@),
            views::views(r@) == known_devices(all.take(i as int), whitelist@),
        decreases lines.len() - i,
    {
        assert(all.take(i + 1).drop_last() =~= all.take(i as int));
        assert(all.take(i + 1).last() == lines[i as int]@);
        let v = text::chars_of(lines[i].as_str());
        if let Some(addr) = find_after(&v, "Device ") {
            proof {
                reveal_strlit("Device ");
            }
            let n: usize = v.len();
            let name = text::slice_text(&v, 25, n);
            assert(name@ =~= lines[i as int]@.skip(25));
            if is_whitelisted(addr, whitelist) {
                r.push(KnownDevice { addr, name });
            }
        }
        i += 1;
    }
    assert(all.take(i as int) =~= all);
    r
}

/// Reads the output of `bluetoothctl info`: whether the device is connected.
pub fn probe_connected(info_output: &str) -> (r: Result<bool, BluetoothError>)
    ensures
        match r {
            Ok(c) => first_answer(text::line_seq(info_output@), "\tConnected: "@) == Some(c),
            Err(e) => {
                &&& first_answer(text::line_seq(info_output@), "\tConnected: "@) is None
                &&& e == BluetoothError::DeviceConnected
            },
        },
{
    let lines = text::lines(info_output);
    match find_answer(&lines, "\tConnected: ") {
        Some(c) => Ok(c),
        None => Err(BluetoothError::DeviceConnected),
    }
}

/// Arguments for `bluetoothctl` to tell about a device.
pub fn info_args(addr: MacAddr) -> (r: Vec<String>)
    ensures
        text::texts(r@) == seq!["info"@, addr.text()],
{
    let mut r: Vec<String> = Vec::new();
    r.push("info".to_owned());
    r.push(addr_to_string(addr.bytes));
    assert(text::texts(r@) =~= seq!["info"@, addr.text()]);
    r
}

// Escape sequences

/// Bytes without the terminal escape sequences: what `strip_ansi_escapes::strip` returns.
pub uninterp spec fn without_escapes(bytes: Seq<u8>) -> Seq<u8>;

/// `strip_ansi_escapes::strip`: the bytes without the terminal escape sequences. What counts as one
/// is not stated.
#[verifier::external_body]
fn strip_escapes(read: &[u8]) -> (r: Vec<u8>)
    ensures
        r@ == without_escapes(read@),
{
    strip_ansi_escapes::strip(read)
}

// The module

/// The controller and its devices, of which no two have the same address.
pub struct BluetoothModule {
    pub controller: BluetoothController,
    pub devices: Vec<BluetoothDevice>,
}

#[derive(Debug, PartialEq, Eq)]
pub struct BluetoothModuleState {
    pub controller_powered: bool,
    pub devices: Vec<BluetoothDevice>,
}

/// Whether the controller is on, and the devices.
pub struct BluetoothModel {
    pub powered: bool,
    pub devices: Seq<(bool, Seq<char>, Seq<char>)>,
}

pub open spec fn disconnected(devices: Seq<(bool, Seq<char>, Seq<char>)>) -> Seq<
    (bool, Seq<char>, Seq<char>),
> {
    Seq::new(devices.len(), |i: int| (false, devices[i].1, devices[i].2))
}

/// The devices, with the status of those at the address changed.
pub open spec fn with_status(
    devices: Seq<(bool, Seq<char>, Seq<char>)>,
    addr: Seq<char>,
    status: bool,
) -> Seq<(bool, Seq<char>, Seq<char>)> {
    Seq::new(
        devices.len(),
        |i: int|
            if devices[i].2 == addr {
                (status, devices[i].1, devices[i].2)
            } else {
                devices[i]
            },
    )
}

pub open spec fn has_addr(devices: Seq<(bool, Seq<char>, Seq<char>)>, addr: Seq<char>) -> bool {
    exists|i: int| 0 <= i < devices.len() && (#[trigger] devices[i]).2 == addr
}

/// What an event changes, and whether it concerns the controller or one of the devices.
pub open spec fn after_event(
    m: BluetoothModel,
    controller: Seq<char>,
    event: Option<(bool, Seq<char>, bool)>,
) -> (BluetoothModel, bool) {
    match event {
        Some((true, addr, on)) => if addr == controller {
            (
                BluetoothModel {
                    powered: on,
                    devices: if on {
                        m.devices
                    } else {
                        disconnected(m.devices)
                    },
                },
                true,
            )
        } else {
            (m, false)
        },
        Some((false, addr, on)) => if has_addr(m.devices, addr) {
            (
                BluetoothModel { powered: m.powered, devices: with_status(m.devices, addr, on) },
                true,
            )
        } else {
            (m, false)
        },
        None => (m, false),
    }
}

/// What some lines change, one after the other, and whether any concerns the controller or one of
/// the devices.
pub open spec fn after_lines(m: BluetoothModel, controller: Seq<char>, lines: Seq<Seq<char>>) -> (
    BluetoothModel,
    bool,
)
    decreases lines.len(),
{
    if lines.len() == 0 {
        (m, false)
    } else {
        let (before, changed) = after_lines(m, controller, lines.drop_last());
        let (after, changes) = after_event(before, controller, event_in(lines.last()));
        (after, changed || changes)
    }
}

pub open spec fn distinct_addrs(devices: Seq<(bool, Seq<char>, Seq<char>)>) -> bool {
    forall|i: int, j: int|
        0 <= i < j < devices.len() ==> (#[trigger] devices[i]).2 != (#[trigger] devices[j]).2
}

impl BluetoothModule {
    pub open spec fn model(&self) -> BluetoothModel {
        BluetoothModel {
            powered: self.controller.powered,
            devices: views::views(self.devices@),
        }
    }

    pub open spec fn wf(&self) -> bool {
        distinct_addrs(self.model().devices)
    }

    pub fn new(controller: BluetoothController) -> (r: Self)
        ensures
            r.wf(),
            r.controller == controller,
            r.devices@ == Seq::<BluetoothDevice>::empty(),
    {
        BluetoothModule { controller, devices: Vec::new() }
    }

    /// Adds a device, in the place of one with the same address where there is one.
    #[verifier::loop_isolation(false)]
    pub fn add_device(&mut self, known: KnownDevice, connected: bool)
        requires
            old(self).wf(),
        ensures
            final(self).wf(),
            final(self).controller == old(self).controller,
            ({
                let before = old(self).model().devices;
                let after = final(self).model().devices;
                let added = (connected, known.name@, known.addr.text());
                if has_addr(before, known.addr.text()) {
                    &&& after.len() == before.len()
                    &&& forall|i: int|
                        0 <= i < before.len() ==> #[trigger] after[i] == if before[i].2
                            == known.addr.text() {
                            added
                        } else {
                            before[i]
                        }
                } else {
                    after == before.push(added)
                }
            }),
    {
        let ghost before = self.model().devices;
        let ghost start = *self;
        let mut i: usize = 0;
        while i < self.devices.len()
            invariant
                i <= self.devices.len(),
                *self == start,
                start.wf(),
                before == start.model().devices,
                forall|j: int| 0 <= j < i ==> (#[trigger] before[j]).2 != known.addr.text(),
            decreases self.devices.len() - i,
        {
            if self.devices[i].addr.same(known.addr) {
                let device = BluetoothDevice { connected, name: known.name, addr: known.addr };
                self.devices.set(i, device);
                proof {
                    let after = self.model().devices;
                    assert(before[i as int].2 == known.addr.text());
                    assert(after =~= before.update(
                        i as int,
                        (connected, known.name@, known.addr.text()),
                    )) by {
                        assert forall|j: int| 0 <= j < after.len() implies #[trigger] after[j]
                            == before.update(
                            i as int,
                            (connected, known.name@, known.addr.text()),
                        )[j] by {
                            assert(start.devices@[j]@ == before[j]);
                        }
                    }
                }
                return ;
            }
            i += 1;
        }
        self.devices.push(BluetoothDevice { connected, name: known.name, addr: known.addr });
        assert(self.model().devices =~= before.push((connected, known.name@, known.addr.text())));
    }

    /// Takes an event: true where it concerns the controller or one of the devices.
    pub fn apply(&mut self, event: BluetoothEvent) -> (r: bool)
        requires
            old(self).wf(),
        ensures
            final(self).wf(),
            final(self).controller.addr == old(self).controller.addr,
            (final(self).model(), r) == after_event(
                old(self).model(),
                old(self).controller.addr.text(),
                event_view(event),
            ),
    {
        match event {
            BluetoothEvent::Powered(addr, on) => if addr.same(self.controller.addr) {
                self.controller.powered = on;
                if !on {
                    self.disconnect_all();
                }
                true
            } else {
                false
            },
            BluetoothEvent::Connected(addr, on) => self.set_connected(addr, on),
            BluetoothEvent::Other => false,
        }
    }

    fn disconnect_all(&mut self)
        requires
            old(self).wf(),
        ensures
            final(self).wf(),
            final(self).controller == old(self).controller,
            final(self).model().devices == disconnected(old(self).model().devices),
    {
        let ghost before = self.model().devices;
        let ghost start = *self;
        let ghost target = disconnected(before);
        let mut i: usize = 0;
        while i < self.devices.len()
            invariant
                i <= self.devices.len(),
                start.wf(),
                self.controller == start.controller,
                before == start.model().devices,
                target == disconnected(before),
                self.devices@.len() == before.len(),
                forall|j: int|
                    0 <= j < before.len() ==> (#[trigger] self.devices@[j])@ == if j < i {
                        target[j]
                    } else {
                        before[j]
                    },
            decreases self.devices.len() - i,
        {
            let device = BluetoothDevice {
                connected: false,
                name: self.devices[i].name.clone(),
                addr: self.devices[i].addr,
            };
            assert(self.devices@[i as int]@ == before[i as int]);
            self.devices.set(i, device);
            i += 1;
        }
        assert(self.model().devices =~= target);
    }

    #[verifier::loop_isolation(false)]
    fn set_connected(&mut self, addr: MacAddr, on: bool) -> (r: bool)
        requires
            old(self).wf(),
        ensures
            final(self).wf(),
            final(self).controller == old(self).controller,
            r == has_addr(old(self).model().devices, addr.text()),
            r ==> final(self).model().devices == with_status(
                old(self).model().devices,
                addr.text(),
                on,
            ),
            !r ==> *final(self) == *old(self),
    {
        let ghost before = self.model().devices;
        let ghost start = *self;
        let mut i: usize = 0;
        while i < self.devices.len()
            invariant
                i <= self.devices.len(),
                *self == start,
                start.wf(),
                before == start.model().devices,
                forall|j: int| 0 <= j < i ==> (#[trigger] before[j]).2 != addr.text(),
            decreases self.devices.len() - i,
        {
            if self.devices[i].addr.same(addr) {
                let device = BluetoothDevice {
                    connected: on,
                    name: self.devices[i].name.clone(),
                    addr: self.devices[i].addr,
                };
                assert(before[i as int].2 == addr.text());
                self.devices.set(i, device);
                proof {
                    let after = self.model().devices;
                    let target = with_status(before, addr.text(), on);
                    assert forall|j: int| 0 <= j < after.len() implies #[trigger] after[j]
                        == target[j] by {
                        assert(start.devices@[j]@ == before[j]);
                    }
                    assert(after =~= target);
                }
                return true;
            }
            i += 1;
        }
        false
    }

    /// Takes a text that `bluetoothctl` wrote: true where something is to be rendered.
    pub fn on_text(&mut self, s: &str) -> (r: bool)
        requires
            old(self).wf(),
        ensures
            final(self).wf(),
            final(self).controller.addr == old(self).controller.addr,
            (final(self).model(), r) == after_lines(
                old(self).model(),
                old(self).controller.addr.text(),
                text::line_seq(s@),
            ),
    {
        let lines = text::lines(s);
        let ghost all = text::line_seq(s@);
        let ghost start = self.model();
        let ghost ctrl = self.controller.addr;
        let mut r = false;
        let mut i: usize = 0;
        while i < lines.len()
            invariant
                i <= lines.len(),
                all == text::texts(lines@),
                self.wf(),
                self.controller.addr == ctrl,
                (self.model(), r) == after_lines(start, ctrl.text(), all.take(i as int)),
            decreases lines.len() - i,
        {
            assert(all.take(i + 1).drop_last() =~= all.take(i as int));
            assert(all.take(i + 1).last() == lines[i as int]@);
            let event = parse_event(lines[i].as_str());
            if self.apply(event) {
                r = true;
            }
            i += 1;
        }
        assert(all.take(i as int) =~= all);
        r
    }

    /// Takes bytes that `bluetoothctl` wrote: true where something is to be rendered.
    pub fn on_output(&mut self, read: &[u8]) -> (r: bool)
        requires
            old(self).wf(),
        ensures
            final(self).wf(),
            final(self).controller.addr == old(self).controller.addr,
            (final(self).model(), r) == after_lines(
                old(self).model(),
                old(self).controller.addr.text(),
                text::line_seq(bytes::lossy_text(without_escapes(read@))),
            ),
    {
        let plain = strip_escapes(read);
        let s = bytes::from_utf8_lossy(plain.as_slice());
        self.on_text(s.as_str())
    }
}

/// A controller that is switched off leaves no device connected.
pub proof fn power_off_disconnects(m: BluetoothModel, controller: Seq<char>, i: int)
    requires
        0 <= i < m.devices.len(),
    ensures
        !after_event(m, controller, Some((true, controller, false))).0.devices[i].0,
{
}

/// Events neither add nor remove a device, nor change its name or its address.
pub proof fn events_keep_devices(m: BluetoothModel, controller: Seq<char>, lines: Seq<Seq<char>>)
    ensures
        after_lines(m, controller, lines).0.devices.len() == m.devices.len(),
        forall|i: int|
            0 <= i < m.devices.len() ==> {
                &&& (#[trigger] after_lines(m, controller, lines).0.devices[i]).1
                    == m.devices[i].1
                &&& after_lines(m, controller, lines).0.devices[i].2 == m.devices[i].2
            },
    decreases lines.len(),
{
    if lines.len() > 0 {
        events_keep_devices(m, controller, lines.drop_last());
        let before = after_lines(m, controller, lines.drop_last()).0.devices;
        let after = after_lines(m, controller, lines).0.devices;
        assert forall|i: int| 0 <= i < m.devices.len() implies (#[trigger] after[i]).1
            == m.devices[i].1 && after[i].2 == m.devices[i].2 by {
            assert(before[i].1 == m.devices[i].1);
        }
    }
}

// State and rendering

/// The devices in the order of their names; those with the same name keep their order.
pub open spec fn by_name(devices: Seq<(bool, Seq<char>, Seq<char>)>) -> Seq<
    (bool, Seq<char>, Seq<char>),
> {
    text::sorted_by(devices, |d: (bool, Seq<char>, Seq<char>)| d.1)
}

fn insert_by_name(v: &mut Vec<BluetoothDevice>, x: BluetoothDevice)
    ensures
        views::views(final(v)@) == text::inserted_by(
            views::views(old(v)@),
            x@,
            |d: (bool, Seq<char>, Seq<char>)| d.1,
        ),
{
    let ghost key = |d: (bool, Seq<char>, Seq<char>)| d.1;
    let ghost all = views::views(v@);
    let ghost orig = v@;
    let mut k: usize = v.len();
    while k > 0 && !text::not_after(v[k - 1].name.as_str(), x.name.as_str())
        invariant
            k <= v.len(),
            v@ == orig,
            all == views::views(orig),
            forall|i: int| k <= i < all.len() ==> !text::lex_le((#[trigger] all[i]).1, x@.1),
        decreases k,
    {
        assert(all[k - 1] == v[k - 1]@);
        k -= 1;
    }
    if k > 0 {
        assert(all[k - 1] == v[k - 1]@);
    }
    proof {
        text::inserted_at(all, x@, key, k as int);
    }
    v.insert(k, x);
    assert(views::views(v@) =~= all.insert(k as int, x@)) by {
        assert(v@ =~= orig.insert(k as int, x));
        assert forall|i: int| 0 <= i < v@.len() implies #[trigger] views::views(v@)[i]
            == all.insert(k as int, x@)[i] by {
            if i < k {
                assert(all[i] == orig[i]@);
            } else if i > k {
                assert(all[i - 1] == orig[i - 1]@);
            }
        }
    }
}

impl BluetoothModule {
    /// State to show: no device while the controller is off.
    pub fn update(&self) -> (r: BluetoothModuleState)
        ensures
            r.controller_powered == self.controller.powered,
            views::views(r.devices@) == if self.controller.powered {
                by_name(self.model().devices)
            } else {
                Seq::empty()
            },
    {
        let mut devices: Vec<BluetoothDevice> = Vec::new();
        assert(views::views(devices@) =~= Seq::empty());
        if self.controller.powered {
            let ghost all = self.model().devices;
            let mut i: usize = 0;
            while i < self.devices.len()
                invariant
                    i <= self.devices.len(),
                    all == views::views(self.devices@),
                    views::views(devices@) == by_name(all.take(i as int)),
                decreases self.devices.len() - i,
            {
                assert(all.take(i + 1).drop_last() =~= all.take(i as int));
                assert(all.take(i + 1).last() == self.devices@[i as int]@);
                let device = BluetoothDevice {
                    connected: self.devices[i].connected,
                    name: self.devices[i].name.clone(),
                    addr: self.devices[i].addr,
                };
                insert_by_name(&mut devices, device);
                i += 1;
            }
            assert(all.take(i as int) =~= all);
        }
        BluetoothModuleState { controller_powered: self.controller.powered, devices }
    }
}

/// The devices are shown in the order of their names, each once.
pub proof fn devices_are_shown_by_name(devices: Seq<(bool, Seq<char>, Seq<char>)>)
    ensures
        by_name(devices).to_multiset() == devices.to_multiset(),
        forall|i: int, j: int|
            0 <= i <= j < devices.len() ==> text::lex_le(
                (#[trigger] by_name(devices)[i]).1,
                (#[trigger] by_name(devices)[j]).1,
            ),
{
    let key = |d: (bool, Seq<char>, Seq<char>)| d.1;
    text::sorting_orders(devices, key);
    assert forall|i: int, j: int| 0 <= i <= j < devices.len() implies text::lex_le(
        (#[trigger] by_name(devices)[i]).1,
        (#[trigger] by_name(devices)[j]).1,
    ) by {
        let s = text::sorted_by(devices, key);
        assert(text::lex_le(key(s[i]), key(s[j])));
    }
}

pub open spec fn device_fragment(d: (bool, Seq<char>, Seq<char>)) -> Seq<char> {
    markup::clickable(
        markup::styled(
            Palette::SolarizedDark,
            theme::shortened(theme::short_name(d.1), Some(4)),
            None,
            if d.0 {
                Some(Color::Foreground)
            } else {
                None
            },
        ),
        PolybarActionType::ClickLeft,
        if d.0 {
            "bluetoothctl disconnect "@ + d.2
        } else {
            "bluetoothctl connect "@ + d.2
        },
    )
}

pub open spec fn switch_fragment(powered: bool) -> Seq<char> {
    markup::styled(Palette::SolarizedDark, "\u{e920}"@, Some(Color::MainIcon), None) + " "@ + if powered {
        markup::clickable(
            "\u{f205}"@,
            PolybarActionType::ClickLeft,
            "bluetoothctl power off"@,
        )
    } else {
        markup::clickable("\u{f204}"@, PolybarActionType::ClickLeft, "bluetoothctl power on"@)
    }
}

/// Parts of the markup: the switch of the controller, then the devices.
pub open spec fn fragments(state: BluetoothModuleState) -> Seq<Seq<char>> {
    seq![switch_fragment(state.controller_powered)] + Seq::new(
        state.devices@.len(),
        |i: int| device_fragment(state.devices@[i]@),
    )
}

fn device_markup(d: &BluetoothDevice) -> (r: String)
    requires
        theme::has_short_name(d.name@),
    ensures
        r@ == device_fragment(d@),
{
    let short = theme::shorten_model_name(d.name.as_str());
    let name = theme::ellipsis(short.as_str(), Some(4));
    let styled = markup::style(
        Palette::SolarizedDark,
        name.as_str(),
        None,
        if d.connected {
            Some(Color::Foreground)
        } else {
            None
        },
    );
    let mut command = (if d.connected {
        "bluetoothctl disconnect "
    } else {
        "bluetoothctl connect "
    }).to_owned();
    let addr = addr_to_string(d.addr.bytes);
    command.append(addr.as_str());
    markup::action(styled.as_str(), PolybarActionType::ClickLeft, command.as_str())
}

impl RenderablePolybarModule for BluetoothModule {
    type State = BluetoothModuleState;

    open spec fn renderable(&self, state: &BluetoothModuleState) -> bool {
        forall|i: int|
            0 <= i < state.devices@.len() ==> theme::has_short_name(
                (#[trigger] state.devices@[i]).name@,
            )
    }

    open spec fn rendered(&self, state: &BluetoothModuleState) -> Seq<char> {
        text::joined(fragments(*state), " "@)
    }

    fn can_render(&self, state: &BluetoothModuleState) -> (r: bool) {
        let mut i: usize = 0;
        while i < state.devices.len()
            invariant
                i <= state.devices.len(),
                forall|j: int|
                    0 <= j < i ==> theme::has_short_name((#[trigger] state.devices@[j]).name@),
            decreases state.devices.len() - i,
        {
            if !theme::can_shorten_model_name(state.devices[i].name.as_str()) {
                assert(!theme::has_short_name(state.devices@[i as int].name@));
                return false;
            }
            i += 1;
        }
        true
    }

    #[verifier::loop_isolation(false)]
    fn render(&self, state: &BluetoothModuleState) -> (r: String) {
        let mut head = markup::style(
            Palette::SolarizedDark,
            "\u{e920}",
            Some(Color::MainIcon),
            None,
        );
        head.append(" ");
        let switch = if state.controller_powered {
            markup::action("\u{f205}", PolybarActionType::ClickLeft, "bluetoothctl power off")
        } else {
            markup::action("\u{f204}", PolybarActionType::ClickLeft, "bluetoothctl power on")
        };
        head.append(switch.as_str());
        let mut parts: Vec<String> = Vec::new();
        parts.push(head);
        let ghost target = fragments(*state);
        assert(text::texts(parts@) =~= target.take(1));
        let mut i: usize = 0;
        while i < state.devices.len()
            invariant
                i <= state.devices.len(),
                text::texts(parts@) == target.take(i + 1),
            decreases state.devices.len() - i,
        {
            let part = device_markup(&state.devices[i]);
            assert(part@ == target[i + 1]);
            parts.push(part);
            i += 1;
            assert(target.take(i + 1) =~= target.take(i as int).push(target[i as int]));
        }
        assert(target.take(i + 1) =~= target);
        text::join(&parts, " ")
    }
}

// What the lines stand for

/// The digits are those of the hexadecimal system, and the texts of the addresses are all the texts
/// that have the form of one.
pub proof fn addresses_are_texts(s: Seq<char>)
    ensures
        forall|n: int| 0 <= n < 16 ==> #[trigger] upper_hex(n) == "0123456789ABCDEF"@[n],
        is_addr(s) <==> exists|b: Seq<u8>| b.len() == 6 && #[trigger] addr_text(b) == s,
{
    reveal_strlit("0123456789ABCDEF");
    if exists|b: Seq<u8>| b.len() == 6 && #[trigger] addr_text(b) == s {
        let b = choose|b: Seq<u8>| b.len() == 6 && #[trigger] addr_text(b) == s;
        addr_text_is_addr(b);
    }
    if is_addr(s) {
        let digit = |c: char|
            if 'A' <= c {
                c as int - 55
            } else {
                c as int - 48
            };
        let b = Seq::new(6, |k: int| (digit(s[3 * k]) * 16 + digit(s[3 * k + 1])) as u8);
        assert forall|i: int| 0 <= i < 17 implies #[trigger] addr_text(b)[i] == s[i] by {
            let k = i / 3;
            assert(0 <= k < 6);
            assert((3 * k) % 3 == 0 && (3 * k + 1) % 3 == 1);
            assert('A' <= s[3 * k] <= 'F' || '0' <= s[3 * k] <= '9');
            assert('A' <= s[3 * k + 1] <= 'F' || '0' <= s[3 * k + 1] <= '9');
            assert(0 <= digit(s[3 * k]) < 16);
            assert(0 <= digit(s[3 * k + 1]) < 16);
            assert(b[k] == digit(s[3 * k]) * 16 + digit(s[3 * k + 1]));
            assert(i == 3 * k || i == 3 * k + 1 || i == 3 * k + 2);
        }
        assert(addr_text(b) =~= s);
    }
}

proof fn addr_before_is_the_end(line: Seq<char>, head: Seq<char>, tail: Seq<char>, a: Seq<char>)
    ensures
        addr_before(line, head, tail) == Some(a) <==> is_addr(a) && text::has_suffix(
            line,
            head + a + tail,
        ),
{
    let p = line.len() - tail.len() - 17;
    let s = head + a + tail;
    if is_addr(a) && text::has_suffix(line, s) {
        let l = line.skip(line.len() - s.len());
        assert(l =~= s);
        assert(line.subrange(p + 17, p + 17 + tail.len()) =~= tail) by {
            assert(l.skip(head.len() as int + 17) =~= tail);
        }
        assert(line.subrange(p, p + 17) =~= a) by {
            assert(l.subrange(head.len() as int, head.len() as int + 17) =~= a);
        }
        assert(line.subrange(p - head.len(), p) =~= head) by {
            assert(l.take(head.len() as int) =~= head);
        }
    }
    if addr_before(line, head, tail) == Some(a) {
        let x = line.subrange(p - head.len(), p);
        let y = line.subrange(p, p + 17);
        let z = line.subrange(p + 17, p + 17 + tail.len());
        assert(line.skip(line.len() - s.len()) =~= x + y + z);
    }
}

proof fn ends_differ(line: Seq<char>)
    ensures
        ({
            let a = text::has_suffix(line, " Powered: yes"@);
            let b = text::has_suffix(line, " Powered: no"@);
            let c = text::has_suffix(line, " Connected: yes"@);
            let d = text::has_suffix(line, " Connected: no"@);
            &&& !(a && b)
            &&& !(a && c)
            &&& !(a && d)
            &&& !(b && c)
            &&& !(b && d)
            &&& !(c && d)
        }),
{
    reveal_strlit(" Powered: yes");
    reveal_strlit(" Powered: no");
    reveal_strlit(" Connected: yes");
    reveal_strlit(" Connected: no");
    let p = " Powered: yes"@;
    let q = " Powered: no"@;
    let c = " Connected: yes"@;
    let d = " Connected: no"@;
    text::affixes_are_cut_off(line, p);
    text::affixes_are_cut_off(line, q);
    text::affixes_are_cut_off(line, c);
    text::affixes_are_cut_off(line, d);
    assert(p[12] == 's' && q[11] == 'o' && c[14] == 's' && d[13] == 'o');
    assert(p[5] == 'r' && c[7] == 't' && q[5] == 'r' && d[7] == 't');
}

proof fn end_of_end(line: Seq<char>, a: Seq<char>, b: Seq<char>)
    requires
        text::has_suffix(line, a + b),
    ensures
        text::has_suffix(line, b),
{
    let l = line.skip(line.len() - (a + b).len());
    assert(l =~= a + b);
    assert(line.skip(line.len() - b.len()) =~= l.skip(a.len() as int));
    assert((a + b).skip(a.len() as int) =~= b);
}

/// A line tells that a device is connected exactly if it ends so, and that it is not connected
/// exactly if it ends with the opposite, whatever the address; the same holds of the power of a
/// controller. Any other line tells nothing.
pub proof fn lines_tell_what_they_end_with(line: Seq<char>, addr: Seq<char>)
    ensures
        event_in(line) == Some((false, addr, true)) <==> is_addr(addr) && text::has_suffix(
            line,
            "[CHG] Device "@ + addr + " Connected: yes"@,
        ),
        event_in(line) == Some((false, addr, false)) <==> is_addr(addr) && text::has_suffix(
            line,
            "[CHG] Device "@ + addr + " Connected: no"@,
        ),
        event_in(line) == Some((true, addr, true)) <==> is_addr(addr) && text::has_suffix(
            line,
            "[CHG] Controller "@ + addr + " Powered: yes"@,
        ),
        event_in(line) == Some((true, addr, false)) <==> is_addr(addr) && text::has_suffix(
            line,
            "[CHG] Controller "@ + addr + " Powered: no"@,
        ),
{
    let py = addr_before(line, "[CHG] Controller "@, " Powered: yes"@);
    let pn = addr_before(line, "[CHG] Controller "@, " Powered: no"@);
    let cy = addr_before(line, "[CHG] Device "@, " Connected: yes"@);
    let cn = addr_before(line, "[CHG] Device "@, " Connected: no"@);
    addr_before_is_the_end(line, "[CHG] Controller "@, " Powered: yes"@, addr);
    addr_before_is_the_end(line, "[CHG] Controller "@, " Powered: no"@, addr);
    addr_before_is_the_end(line, "[CHG] Device "@, " Connected: yes"@, addr);
    addr_before_is_the_end(line, "[CHG] Device "@, " Connected: no"@, addr);
    if py is Some {
        addr_before_is_the_end(line, "[CHG] Controller "@, " Powered: yes"@, py->0);
        end_of_end(line, "[CHG] Controller "@ + py->0, " Powered: yes"@);
    }
    if pn is Some {
        addr_before_is_the_end(line, "[CHG] Controller "@, " Powered: no"@, pn->0);
        end_of_end(line, "[CHG] Controller "@ + pn->0, " Powered: no"@);
    }
    if cy is Some {
        addr_before_is_the_end(line, "[CHG] Device "@, " Connected: yes"@, cy->0);
        end_of_end(line, "[CHG] Device "@ + cy->0, " Connected: yes"@);
    }
    if cn is Some {
        addr_before_is_the_end(line, "[CHG] Device "@, " Connected: no"@, cn->0);
        end_of_end(line, "[CHG] Device "@ + cn->0, " Connected: no"@);
    }
    ends_differ(line);
}

/// The two answers about one device, whatever stands in front of them.
pub proof fn answers_about_a_device(before: Seq<char>, addr: Seq<char>)
    requires
        is_addr(addr),
    ensures
        event_in(before + "[CHG] Device "@ + addr + " Connected: no"@) == Some(
            (false, addr, false),
        ),
        event_in(before + "[CHG] Device "@ + addr + " Connected: yes"@) == Some(
            (false, addr, true),
        ),
        event_in(before + "[CHG] Controller "@ + addr + " Powered: no"@) == Some(
            (true, addr, false),
        ),
        event_in(before + "[CHG] Controller "@ + addr + " Powered: yes"@) == Some(
            (true, addr, true),
        ),
{
    let dn = "[CHG] Device "@ + addr + " Connected: no"@;
    let dy = "[CHG] Device "@ + addr + " Connected: yes"@;
    let cn = "[CHG] Controller "@ + addr + " Powered: no"@;
    let cy = "[CHG] Controller "@ + addr + " Powered: yes"@;
    assert(before + "[CHG] Device "@ + addr + " Connected: no"@ =~= before + dn);
    assert(before + "[CHG] Device "@ + addr + " Connected: yes"@ =~= before + dy);
    assert(before + "[CHG] Controller "@ + addr + " Powered: no"@ =~= before + cn);
    assert(before + "[CHG] Controller "@ + addr + " Powered: yes"@ =~= before + cy);
    assert((before + dn).skip(before.len() as int) =~= dn);
    assert((before + dy).skip(before.len() as int) =~= dy);
    assert((before + cn).skip(before.len() as int) =~= cn);
    assert((before + cy).skip(before.len() as int) =~= cy);
    lines_tell_what_they_end_with(before + dn, addr);
    lines_tell_what_they_end_with(before + dy, addr);
    lines_tell_what_they_end_with(before + cn, addr);
    lines_tell_what_they_end_with(before + cy, addr);
}

/// Whether a line decides if the device at an address is connected: it tells of the device, or that
/// the controller is off.
pub open spec fn decides(line: Seq<char>, controller: Seq<char>, addr: Seq<char>) -> bool {
    ||| text::has_suffix(line, "[CHG] Device "@ + addr + " Connected: yes"@)
    ||| text::has_suffix(line, "[CHG] Device "@ + addr + " Connected: no"@)
    ||| text::has_suffix(line, "[CHG] Controller "@ + controller + " Powered: no"@)
}

/// After some lines, a device is connected exactly if the last line that decides it tells that it
/// is; where none does, nothing has changed for it.
pub proof fn the_last_line_decides(
    m: BluetoothModel,
    controller: Seq<char>,
    lines: Seq<Seq<char>>,
    i: int,
    k: int,
)
    requires
        is_addr(controller),
        0 <= i < m.devices.len(),
        is_addr(m.devices[i].2),
        -1 <= k < lines.len(),
        k >= 0 ==> decides(lines[k], controller, m.devices[i].2),
        forall|j: int|
            k < j < lines.len() ==> !decides(#[trigger] lines[j], controller, m.devices[i].2),
    ensures
        after_lines(m, controller, lines).0.devices[i].0 == if k >= 0 {
            text::has_suffix(
                lines[k],
                "[CHG] Device "@ + m.devices[i].2 + " Connected: yes"@,
            )
        } else {
            m.devices[i].0
        },
    decreases lines.len(),
{
    if lines.len() > 0 {
        let addr = m.devices[i].2;
        let rest = lines.drop_last();
        let l = lines.last();
        events_keep_devices(m, controller, rest);
        let before = after_lines(m, controller, rest).0;
        assert(before.devices[i].2 == addr);
        assert(has_addr(before.devices, addr));
        lines_tell_what_they_end_with(l, addr);
        lines_tell_what_they_end_with(l, controller);
        if let Some(e) = event_in(l) {
            lines_tell_what_they_end_with(l, e.1);
        }
        if k < lines.len() - 1 {
            the_last_line_decides(m, controller, rest, i, k);
            assert(!decides(lines[lines.len() - 1], controller, addr));
        }
    }
}

/// After some lines, the controller is on exactly if the last line about its power tells so.
pub proof fn the_last_power_line_decides(
    m: BluetoothModel,
    controller: Seq<char>,
    lines: Seq<Seq<char>>,
    k: int,
)
    requires
        is_addr(controller),
        -1 <= k < lines.len(),
        k >= 0 ==> text::has_suffix(lines[k], "[CHG] Controller "@ + controller + " Powered: yes"@)
            || text::has_suffix(lines[k], "[CHG] Controller "@ + controller + " Powered: no"@),
        forall|j: int|
            k < j < lines.len() ==> !text::has_suffix(
                #[trigger] lines[j],
                "[CHG] Controller "@ + controller + " Powered: yes"@,
            ) && !text::has_suffix(
                lines[j],
                "[CHG] Controller "@ + controller + " Powered: no"@,
            ),
    ensures
        after_lines(m, controller, lines).0.powered == if k >= 0 {
            text::has_suffix(lines[k], "[CHG] Controller "@ + controller + " Powered: yes"@)
        } else {
            m.powered
        },
    decreases lines.len(),
{
    if lines.len() > 0 {
        let l = lines.last();
        lines_tell_what_they_end_with(l, controller);
        if k < lines.len() - 1 {
            the_last_power_line_decides(m, controller, lines.drop_last(), k);
            assert(l == lines[lines.len() - 1]);
        }
    }
}

/// Something is to be rendered exactly if a line tells of the power of the controller, or of one of
/// the devices.
pub proof fn lines_of_interest_are_rendered(
    m: BluetoothModel,
    controller: Seq<char>,
    lines: Seq<Seq<char>>,
)
    ensures
        after_lines(m, controller, lines).1 <==> exists|j: int|
            0 <= j < lines.len() && (event_in(#[trigger] lines[j]) matches Some(e) && if e.0 {
                e.1 == controller
            } else {
                exists|i: int| 0 <= i < m.devices.len() && (#[trigger] m.devices[i]).2 == e.1
            }),
    decreases lines.len(),
{
    if lines.len() > 0 {
        let rest = lines.drop_last();
        lines_of_interest_are_rendered(m, controller, rest);
        events_keep_devices(m, controller, rest);
        let before = after_lines(m, controller, rest).0;
        let of_interest = |l: Seq<char>|
            event_in(l) matches Some(e) && if e.0 {
                e.1 == controller
            } else {
                exists|i: int| 0 <= i < m.devices.len() && (#[trigger] m.devices[i]).2 == e.1
            };
        if let Some(e) = event_in(lines.last()) {
            if has_addr(before.devices, e.1) {
                let i = choose|i: int|
                    0 <= i < before.devices.len() && (#[trigger] before.devices[i]).2 == e.1;
                assert(m.devices[i].2 == e.1);
            }
            if exists|i: int| 0 <= i < m.devices.len() && (#[trigger] m.devices[i]).2 == e.1 {
                let i = choose|i: int|
                    0 <= i < m.devices.len() && (#[trigger] m.devices[i]).2 == e.1;
                assert(before.devices[i].2 == e.1);
            }
        }
        assert(after_event(before, controller, event_in(lines.last())).1 == of_interest(
            lines.last(),
        ));
        if exists|j: int| 0 <= j < rest.len() && of_interest(#[trigger] rest[j]) {
            let j = choose|j: int| 0 <= j < rest.len() && of_interest(#[trigger] rest[j]);
            assert(lines[j] == rest[j]);
        }
        if exists|j: int| 0 <= j < lines.len() && of_interest(#[trigger] lines[j]) {
            let j = choose|j: int| 0 <= j < lines.len() && of_interest(#[trigger] lines[j]);
            if j < rest.len() {
                assert(lines[j] == rest[j]);
            }
        }
    }
}

/// The first line that is an answer gives it, whatever follows; without such a line there is none.
pub proof fn the_first_answer_counts(
    before: Seq<Seq<char>>,
    rest: Seq<Seq<char>>,
    key: Seq<char>,
    answer: bool,
)
    requires
        forall|i: int|
            0 <= i < before.len() ==> #[trigger] before[i] != key + "yes"@ && before[i] != key
                + "no"@,
    ensures
        first_answer(
            before + seq![
                key + if answer {
                    "yes"@
                } else {
                    "no"@
                },
            ] + rest,
            key,
        ) == Some(answer),
        first_answer(before, key) is None,
    decreases before.len(),
{
    let l = key + if answer {
        "yes"@
    } else {
        "no"@
    };
    let all = before + seq![l] + rest;
    if before.len() == 0 {
        reveal_strlit("yes");
        reveal_strlit("no");
        assert(all[0] == l);
        assert((key + "yes"@).len() != (key + "no"@).len());
    } else {
        assert(all[0] == before[0]);
        assert(all.skip(1) =~= before.skip(1) + seq![l] + rest);
        assert forall|i: int| 0 <= i < before.skip(1).len() implies #[trigger] before.skip(1)[i]
            != key + "yes"@ && before.skip(1)[i] != key + "no"@ by {
            assert(before.skip(1)[i] == before[i + 1]);
        }
        the_first_answer_counts(before.skip(1), rest, key, answer);
    }
}

/// A line starts with some text, an address and a space exactly if it is these and anything else.
pub proof fn addresses_follow_the_text(
    line: Seq<char>,
    head: Seq<char>,
    addr: Seq<char>,
    rest: Seq<char>,
)
    requires
        is_addr(addr),
    ensures
        addr_after(head + addr + seq![' '] + rest, head) == Some(addr),
        addr_after(line, head) == Some(addr) ==> line == head + addr + seq![' '] + line.skip(
            head.len() as int + 18,
        ),
        known_device("Device "@ + addr + seq![' '] + rest) == Some((addr, rest)),
        known_device(line) == Some((addr, rest)) ==> line == "Device "@ + addr + seq![' '] + rest,
{
    reveal_strlit("Device ");
    let s = head + addr + seq![' '] + rest;
    let n = head.len() as int;
    assert(s.subrange(0, n) =~= head);
    assert(s.subrange(n, n + 17) =~= addr);
    let t = "Device "@ + addr + seq![' '] + rest;
    assert(t.subrange(0, 7) =~= "Device "@);
    assert(t.subrange(7, 24) =~= addr);
    assert(t.skip(25) =~= rest);
    if addr_after(line, head) == Some(addr) {
        assert(line =~= line.subrange(0, n) + line.subrange(n, n + 17) + seq![line[n + 17]]
            + line.skip(n + 18));
    }
    if known_device(line) == Some((addr, rest)) {
        assert(line =~= line.subrange(0, 7) + line.subrange(7, 24) + seq![line[24]] + line.skip(
            25,
        ));
    }
}

/// The first line with an address gives it, whatever follows; without such a line there is none.
pub proof fn the_first_address_counts(
    before: Seq<Seq<char>>,
    rest: Seq<Seq<char>>,
    head: Seq<char>,
    addr: Seq<char>,
    name: Seq<char>,
)
    requires
        is_addr(addr),
        forall|i: int| 0 <= i < before.len() ==> !text::has_prefix(#[trigger] before[i], head),
    ensures
        first_addr(before + seq![head + addr + seq![' '] + name] + rest, head) == Some(addr),
        first_addr(before, head) is None,
    decreases before.len(),
{
    let l = head + addr + seq![' '] + name;
    let all = before + seq![l] + rest;
    if before.len() == 0 {
        addresses_follow_the_text(l, head, addr, name);
        assert(all[0] == l);
    } else {
        assert(all[0] == before[0]);
        assert(all.skip(1) =~= before.skip(1) + seq![l] + rest);
        assert(addr_after(before[0], head) is None) by {
            assert(before[0].take(head.len() as int) =~= before[0].subrange(0, head.len() as int));
        }
        assert forall|i: int| 0 <= i < before.skip(1).len() implies !text::has_prefix(
            #[trigger] before.skip(1)[i],
            head,
        ) by {
            assert(before.skip(1)[i] == before[i + 1]);
        }
        the_first_address_counts(before.skip(1), rest, head, addr, name);
    }
}

/// A line about a device adds it behind the others exactly if its address is let through: any is by
/// an empty list, and else one that is in the list.
pub proof fn devices_are_let_through(
    lines: Seq<Seq<char>>,
    addr: Seq<char>,
    name: Seq<char>,
    whitelist: Seq<MacAddr>,
)
    requires
        is_addr(addr),
    ensures
        known_devices(lines.push("Device "@ + addr + seq![' '] + name), whitelist)
            == known_devices(lines, whitelist) + if whitelist.len() == 0 || exists|i: int|
            0 <= i < whitelist.len() && (#[trigger] whitelist[i]).text() == addr {
            seq![(addr, name)]
        } else {
            Seq::empty()
        },
        known_devices(Seq::empty(), whitelist).len() == 0,
{
    let l = "Device "@ + addr + seq![' '] + name;
    addresses_follow_the_text(l, "Device "@, addr, name);
    assert(lines.push(l).drop_last() =~= lines);
    assert(known_devices(lines.push(l), whitelist) =~= known_devices(lines, whitelist)
        + if whitelist.len() == 0 || exists|i: int|
        0 <= i < whitelist.len() && (#[trigger] whitelist[i]).text() == addr {
        seq![(addr, name)]
    } else {
        Seq::empty()
    });
}

/// A device that is connected is underlined and disconnected by a click, and any other is connected
/// by one; a controller that is on is switched off by a click, and one that is off is switched on.
pub proof fn clicks_change_the_status(name: Seq<char>, addr: Seq<char>)
    ensures
        ({
            let short = theme::shortened(theme::short_name(name), Some(4));
            &&& device_fragment((true, name, addr)) == markup::clickable(
                markup::underlined(Palette::SolarizedDark, short, Color::Foreground),
                PolybarActionType::ClickLeft,
                "bluetoothctl disconnect "@ + addr,
            )
            &&& device_fragment((false, name, addr)) == markup::clickable(
                short,
                PolybarActionType::ClickLeft,
                "bluetoothctl connect "@ + addr,
            )
        }),
        ({
            let icon = markup::colored(Palette::SolarizedDark, "\u{e920}"@, Color::MainIcon);
            &&& switch_fragment(true) == icon + " "@ + markup::clickable(
                "\u{f205}"@,
                PolybarActionType::ClickLeft,
                "bluetoothctl power off"@,
            )
            &&& switch_fragment(false) == icon + " "@ + markup::clickable(
                "\u{f204}"@,
                PolybarActionType::ClickLeft,
                "bluetoothctl power on"@,
            )
        }),
{
}

/// An event tells whether it is one of a controller or of a device, with the address and the status
/// that it holds.
pub proof fn events_tell_what_they_hold(a: MacAddr, on: bool)
    ensures
        event_view(BluetoothEvent::Powered(a, on)) == Some((true, a.text(), on)),
        event_view(BluetoothEvent::Connected(a, on)) == Some((false, a.text(), on)),
        event_view(BluetoothEvent::Other) is None,
{
}

}
