//! Wi-Fi Direct device discovery: the devices found, whether discovery runs,
//! and the WFD device information subelement.

use vstd::prelude::*;

use crate::chars::str_chars;
use crate::text::{ascii_lower, is_ws, lemma_lower_trim, lower_text, trim, trim_end, trim_range, trim_start};

verus! {

/// WFD device types (WFD subelement device information, bits 0-1).
#[derive(Debug, Clone, Copy, PartialEq, Eq, Structural)]
pub enum WfdDeviceType {
    Source,
    PrimarySink,
    SecondarySink,
    DualRole,
}

/// The device type that the two low bits `b` encode.
pub open spec fn device_type_of(b: nat) -> WfdDeviceType {
    if b == 0 {
        WfdDeviceType::Source
    } else if b == 1 {
        WfdDeviceType::PrimarySink
    } else if b == 2 {
        WfdDeviceType::SecondarySink
    } else {
        WfdDeviceType::DualRole
    }
}

/// A discovered Miracast device.
#[derive(Debug, Clone)]
pub struct MiracastDevice {
    pub id: String,
    pub name: String,
    pub address: String,
    pub model: String,
    pub signal_strength: i32,
    pub wfd_type: Option<WfdDeviceType>,
    pub rtsp_port: u16,
}

/// Whether a device of this type can receive a stream.
pub open spec fn is_sink_type(t: Option<WfdDeviceType>) -> bool {
    match t {
        Some(WfdDeviceType::PrimarySink) | Some(WfdDeviceType::SecondarySink) | Some(
            WfdDeviceType::DualRole,
        ) => true,
        _ => false,
    }
}

impl MiracastDevice {
    /// Whether this device can receive a Miracast stream.
    pub fn is_sink(&self) -> (b: bool)
        ensures
            b == is_sink_type(self.wfd_type),
    {
        match self.wfd_type {
            Some(WfdDeviceType::PrimarySink) | Some(WfdDeviceType::SecondarySink) | Some(
                WfdDeviceType::DualRole,
            ) => true,
            _ => false,
        }
    }
}

/// Why discovery could not start.
#[derive(Debug, Clone, Copy, PartialEq, Eq, Structural)]
pub enum DiscoveryError {
    /// There is no system bus connection.
    NotConnected,
}

/// Peer-to-peer device discovery: the devices found (one per identifier),
/// whether a bus connection is there, and whether discovery runs.
pub struct Discovery {
    connected: bool,
    devices: Vec<MiracastDevice>,
    running: bool,
}

/// No two devices share an identifier.
pub open spec fn ids_unique(ds: Seq<MiracastDevice>) -> bool {
    forall|i: int, j: int| 0 <= i < j < ds.len() ==> ds[i].id@ != ds[j].id@
}

impl Discovery {
    /// The devices found, one per identifier.
    #[verifier::type_invariant]
    closed spec fn one_per_id(&self) -> bool {
        ids_unique(self.devices@)
    }

    /// Whether a bus connection is there.
    pub closed spec fn spec_connected(&self) -> bool {
        self.connected
    }

    /// Whether discovery runs.
    pub closed spec fn spec_running(&self) -> bool {
        self.running
    }

    /// The devices found.
    pub closed spec fn spec_devices(&self) -> Seq<MiracastDevice> {
        self.devices@
    }

    /// No connection, no devices, not running.
    pub fn new() -> (d: Self)
        ensures
            !d.spec_connected(),
            !d.spec_running(),
            d.spec_devices() == Seq::<MiracastDevice>::empty(),
    {
        Discovery { connected: false, devices: Vec::new(), running: false }
    }

    /// Records that the system bus connection is established.
    pub fn set_connected(&mut self)
        ensures
            final(self).spec_connected(),
            final(self).spec_running() == old(self).spec_running(),
            final(self).spec_devices() == old(self).spec_devices(),
    {
        proof {
            use_type_invariant(&*self);
        }
        self.connected = true;
    }

    /// Starts discovery; refused without a bus connection.
    pub fn start(&mut self) -> (r: Result<(), DiscoveryError>)
        ensures
            old(self).spec_connected() ==> r is Ok && final(self).spec_running(),
            !old(self).spec_connected() ==> r == Err::<(), DiscoveryError>(
                DiscoveryError::NotConnected,
            ) && final(self).spec_running() == old(self).spec_running(),
            final(self).spec_connected() == old(self).spec_connected(),
            final(self).spec_devices() == old(self).spec_devices(),
    {
        proof {
            use_type_invariant(&*self);
        }
        if !self.connected {
            return Err(DiscoveryError::NotConnected);
        }
        self.running = true;
        Ok(())
    }

    /// Stops discovery; stopping when not running is allowed and does nothing.
    pub fn stop(&mut self) -> (r: Result<(), DiscoveryError>)
        ensures
            r is Ok,
            !final(self).spec_running(),
            final(self).spec_connected() == old(self).spec_connected(),
            final(self).spec_devices() == old(self).spec_devices(),
    {
        proof {
            use_type_invariant(&*self);
        }
        if !self.running {
            return Ok(());
        }
        self.running = false;
        Ok(())
    }

    /// The devices found that can receive a stream, in the order found.
    pub fn get_sinks(&self) -> (v: Vec<&MiracastDevice>)
        ensures
            v@.map_values(|d: &MiracastDevice| *d) == self.spec_devices().filter(
                |d: MiracastDevice| is_sink_type(d.wfd_type),
            ),
    {
        let mut v: Vec<&MiracastDevice> = Vec::new();
        let mut i: usize = 0;
        while i < self.devices.len()
            invariant
                0 <= i <= self.devices@.len(),
                v@.map_values(|d: &MiracastDevice| *d) == self.devices@.subrange(
                    0,
                    i as int,
                ).filter(|d: MiracastDevice| is_sink_type(d.wfd_type)),
            decreases self.devices@.len() - i,
        {
            let d = &self.devices[i];
            let ghost old_v = v@;
            reveal_with_fuel(Seq::<_>::filter, 1);
            assert(self.devices@.subrange(0, i + 1).drop_last() =~= self.devices@.subrange(
                0,
                i as int,
            ));
            if d.is_sink() {
                v.push(d);
                proof {
                    let m = v@.map_values(|d: &MiracastDevice| *d);
                    let om = old_v.map_values(|d: &MiracastDevice| *d);
                    assert forall|k: int| 0 <= k < m.len() implies m[k] == om.push(*d)[k] by {
                        if k < old_v.len() {
                            assert(v@[k] == old_v[k]);
                        }
                    }
                    assert(m =~= om.push(*d));
                }
            }
            i = i + 1;
        }
        assert(self.devices@.subrange(0, i as int) =~= self.devices@);
        v
    }

    /// All devices found, in the order found, one per identifier.
    pub fn get_all_devices(&self) -> (v: Vec<&MiracastDevice>)
        ensures
            v@.map_values(|d: &MiracastDevice| *d) == self.spec_devices(),
            ids_unique(self.spec_devices()),
    {
        proof {
            use_type_invariant(self);
        }
        let mut v: Vec<&MiracastDevice> = Vec::new();
        let mut i: usize = 0;
        while i < self.devices.len()
            invariant
                0 <= i <= self.devices@.len(),
                v@.len() == i,
                v@.map_values(|d: &MiracastDevice| *d) == self.devices@.subrange(0, i as int),
            decreases self.devices@.len() - i,
        {
            let ghost old_v = v@;
            v.push(&self.devices[i]);
            proof {
                let m = v@.map_values(|d: &MiracastDevice| *d);
                let om = old_v.map_values(|d: &MiracastDevice| *d);
                assert forall|k: int| 0 <= k < i + 1 implies m[k] == self.devices@.subrange(
                    0,
                    i + 1,
                )[k] by {
                    if k < i {
                        assert(v@[k] == old_v[k]);
                        assert(om[k] == self.devices@.subrange(0, i as int)[k]);
                    }
                }
                assert(m =~= self.devices@.subrange(0, i + 1));
            }
            i = i + 1;
        }
        assert(self.devices@.subrange(0, i as int) =~= self.devices@);
        v
    }

    /// Whether discovery is currently running.
    pub fn is_running(&self) -> (b: bool)
        ensures
            b == self.spec_running(),
    {
        self.running
    }
}

/// Whether `c` is an ASCII hexadecimal digit.
pub open spec fn is_hex_digit(c: char) -> bool {
    ('0' <= c <= '9') || ('a' <= c <= 'f') || ('A' <= c <= 'F')
}

/// The value of the hexadecimal digit `c`.
pub open spec fn hex_val(c: char) -> nat {
    if '0' <= c <= '9' {
        (c as u32 - '0' as u32) as nat
    } else if 'a' <= c <= 'f' {
        (c as u32 - 'a' as u32 + 10) as nat
    } else {
        (c as u32 - 'A' as u32 + 10) as nat
    }
}

/// The value of the hexadecimal numeral `d`, most significant digit first.
pub open spec fn hex_value(d: Seq<char>) -> nat
    decreases d.len(),
{
    if d.len() == 0 {
        0
    } else {
        hex_value(d.drop_last()) * 16 + hex_val(d.last())
    }
}

/// Device type and RTSP control port from a WFD subelement hex string.
///
/// The trimmed string must be an even number, at least twelve, of hex digits;
/// its first byte (the subelement ID) must be 0 (device information). The two
/// low bits of the 16-bit device information field (hex digits 6..10) give the
/// device type; hex digits 10..14, where present and not zero, give the port,
/// which is 7236 otherwise. (Hex digits are ASCII, so counting characters and
/// counting bytes agree.)
pub open spec fn subelement_info(hex: Seq<char>) -> Option<(WfdDeviceType, u16)> {
    let t = trim(hex);
    if t.len() < 12 || t.len() % 2 != 0 || !(forall|i: int| 0 <= i < t.len() ==> is_hex_digit(t[i])) {
        None
    } else if hex_value(t.subrange(0, 2)) != 0 {
        None
    } else {
        let info = hex_value(t.subrange(6, 10));
        let port = if t.len() >= 14 {
            let p = hex_value(t.subrange(10, 14));
            if p == 0 {
                7236
            } else {
                p
            }
        } else {
            7236
        };
        Some((device_type_of(info % 4), port as u16))
    }
}

/// The value of the hex digit `c`.
fn hex_digit_value(c: char) -> (v: u32)
    requires
        is_hex_digit(c),
    ensures
        v == hex_val(c),
        v < 16,
{
    if '0' <= c && c <= '9' {
        c as u32 - '0' as u32
    } else if 'a' <= c && c <= 'f' {
        c as u32 - 'a' as u32 + 10
    } else {
        c as u32 - 'A' as u32 + 10
    }
}

/// The value of the hex digits `s[lo..lo + 4]` or fewer.
fn hex_range_value(s: &[char], lo: usize, hi: usize) -> (v: u32)
    requires
        lo <= hi <= s@.len(),
        hi - lo <= 4,
        forall|i: int| lo <= i < hi ==> is_hex_digit(s@[i]),
    ensures
        v == hex_value(s@.subrange(lo as int, hi as int)),
        v < 0x10000,
{
    let mut v: u32 = 0;
    let mut i = lo;
    while i < hi
        invariant
            lo <= i <= hi <= s@.len(),
            hi - lo <= 4,
            forall|k: int| lo <= k < hi ==> is_hex_digit(s@[k]),
            v == hex_value(s@.subrange(lo as int, i as int)),
            v < pow16(i - lo),
        decreases hi - i,
    {
        let d = hex_digit_value(s[i]);
        assert(s@.subrange(lo as int, i + 1).drop_last() =~= s@.subrange(lo as int, i as int));
        assert(v * 16 + d < pow16(i + 1 - lo)) by (nonlinear_arith)
            requires
                v < pow16(i - lo),
                d < 16,
                pow16(i + 1 - lo) == pow16(i - lo) * 16,
        ;
        v = v * 16 + d;
        i = i + 1;
    }
    v
}

/// Four hex digits are worth less than 65536.
proof fn lemma_hex4_bound(d: Seq<char>)
    requires
        d.len() == 4,
        forall|i: int| 0 <= i < 4 ==> is_hex_digit(d[i]),
    ensures
        hex_value(d) < 65536,
{
    let d3 = d.drop_last();
    let d2 = d3.drop_last();
    let d1 = d2.drop_last();
    let d0 = d1.drop_last();
    assert(d0.len() == 0);
    assert(hex_val(d1.last()) < 16 && hex_val(d2.last()) < 16 && hex_val(d3.last()) < 16
        && hex_val(d.last()) < 16) by {
        assert(d1.last() == d[0] && d2.last() == d[1] && d3.last() == d[2] && d.last() == d[3]);
    }
    assert(hex_value(d0) == 0);
    assert(hex_value(d1) == hex_value(d0) * 16 + hex_val(d1.last()));
    assert(hex_value(d1) < 16);
    assert(hex_value(d2) < 256);
    assert(hex_value(d3) < 4096);
}

/// The control port read from a subelement is never 0.
pub proof fn law_subelement_port_nonzero(hex: Seq<char>)
    ensures
        subelement_info(hex) matches Some((_, p)) ==> p != 0,
{
    let t = trim(hex);
    if subelement_info(hex) is Some && t.len() >= 14 {
        let d = t.subrange(10, 14);
        assert forall|i: int| 0 <= i < 4 implies is_hex_digit(d[i]) by {
            assert(d[i] == t[10 + i]);
        }
        lemma_hex4_bound(d);
    }
}

/// Sixteen to the power `n`, for `n <= 4`.
pub open spec fn pow16(n: int) -> int {
    if n <= 0 {
        1
    } else if n == 1 {
        16
    } else if n == 2 {
        256
    } else if n == 3 {
        4096
    } else {
        65536
    }
}

/// Parse WFD subelements from a hex string: returns the device type and the
/// RTSP control port.
pub fn parse_wfd_subelements(hex: &str) -> (r: Option<(WfdDeviceType, u16)>)
    ensures
        r == subelement_info(hex@),
{
    let cs = str_chars(hex);
    let (a, b) = trim_range(&cs, 0, cs.len());
    assert(cs@.subrange(0, cs@.len() as int) =~= hex@);
    let ghost t = cs@.subrange(a as int, b as int);
    let n = b - a;
    if n < 12 || n % 2 != 0 {
        return None;
    }
    let mut i = a;
    while i < b
        invariant
            a <= i <= b <= cs@.len(),
            t == cs@.subrange(a as int, b as int),
            t == trim(hex@),
            forall|k: int| a <= k < i ==> is_hex_digit(cs@[k]),
        decreases b - i,
    {
        let c = cs[i];
        if !(('0' <= c && c <= '9') || ('a' <= c && c <= 'f') || ('A' <= c && c <= 'F')) {
            assert(!is_hex_digit(t[i - a]));
            return None;
        }
        i = i + 1;
    }
    assert forall|k: int| 0 <= k < t.len() implies is_hex_digit(t[k]) by {
        assert(t[k] == cs@[a + k]);
    }
    let id = hex_range_value(&cs, a, a + 2);
    assert(cs@.subrange(a as int, a + 2) =~= t.subrange(0, 2));
    if id != 0 {
        return None;
    }
    let info = hex_range_value(&cs, a + 6, a + 10);
    assert(cs@.subrange(a + 6, a + 10) =~= t.subrange(6, 10));
    let device_type = match info % 4 {
        0 => WfdDeviceType::Source,
        1 => WfdDeviceType::PrimarySink,
        2 => WfdDeviceType::SecondarySink,
        _ => WfdDeviceType::DualRole,
    };
    let port: u16 = if n >= 14 {
        let p = hex_range_value(&cs, a + 10, a + 14);
        assert(cs@.subrange(a + 10, a + 14) =~= t.subrange(10, 14));
        if p == 0 {
            7236
        } else {
            p as u16
        }
    } else {
        7236
    };
    Some((device_type, port))
}

/// Every known device type but a source can receive a stream; a device of
/// unknown type cannot.
pub proof fn law_sink_types(t: Option<WfdDeviceType>)
    ensures
        is_sink_type(t) <==> (t is Some && t->0 != WfdDeviceType::Source),
{
}

/// The two device-type bits name a receiver exactly when they are not both
/// zero.
pub proof fn law_sink_bits(b: nat)
    requires
        b < 4,
    ensures
        is_sink_type(Some(device_type_of(b))) <==> b != 0,
{
}

proof fn lemma_lower_char(c: char)
    ensures
        is_hex_digit(ascii_lower(c)) == is_hex_digit(c),
        is_hex_digit(c) ==> hex_val(ascii_lower(c)) == hex_val(c),
{
}

proof fn lemma_lower_hex_value(d: Seq<char>)
    requires
        forall|i: int| 0 <= i < d.len() ==> is_hex_digit(d[i]),
    ensures
        hex_value(lower_text(d)) == hex_value(d),
    decreases d.len(),
{
    if d.len() > 0 {
        assert(lower_text(d).drop_last() =~= lower_text(d.drop_last()));
        assert(lower_text(d).last() == ascii_lower(d.last()));
        lemma_lower_char(d.last());
        lemma_lower_hex_value(d.drop_last());
    }
}

/// The values of the hexadecimal digits: `0` to `9`, then `a` to `f` and `A`
/// to `F`, are worth 0 to 15 in that order.
pub proof fn law_hex_digit_values(i: int)
    requires
        0 <= i < 16,
    ensures
        is_hex_digit("0123456789abcdef"@[i]),
        is_hex_digit("0123456789ABCDEF"@[i]),
        hex_val("0123456789abcdef"@[i]) == i,
        hex_val("0123456789ABCDEF"@[i]) == i,
{
    reveal_strlit("0123456789abcdef");
    reveal_strlit("0123456789ABCDEF");
}

/// Two hexadecimal digits have the same value exactly when they are the same
/// digit up to ASCII case.
pub proof fn law_hex_digit_case(c: char, d: char)
    requires
        is_hex_digit(c),
        is_hex_digit(d),
    ensures
        hex_val(c) < 16,
        hex_val(c) == hex_val(d) <==> ascii_lower(c) == ascii_lower(d),
{
    vstd::utf8::char_u32_cast(c, c as u32);
    vstd::utf8::char_u32_cast(d, d as u32);
}

/// What a subelement gives does not depend on the case of its hex digits.
pub proof fn law_subelement_case(hex: Seq<char>)
    ensures
        subelement_info(lower_text(hex)) == subelement_info(hex),
{
    let t = trim(hex);
    lemma_lower_trim(hex);
    let lt = lower_text(t);
    assert(trim(lower_text(hex)) == lt);
    assert forall|i: int| 0 <= i < t.len() implies is_hex_digit(lt[i]) == is_hex_digit(t[i]) by {
        lemma_lower_char(t[i]);
    }
    if t.len() >= 12 && t.len() % 2 == 0 && (forall|i: int| 0 <= i < t.len() ==> is_hex_digit(t[i])) {
        assert(lower_text(t.subrange(0, 2)) =~= lt.subrange(0, 2));
        assert(lower_text(t.subrange(6, 10)) =~= lt.subrange(6, 10));
        lemma_lower_hex_value(t.subrange(0, 2));
        lemma_lower_hex_value(t.subrange(6, 10));
        if t.len() >= 14 {
            assert(lower_text(t.subrange(10, 14)) =~= lt.subrange(10, 14));
            lemma_lower_hex_value(t.subrange(10, 14));
        }
    } else if t.len() >= 12 && t.len() % 2 == 0 {
        let i = choose|i: int| 0 <= i < t.len() && !is_hex_digit(t[i]);
        assert(!is_hex_digit(lt[i]));
    }
}

/// Whether every character of `d` is a hexadecimal digit.
pub open spec fn all_hex(d: Seq<char>) -> bool {
    forall|i: int| 0 <= i < d.len() ==> is_hex_digit(d[i])
}

/// Four hexadecimal digits, most significant first, are worth
/// `4096 a + 256 b + 16 c + d`.
pub proof fn law_hex4_value(d: Seq<char>)
    requires
        d.len() == 4,
    ensures
        hex_value(d) == 4096 * hex_val(d[0]) + 256 * hex_val(d[1]) + 16 * hex_val(d[2])
            + hex_val(d[3]),
{
    let d3 = d.drop_last();
    let d2 = d3.drop_last();
    let d1 = d2.drop_last();
    assert(d1.drop_last().len() == 0);
    assert(d1.last() == d[0] && d2.last() == d[1] && d3.last() == d[2] && d.last() == d[3]);
    assert(hex_value(d1.drop_last()) == 0);
    assert(hex_value(d1) == hex_val(d[0]));
    assert(hex_value(d2) == hex_value(d1) * 16 + hex_val(d[1]));
    assert(hex_value(d3) == hex_value(d2) * 16 + hex_val(d[2]));
    assert(hex_value(d) == hex_value(d3) * 16 + hex_val(d[3]));
}

/// A device information subelement read field by field: a one-byte ID (it
/// must be 0), a two-byte length, the two-byte device information (its low two
/// bits give the device type) and the two-byte control port (0 meaning 7236),
/// then any further bytes, all written as hex digits.
pub proof fn law_subelement_fields(
    id: Seq<char>,
    len: Seq<char>,
    info: Seq<char>,
    port: Seq<char>,
    rest: Seq<char>,
)
    requires
        id.len() == 2,
        len.len() == 4,
        info.len() == 4,
        port.len() == 4,
        rest.len() % 2 == 0,
        all_hex(id),
        all_hex(len),
        all_hex(info),
        all_hex(port),
        all_hex(rest),
    ensures
        subelement_info(id + len + info + port + rest) == if hex_value(id) != 0 {
            None
        } else {
            Some(
                (
                    device_type_of(hex_value(info) % 4),
                    (if hex_value(port) == 0 {
                        7236
                    } else {
                        hex_value(port)
                    }) as u16,
                ),
            )
        },
{
    let s = id + len + info + port + rest;
    assert(s[0] == id[0]);
    assert(s.last() == if rest.len() > 0 { rest.last() } else { port[3] });
    assert(trim_start(s) == s);
    assert(trim_end(s) == s);
    assert(trim(s) == s);
    assert forall|i: int| 0 <= i < s.len() implies is_hex_digit(s[i]) by {
        if i < 2 {
            assert(s[i] == id[i]);
        } else if i < 6 {
            assert(s[i] == len[i - 2]);
        } else if i < 10 {
            assert(s[i] == info[i - 6]);
        } else if i < 14 {
            assert(s[i] == port[i - 10]);
        } else {
            assert(s[i] == rest[i - 14]);
        }
    }
    assert(s.subrange(0, 2) =~= id);
    assert(s.subrange(6, 10) =~= info);
    assert(s.subrange(10, 14) =~= port);
}

} // verus!
