//! The packets of the Android Auto link that the hook sees and makes.

use vstd::prelude::*;

verus! {

/// The payload is encrypted on the link.
pub const ENCRYPTED: u8 = 0x08;

/// The packet begins a frame.
pub const FRAME_TYPE_FIRST: u8 = 0x01;

/// The packet ends a frame.
pub const FRAME_TYPE_LAST: u8 = 0x02;

/// The packet carries a control message, not channel data.
pub const CONTROL_FLAG: u8 = 0x04;

pub const MSG_SERVICE_DISCOVERY_RESPONSE: u16 = 6;

pub const MSG_CHANNEL_OPEN_REQUEST: u16 = 7;

pub const MSG_CHANNEL_OPEN_RESPONSE: u16 = 8;

/// The proxy task that a packet passes through. `HeadUnit` packets come from
/// the head unit; `MobileDevice` packets come from the phone and reach the head
/// unit.
#[derive(Clone, Copy, Debug, PartialEq, Eq, Structural)]
pub enum ProxyType {
    HeadUnit,
    MobileDevice,
}

/// What becomes of a packet that the hook has seen.
#[derive(Clone, Copy, Debug, PartialEq, Eq, Structural)]
pub enum Decision {
    Forward,
    Drop,
}

/// One packet of the link.
#[derive(Debug)]
pub struct Packet {
    pub proxy_type: ProxyType,
    pub channel: u8,
    pub packet_flags: u8,
    pub final_length: Option<u32>,
    pub message_id: u16,
    pub payload: Vec<u8>,
}

/// The model of a [`Packet`].
pub ghost struct PacketView {
    pub proxy_type: ProxyType,
    pub channel: u8,
    pub packet_flags: u8,
    pub final_length: Option<u32>,
    pub message_id: u16,
    pub payload: Seq<u8>,
}

impl View for Packet {
    type V = PacketView;

    open spec fn view(&self) -> PacketView {
        PacketView {
            proxy_type: self.proxy_type,
            channel: self.channel,
            packet_flags: self.packet_flags,
            final_length: self.final_length,
            message_id: self.message_id,
            payload: self.payload@,
        }
    }
}

/// The models of a list of packets.
pub open spec fn packets(list: Seq<Packet>) -> Seq<PacketView> {
    list.map_values(|p: Packet| p@)
}

impl PacketView {
    /// The packet carries a control message.
    pub open spec fn is_control(self) -> bool {
        self.packet_flags & CONTROL_FLAG != 0
    }

    /// The packet begins a frame.
    pub open spec fn is_first(self) -> bool {
        self.packet_flags & FRAME_TYPE_FIRST != 0
    }

    /// The packet ends a frame.
    pub open spec fn is_last(self) -> bool {
        self.packet_flags & FRAME_TYPE_LAST != 0
    }
}

/// The message id that a control payload begins with.
pub open spec fn control_id(payload: Seq<u8>) -> int {
    payload[0] * 256 + payload[1]
}

/// The short name of a direction.
pub open spec fn direction_name(pt: ProxyType) -> Seq<char> {
    match pt {
        ProxyType::HeadUnit => "HU"@,
        ProxyType::MobileDevice => "MD"@,
    }
}

/// The short name of a direction, for a log line.
pub fn dir_str(pt: ProxyType) -> (r: &'static str)
    ensures
        r@ == direction_name(pt),
{
    match pt {
        ProxyType::HeadUnit => "HU",
        ProxyType::MobileDevice => "MD",
    }
}

/// Whether `bytes` begins with `prefix`.
pub fn begins_with(bytes: &Vec<u8>, prefix: &[u8]) -> (r: bool)
    ensures
        r == prefix@.is_prefix_of(bytes@),
{
    if prefix.len() > bytes.len() {
        return false;
    }
    let mut i: usize = 0;
    while i < prefix.len()
        invariant
            i <= prefix@.len() <= bytes@.len(),
            forall|j: int| 0 <= j < i ==> bytes@[j] == #[trigger] prefix@[j],
        decreases prefix@.len() - i,
    {
        if bytes[i] != prefix[i] {
            return false;
        }
        i = i + 1;
    }
    assert(prefix@ == bytes@.subrange(0, prefix@.len() as int));
    true
}

/// Whether two byte strings are equal.
pub fn same_bytes(a: &[u8], b: &[u8]) -> (r: bool)
    ensures
        r == (a@ == b@),
{
    if a.len() != b.len() {
        return false;
    }
    let mut i: usize = 0;
    while i < a.len()
        invariant
            i <= a@.len() == b@.len(),
            forall|j: int| 0 <= j < i ==> a@[j] == #[trigger] b@[j],
        decreases a@.len() - i,
    {
        if a[i] != b[i] {
            return false;
        }
        i = i + 1;
    }
    assert(a@ == b@);
    true
}

} // verus!
