//! Wake-on-LAN magic packet encoder: 6 synchronization bytes of `0xFF`
//! followed by the target hardware address repeated 16 times, 102 bytes
//! in all.

use vstd::prelude::*;

use crate::codec::HardwareAddress;

verus! {

/// The magic packet payload for six address bytes: a 102-byte sequence,
/// `0xFF` at the first six positions, then the address repeated.
pub open spec fn spec_magic_packet(mac: Seq<u8>) -> Seq<u8> {
    Seq::new(102, |i: int|
        if i < 6 {
            0xFFu8
        } else {
            mac[(i - 6) % 6]
        })
}

/// The address bytes repeated 16 times, 96 bytes in all.
pub fn extend_mac(mac: &[u8]) -> (r: Vec<u8>)
    requires
        mac@.len() == 6,
    ensures
        r@.len() == 96,
        forall|i: int| 0 <= i < 96 ==> r@[i] == mac@[i % 6],
{
    let mut out: Vec<u8> = Vec::new();
    let mut k: usize = 0;
    while k < 16
        invariant
            k <= 16,
            mac@.len() == 6,
            out@.len() == 6 * k,
            forall|i: int| 0 <= i < 6 * k ==> out@[i] == mac@[i % 6],
        decreases 16 - k,
    {
        let mut j: usize = 0;
        while j < 6
            invariant
                j <= 6,
                k < 16,
                mac@.len() == 6,
                out@.len() == 6 * k + j,
                forall|i: int| 0 <= i < 6 * k + j ==> out@[i] == mac@[i % 6],
            decreases 6 - j,
        {
            out.push(mac[j]);
            proof {
                assert((6 * k + j) % 6 == j) by (nonlinear_arith)
                    requires 0 <= j < 6 && 0 <= k,
                ;
            }
            j = j + 1;
        }
        k = k + 1;
    }
    out
}

/// The fixed-layout magic packet for a six-byte address given as a slice.
pub fn create_packet_bytes(mac: &[u8]) -> (r: Vec<u8>)
    requires
        mac@.len() == 6,
    ensures
        r@ =~= spec_magic_packet(mac@),
{
    let mut packet: Vec<u8> = Vec::new();
    let mut i: usize = 0;
    while i < 6
        invariant
            i <= 6,
            packet@.len() == i,
            forall|j: int| 0 <= j < i ==> packet@[j] == 0xFFu8,
        decreases 6 - i,
    {
        packet.push(0xFFu8);
        i = i + 1;
    }
    let mut body = extend_mac(mac);
    packet.append(&mut body);
    proof {
        assert(packet@ =~= spec_magic_packet(mac@));
    }
    packet
}

/// Encodes the magic packet for a validated hardware address:
/// deterministic and total, no failure case.
pub fn encode(addr: &HardwareAddress) -> (r: Vec<u8>)
    ensures
        r@ =~= spec_magic_packet(addr@),
{
    create_packet_bytes(addr.bytes.as_slice())
}

/// The magic packet layout, stated byte by byte: exactly 102 bytes, the
/// first six all `0xFF`, and bytes `6 + 6*k` through `11 + 6*k` equal to
/// the address for every `k` below 16.
pub proof fn lemma_magic_packet_layout(mac: Seq<u8>)
    requires
        mac.len() == 6,
    ensures
        spec_magic_packet(mac).len() == 102,
        forall|i: int| 0 <= i < 6 ==> spec_magic_packet(mac)[i] == 0xFFu8,
        forall|k: int, i: int|
            0 <= k < 16 && 0 <= i < 6 ==> #[trigger] spec_magic_packet(mac)[6 + 6 * k + i]
                == mac[i],
{
    assert forall|k: int, i: int|
        0 <= k < 16 && 0 <= i < 6 implies #[trigger] spec_magic_packet(mac)[6 + 6 * k + i]
            == mac[i] by {
        assert((6 * k + i) % 6 == i) by (nonlinear_arith)
            requires 0 <= i < 6 && 0 <= k,
        ;
    }
}

} // verus!
