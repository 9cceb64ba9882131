//! The decisions behind the two request handlers: turning a submitted
//! address text into the one datagram payload to broadcast, and turning
//! the shared address book into the (name, address text) pairs a
//! template renders. The caller performs the socket send and the
//! markup rendering.

use vstd::prelude::*;

use crate::book::AddressBook;
use crate::codec::{mac_of_text, parse, spec_format, valid_mac_text, MalformedAddress};
use crate::packet::{encode, spec_magic_packet};

verus! {

/// The payload a wake request triggers: the magic packet for the
/// submitted address, or a rejection when the text is malformed. A
/// malformed submission yields no payload at all.
pub fn wake_packet(text: &str) -> (r: Result<Vec<u8>, MalformedAddress>)
    ensures
        r is Ok <==> valid_mac_text(text@),
        r is Ok ==> r->Ok_0@ =~= spec_magic_packet(mac_of_text(text@)),
{
    match parse(text) {
        Ok(addr) => Ok(encode(&addr)),
        Err(e) => Err(e),
    }
}

/// The rows the listing view shows: each stored entry's name beside the
/// canonical text form of its address, in storage order.
pub fn listing_rows(book: &AddressBook) -> (r: Vec<(String, String)>)
    ensures
        r@.len() == book.spec_entries().len(),
        forall|i: int|
            0 <= i < r@.len() ==> #[trigger] r@[i].0@ == book.spec_entries()[i].0 && r@[i].1@
                == spec_format(book.spec_entries()[i].1),
{
    let mut out: Vec<(String, String)> = Vec::new();
    let n = book.len_entries();
    let mut i: usize = 0;
    while i < n
        invariant
            i <= n,
            n == book.spec_entries().len(),
            out@.len() == i,
            forall|j: int|
                0 <= j < i ==> #[trigger] out@[j].0@ == book.spec_entries()[j].0 && out@[j].1@
                    == spec_format(book.spec_entries()[j].1),
        decreases n - i,
    {
        let e = book.entry(i);
        out.push((e.name.clone(), crate::codec::format(&e.address)));
        i = i + 1;
    }
    out
}

} // verus!
