//! Hardware (MAC) address codec: parsing the conventional hex-octet text
//! form and rendering the canonical lower-case colon-delimited form.

use vstd::prelude::*;

verus! {

/// A hardware address: exactly six raw bytes, passed and stored by value.
#[derive(Clone, Copy, Debug, PartialEq, Eq)]
pub struct HardwareAddress {
    pub bytes: [u8; 6],
}

impl View for HardwareAddress {
    type V = Seq<u8>;

    open spec fn view(&self) -> Seq<u8> {
        self.bytes@
    }
}

impl HardwareAddress {
    /// Whether two addresses hold the same six bytes.
    pub fn same(&self, other: &HardwareAddress) -> (r: bool)
        ensures
            r == (self@ == other@),
    {
        let r = self.bytes[0] == other.bytes[0] && self.bytes[1] == other.bytes[1]
            && self.bytes[2] == other.bytes[2] && self.bytes[3] == other.bytes[3]
            && self.bytes[4] == other.bytes[4] && self.bytes[5] == other.bytes[5];
        proof {
            if r {
                assert(self@ =~= other@);
            }
        }
        r
    }
}

/// The error returned when a text form does not decompose into exactly
/// six valid hex octets.
#[derive(Clone, Copy, Debug, PartialEq, Eq)]
pub struct MalformedAddress;

/// An octet separator in the text form: colon or hyphen.
pub open spec fn is_sep_char(c: char) -> bool {
    c == ':' || c == '-'
}

/// A hexadecimal digit, either case.
pub open spec fn is_hex_digit_char(c: char) -> bool {
    ('0' <= c && c <= '9') || ('a' <= c && c <= 'f') || ('A' <= c && c <= 'F')
}

/// Numeric value of a hexadecimal digit.
pub open spec fn hex_digit_value(c: char) -> u8 {
    if '0' <= c && c <= '9' {
        (c as u32 - '0' as u32) as u8
    } else if 'a' <= c && c <= 'f' {
        (c as u32 - 'a' as u32 + 10) as u8
    } else if 'A' <= c && c <= 'F' {
        (c as u32 - 'A' as u32 + 10) as u8
    } else {
        0
    }
}

/// What the character at position `i` of a well-formed 17-character
/// address text must be: a separator at every third position, a hex
/// digit everywhere else.
pub open spec fn mac_char_ok(s: Seq<char>, i: int) -> bool {
    if i % 3 == 2 {
        is_sep_char(s[i])
    } else {
        is_hex_digit_char(s[i])
    }
}

/// A text that decomposes into exactly six two-digit hex octets,
/// colon- or hyphen-delimited.
pub open spec fn valid_mac_text(s: Seq<char>) -> bool {
    &&& s.len() == 17
    &&& forall|i: int| 0 <= i < 17 ==> #[trigger] mac_char_ok(s, i)
}

/// Value of the octet written at positions `hi`, `lo`.
pub open spec fn octet_value(hi: char, lo: char) -> u8 {
    (hex_digit_value(hi) * 16 + hex_digit_value(lo)) as u8
}

/// The six bytes denoted by a valid address text.
pub open spec fn mac_of_text(s: Seq<char>) -> Seq<u8> {
    Seq::new(6, |k: int| octet_value(s[3 * k], s[3 * k + 1]))
}

/// The lower-case hex digit for a nibble value.
pub open spec fn hex_char_of(v: u8) -> char {
    if v == 0 {
        '0'
    } else if v == 1 {
        '1'
    } else if v == 2 {
        '2'
    } else if v == 3 {
        '3'
    } else if v == 4 {
        '4'
    } else if v == 5 {
        '5'
    } else if v == 6 {
        '6'
    } else if v == 7 {
        '7'
    } else if v == 8 {
        '8'
    } else if v == 9 {
        '9'
    } else if v == 10 {
        'a'
    } else if v == 11 {
        'b'
    } else if v == 12 {
        'c'
    } else if v == 13 {
        'd'
    } else if v == 14 {
        'e'
    } else {
        'f'
    }
}

/// The canonical text form of six bytes: lower-case hex octets joined
/// by colons, 17 characters in all.
pub open spec fn spec_format(b: Seq<u8>) -> Seq<char> {
    Seq::new(17, |i: int|
        if i % 3 == 2 {
            ':'
        } else if i % 3 == 0 {
            hex_char_of(b[i / 3] / 16)
        } else {
            hex_char_of(b[i / 3] % 16)
        })
}

/// Numeric value of one hex digit character, or `None` if it is not one.
fn hex_value(c: char) -> (r: Option<u8>)
    ensures
        r is Some <==> is_hex_digit_char(c),
        r is Some ==> r->0 == hex_digit_value(c) && r->0 < 16,
{
    if '0' <= c && c <= '9' {
        Some((c as u8) - ('0' as u8))
    } else if 'a' <= c && c <= 'f' {
        Some((c as u8) - ('a' as u8) + 10)
    } else if 'A' <= c && c <= 'F' {
        Some((c as u8) - ('A' as u8) + 10)
    } else {
        None
    }
}

/// The one-character string for a nibble value.
fn hex_digit_str(v: u8) -> (r: &'static str)
    requires
        v < 16,
    ensures
        r@.len() == 1,
        r@[0] == hex_char_of(v),
{
    proof {
        reveal_strlit("0");
        reveal_strlit("1");
        reveal_strlit("2");
        reveal_strlit("3");
        reveal_strlit("4");
        reveal_strlit("5");
        reveal_strlit("6");
        reveal_strlit("7");
        reveal_strlit("8");
        reveal_strlit("9");
        reveal_strlit("a");
        reveal_strlit("b");
        reveal_strlit("c");
        reveal_strlit("d");
        reveal_strlit("e");
        reveal_strlit("f");
    }
    match v {
        0 => "0",
        1 => "1",
        2 => "2",
        3 => "3",
        4 => "4",
        5 => "5",
        6 => "6",
        7 => "7",
        8 => "8",
        9 => "9",
        10 => "a",
        11 => "b",
        12 => "c",
        13 => "d",
        14 => "e",
        _ => "f",
    }
}

/// Renders the canonical lower-case colon-delimited form; round-trips
/// with [`parse`].
pub fn format(addr: &HardwareAddress) -> (r: String)
    ensures
        r@ == spec_format(addr@),
        r@.len() == 17,
{
    let mut s = String::new();
    let mut i: usize = 0;
    while i < 17
        invariant
            i <= 17,
            s@ =~= spec_format(addr@).take(i as int),
        decreases 17 - i,
    {
        proof {
            reveal_strlit(":");
        }
        let piece: &str = if i % 3 == 2 {
            ":"
        } else if i % 3 == 0 {
            hex_digit_str(addr.bytes[i / 3] / 16)
        } else {
            hex_digit_str(addr.bytes[i / 3] % 16)
        };
        proof {
            assert(piece@[0] == spec_format(addr@)[i as int]);
        }
        s.append(piece);
        proof {
            assert(s@ =~= spec_format(addr@).take(i + 1));
        }
        i = i + 1;
    }
    proof {
        assert(s@ =~= spec_format(addr@));
    }
    s
}

/// Parses the conventional hex-octet notation: six two-digit hex octets,
/// colon- or hyphen-delimited, case-insensitive. Fails with
/// [`MalformedAddress`] on any other shape.
pub fn parse(text: &str) -> (r: Result<HardwareAddress, MalformedAddress>)
    ensures
        r is Ok <==> valid_mac_text(text@),
        r is Ok ==> r->Ok_0@ == mac_of_text(text@),
{
    let n = text.unicode_len();
    if n != 17 {
        return Err(MalformedAddress);
    }
    let mut bytes: [u8; 6] = [0u8; 6];
    let mut k: usize = 0;
    while k < 6
        invariant
            k <= 6,
            text@.len() == 17,
            forall|i: int| 0 <= i < 3 * k && i < 17 ==> #[trigger] mac_char_ok(text@, i),
            forall|j: int| 0 <= j < k ==> bytes@[j] == octet_value(text@[3 * j], text@[3 * j + 1]),
        decreases 6 - k,
    {
        let hi = text.get_char(3 * k);
        let lo = text.get_char(3 * k + 1);
        let (h, l) = match (hex_value(hi), hex_value(lo)) {
            (Some(h), Some(l)) => (h, l),
            _ => {
                proof {
                    assert(!mac_char_ok(text@, 3 * k) || !mac_char_ok(text@, 3 * k + 1));
                }
                return Err(MalformedAddress);
            },
        };
        if k < 5 {
            let sep = text.get_char(3 * k + 2);
            if !(sep == ':' || sep == '-') {
                proof {
                    assert(!mac_char_ok(text@, 3 * k + 2));
                }
                return Err(MalformedAddress);
            }
        }
        bytes[k] = h * 16 + l;
        k = k + 1;
    }
    let addr = HardwareAddress { bytes };
    proof {
        assert(valid_mac_text(text@));
        assert(addr@ =~= mac_of_text(text@));
    }
    Ok(addr)
}

/// Parsing rejects every text that does not decompose into exactly six
/// two-digit hex octets: any length other than 17 characters, any
/// non-hex character in a digit position, and any character other than
/// a colon or hyphen in a separator position.
pub proof fn lemma_parse_rejects(s: Seq<char>)
    ensures
        s.len() != 17 ==> !valid_mac_text(s),
        forall|i: int|
            0 <= i < s.len() && !(#[trigger] mac_char_ok(s, i)) ==> !valid_mac_text(s),
{
    assert forall|i: int|
        0 <= i < s.len() && !(#[trigger] mac_char_ok(s, i)) implies !valid_mac_text(s) by {
        if valid_mac_text(s) {
            assert(mac_char_ok(s, i));
        }
    }
}

/// The codec round-trips: formatting any six bytes yields a 17-character
/// text that is valid and parses back to the same six bytes.
pub proof fn lemma_parse_format_round_trip(b: Seq<u8>)
    requires
        b.len() == 6,
    ensures
        spec_format(b).len() == 17,
        valid_mac_text(spec_format(b)),
        mac_of_text(spec_format(b)) =~= b,
{
    let s = spec_format(b);
    assert forall|i: int| 0 <= i < 17 implies #[trigger] mac_char_ok(s, i) by {
        if i % 3 != 2 {
            let v = if i % 3 == 0 { b[i / 3] / 16 } else { b[i / 3] % 16 };
            assert(v < 16);
            assert(is_hex_digit_char(hex_char_of(v)));
        }
    }
    assert forall|k: int| 0 <= k < 6 implies mac_of_text(s)[k] == b[k] by {
        let hi = b[k] / 16;
        let lo = b[k] % 16;
        assert((3 * k) % 3 == 0 && (3 * k + 1) % 3 == 1) by (nonlinear_arith);
        assert((3 * k) / 3 == k && (3 * k + 1) / 3 == k) by (nonlinear_arith);
        assert(hex_digit_value(hex_char_of(hi)) == hi);
        assert(hex_digit_value(hex_char_of(lo)) == lo);
        assert(hi * 16 + lo == b[k]) by (nonlinear_arith)
            requires hi == b[k] / 16 && lo == b[k] % 16 && b[k] < 256,
        ;
    }
}

} // verus!
