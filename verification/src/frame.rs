//! The frame codec: a destination/source address pair, a 16-bit type tag, an
//! optional UTF-8 payload and an opaque 32-bit trailer, laid out flat as
//! `dest(6) | src(6) | type(2, big-endian) | payload(N) | trailer(4, big-endian)`.

use crate::errors::DecodeError;
use crate::macaddr::MacAddress;
use vstd::prelude::*;
use vstd::string::*;
use vstd::utf8::decode_utf8;
use vstd::utf8::encode_utf8;
use vstd::utf8::encode_utf8_decode_utf8;
use vstd::utf8::encode_utf8_valid_utf8;
use vstd::utf8::valid_utf8;

verus! {

/// The shortest encodable frame: both addresses, the type tag and the
/// trailer, with an empty payload.
pub const MIN_FRAME_LEN: usize = 18;

/// Big-endian bytes of a 16-bit value.
pub open spec fn be16(x: u16) -> Seq<u8> {
    seq![(x / 256) as u8, (x % 256) as u8]
}

/// Big-endian bytes of a 32-bit value.
pub open spec fn be32(x: u32) -> Seq<u8> {
    seq![
        (x / 0x1000000) as u8,
        ((x / 0x10000) % 256) as u8,
        ((x / 256) % 256) as u8,
        (x % 256) as u8,
    ]
}

/// The 16-bit value read back from two big-endian bytes.
pub open spec fn be16_val(b: Seq<u8>) -> nat {
    (b[0] as nat) * 256 + (b[1] as nat)
}

/// The 32-bit value read back from four big-endian bytes.
pub open spec fn be32_val(b: Seq<u8>) -> nat {
    (b[0] as nat) * 0x1000000 + (b[1] as nat) * 0x10000 + (b[2] as nat) * 256 + (b[3] as nat)
}

/// The payload bytes of a message: its UTF-8 encoding, or none at all.
pub open spec fn payload_bytes(message: Option<Seq<char>>) -> Seq<u8> {
    match message {
        Some(t) => encode_utf8(t),
        None => Seq::empty(),
    }
}

/// The full wire form of a frame.
pub open spec fn frame_bytes(
    dest: Seq<u8>,
    src: Seq<u8>,
    ethernet_type: u16,
    message: Option<Seq<char>>,
    checksum: u32,
) -> Seq<u8> {
    dest + src + be16(ethernet_type) + payload_bytes(message) + be32(checksum)
}

/// The payload region of an encoded frame: everything between the fixed
/// header and the trailer.
pub open spec fn payload_of(b: Seq<u8>) -> Seq<u8> {
    b.subrange(14, b.len() - 4)
}

/// A link frame. The trailer (`checksum`) is carried opaquely: it is never
/// computed from the payload.
#[derive(Debug)]
pub struct Frame {
    pub dest_mac: MacAddress,
    pub src_mac: MacAddress,
    pub ethernet_type: u16,
    pub message: Option<String>,
    pub checksum: u32,
}

impl Frame {
    /// The message text, if any, as a sequence of characters.
    pub open spec fn message_view(&self) -> Option<Seq<char>> {
        match self.message {
            Some(m) => Some(m@),
            None => None,
        }
    }

    /// Builds a frame carrying the given message.
    pub fn new(
        dest_mac: &MacAddress,
        src_mac: &MacAddress,
        ethernet_type: u16,
        message: &String,
        checksum: u32,
    ) -> (r: Self)
        ensures
            r.dest_mac@ == dest_mac@,
            r.src_mac@ == src_mac@,
            r.ethernet_type == ethernet_type,
            r.message_view() == Some(message@),
            r.checksum == checksum,
    {
        Frame {
            dest_mac: *dest_mac,
            src_mac: *src_mac,
            ethernet_type,
            message: Some(message.clone()),
            checksum,
        }
    }

    /// Encodes the frame into its wire form: a plain concatenation with no
    /// length prefix and no escaping.
    pub fn to_buffer(&self) -> (buffer: Vec<u8>)
        ensures
            buffer@ == frame_bytes(
                self.dest_mac@,
                self.src_mac@,
                self.ethernet_type,
                self.message_view(),
                self.checksum,
            ),
    {
        let mut buffer: Vec<u8> = Vec::new();
        buffer.push(self.dest_mac.address[0]);
        buffer.push(self.dest_mac.address[1]);
        buffer.push(self.dest_mac.address[2]);
        buffer.push(self.dest_mac.address[3]);
        buffer.push(self.dest_mac.address[4]);
        buffer.push(self.dest_mac.address[5]);
        buffer.push(self.src_mac.address[0]);
        buffer.push(self.src_mac.address[1]);
        buffer.push(self.src_mac.address[2]);
        buffer.push(self.src_mac.address[3]);
        buffer.push(self.src_mac.address[4]);
        buffer.push(self.src_mac.address[5]);
        buffer.push((self.ethernet_type / 256) as u8);
        buffer.push((self.ethernet_type % 256) as u8);
        let ghost head = buffer@;
        if let Some(m) = &self.message {
            let bytes = m.as_str().as_bytes_vec();
            let mut k: usize = 0;
            while k < bytes.len()
                invariant
                    k <= bytes@.len(),
                    buffer@ == head + bytes@.subrange(0, k as int),
                decreases bytes@.len() - k,
            {
                buffer.push(bytes[k]);
                proof {
                    assert(head + bytes@.subrange(0, k as int) + seq![bytes@[k as int]] =~= head
                        + bytes@.subrange(0, k as int + 1));
                }
                k = k + 1;
            }
            proof {
                assert(bytes@.subrange(0, bytes@.len() as int) =~= bytes@);
            }
        }
        buffer.push((self.checksum / 0x1000000) as u8);
        buffer.push(((self.checksum / 0x10000) % 256) as u8);
        buffer.push(((self.checksum / 256) % 256) as u8);
        buffer.push((self.checksum % 256) as u8);
        proof {
            assert(buffer@ =~= frame_bytes(
                self.dest_mac@,
                self.src_mac@,
                self.ethernet_type,
                self.message_view(),
                self.checksum,
            ));
        }
        buffer
    }

    /// Decodes a wire buffer. A buffer below the minimum length is rejected;
    /// a payload that is not well-formed UTF-8 degrades to an absent message
    /// while the rest of the frame still decodes.
    pub fn from_buffer(buffer: &[u8]) -> (r: Result<Self, DecodeError>)
        ensures
            r == Err::<Self, DecodeError>(DecodeError::TooShort) <==> buffer@.len() < 18,
            r matches Ok(f) ==> {
                &&& f.dest_mac@ == buffer@.subrange(0, 6)
                &&& f.src_mac@ == buffer@.subrange(6, 12)
                &&& f.ethernet_type as nat == be16_val(buffer@.subrange(12, 14))
                &&& f.checksum as nat == be32_val(
                    buffer@.subrange(buffer@.len() - 4, buffer@.len() as int),
                )
                &&& (match f.message_view() {
                    Some(t) => valid_utf8(payload_of(buffer@)) && t == decode_utf8(
                        payload_of(buffer@),
                    ),
                    None => !valid_utf8(payload_of(buffer@)),
                })
            },
    {
        let n = buffer.len();
        if n < MIN_FRAME_LEN {
            return Err(DecodeError::TooShort);
        }
        let dest_mac = MacAddress {
            address: [buffer[0], buffer[1], buffer[2], buffer[3], buffer[4], buffer[5]],
        };
        let src_mac = MacAddress {
            address: [buffer[6], buffer[7], buffer[8], buffer[9], buffer[10], buffer[11]],
        };
        proof {
            assert(dest_mac@ =~= buffer@.subrange(0, 6));
            assert(src_mac@ =~= buffer@.subrange(6, 12));
        }
        let ethernet_type: u16 = (buffer[12] as u16) * 256 + (buffer[13] as u16);
        let mut payload: Vec<u8> = Vec::new();
        let mut k: usize = 14;
        while k < n - 4
            invariant
                n == buffer@.len(),
                n >= 18,
                14 <= k <= n - 4,
                payload@ == buffer@.subrange(14, k as int),
            decreases n - 4 - k,
        {
            payload.push(buffer[k]);
            proof {
                assert(buffer@.subrange(14, k as int) + seq![buffer@[k as int]] =~= buffer@
                    .subrange(14, k as int + 1));
            }
            k = k + 1;
        }
        let message = bytes_to_string(payload);
        let checksum: u32 = (buffer[n - 4] as u32) * 0x1000000 + (buffer[n - 3] as u32) * 0x10000
            + (buffer[n - 2] as u32) * 256 + (buffer[n - 1] as u32);
        let f = Frame { dest_mac, src_mac, ethernet_type, message, checksum };
        proof {
            assert(payload_of(buffer@) == buffer@.subrange(14, n - 4));
            assert(f.ethernet_type as nat == be16_val(buffer@.subrange(12, 14)));
            assert(f.checksum as nat == be32_val(buffer@.subrange(n - 4, n as int)));
        }
        Ok(f)
    }
}

/// Relies on `String::from_utf8`: it succeeds exactly on well-formed UTF-8
/// and yields the text that the bytes encode.
#[verifier::external_body]
fn bytes_to_string(bytes: Vec<u8>) -> (r: Option<String>)
    ensures
        r matches Some(s) ==> valid_utf8(bytes@) && s@ == decode_utf8(bytes@),
        r is None ==> !valid_utf8(bytes@),
{
    match String::from_utf8(bytes) {
        Ok(s) => Some(s),
        Err(_) => None,
    }
}

/// Law: decoding an encoded frame reproduces the destination, source, type
/// tag, trailer and message exactly; an absent message decodes as the empty
/// text. Holds for every trailer value handed to the encoder.
pub proof fn lemma_frame_roundtrip(
    dest: Seq<u8>,
    src: Seq<u8>,
    ethernet_type: u16,
    message: Option<Seq<char>>,
    checksum: u32,
)
    requires
        dest.len() == 6,
        src.len() == 6,
    ensures
        ({
            let b = frame_bytes(dest, src, ethernet_type, message, checksum);
            &&& b.len() == 18 + payload_bytes(message).len()
            &&& b.subrange(0, 6) == dest
            &&& b.subrange(6, 12) == src
            &&& be16_val(b.subrange(12, 14)) == ethernet_type as nat
            &&& be32_val(b.subrange(b.len() - 4, b.len() as int)) == checksum as nat
            &&& payload_of(b) == payload_bytes(message)
            &&& valid_utf8(payload_of(b))
            &&& decode_utf8(payload_of(b)) == (match message {
                Some(t) => t,
                None => Seq::<char>::empty(),
            })
        }),
{
    broadcast use encode_utf8_valid_utf8;
    broadcast use encode_utf8_decode_utf8;

    let b = frame_bytes(dest, src, ethernet_type, message, checksum);
    let p = payload_bytes(message);
    assert(b.len() == 18 + p.len());
    assert(b.subrange(0, 6) =~= dest);
    assert(b.subrange(6, 12) =~= src);
    assert(b.subrange(12, 14) =~= be16(ethernet_type));
    assert(b.subrange(b.len() - 4, b.len() as int) =~= be32(checksum));
    assert(payload_of(b) =~= p);
    let x = ethernet_type;
    assert((x / 256) < 256);
    assert(be16_val(be16(x)) == (x / 256) * 256 + (x % 256));
    let y = checksum;
    assert((y / 0x1000000) * 0x1000000 + ((y / 0x10000) % 256) * 0x10000 + ((y / 256) % 256) * 256
        + (y % 256) == y) by (bit_vector);
    match message {
        Some(t) => {
            assert(valid_utf8(encode_utf8(t)));
            assert(decode_utf8(encode_utf8(t)) == t);
        },
        None => {
            assert(p =~= encode_utf8(Seq::<char>::empty()));
            assert(valid_utf8(p));
            assert(decode_utf8(p) =~= Seq::<char>::empty());
        },
    }
}

} // verus!
