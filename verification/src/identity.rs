use vstd::prelude::*;

verus! {

use vstd::utf8::{
    encode_utf8, valid_utf8, decode_utf8, encode_utf8_decode_utf8, encode_utf8_valid_utf8,
};
use vstd::slice::{slice_subrange, slice_to_vec};
use vstd::arithmetic::div_mod::{lemma_fundamental_div_mod, lemma_div_denominator};

/// Error produced when a wire payload does not hold what the protocol
/// expects.
#[derive(Clone, Copy, Debug, PartialEq, Eq, Structural)]
pub enum ProtocolError {
    /// The bytes are not a well-formed identification payload.
    Malformed,
}

/// The mathematical content of an `Identification` payload.
pub struct IdentificationView {
    pub username: Seq<char>,
    pub public_key: Seq<u8>,
}

/// Identity payload exchanged as the first binary frame of a session,
/// serialized in a binary map format (CBOR shape): a two-entry map with
/// text keys, the username as a text string and the key material as a
/// byte string.
pub struct Identification {
    /// The username associated with this identity.
    pub username: String,
    /// DER-encoded RSA public key bytes for transport and verification.
    pub public_key: Vec<u8>,
}

impl View for Identification {
    type V = IdentificationView;

    open spec fn view(&self) -> IdentificationView {
        IdentificationView { username: self.username@, public_key: self.public_key@ }
    }
}

/// The header byte of the map that carries the two fields.
pub open spec fn spec_map_byte() -> u8 {
    0xa2
}

/// The encoded text key `username`: a nine-byte unit, one header byte for a
/// text string of length eight and then the letters.
pub open spec fn spec_username_key() -> Seq<u8> {
    seq![0x68u8, 0x75, 0x73, 0x65, 0x72, 0x6e, 0x61, 0x6d, 0x65]
}

/// The encoded text key `public_key`: a header byte for a text string of
/// length ten and then the letters.
pub open spec fn spec_public_key_key() -> Seq<u8> {
    seq![0x6au8, 0x70, 0x75, 0x62, 0x6c, 0x69, 0x63, 0x5f, 0x6b, 0x65, 0x79]
}

/// The canonical header announcing a string of `n` content bytes. `base`
/// selects the kind: 0x40 for byte strings, 0x60 for text strings. The
/// shortest form that holds `n` is always used.
pub open spec fn spec_header(base: u8, n: nat) -> Seq<u8>
    recommends
        base == 0x40 || base == 0x60,
{
    if n < 24 {
        seq![(base + n) as u8]
    } else if n < 0x100 {
        seq![(base + 24) as u8, n as u8]
    } else if n < 0x10000 {
        seq![(base + 25) as u8, (n / 0x100) as u8, (n % 0x100) as u8]
    } else if n < 0x100000000 {
        seq![
            (base + 26) as u8,
            (n / 0x1000000) as u8,
            ((n / 0x10000) % 0x100) as u8,
            ((n / 0x100) % 0x100) as u8,
            (n % 0x100) as u8,
        ]
    } else {
        seq![
            (base + 27) as u8,
            ((n / 0x100000000000000) % 0x100) as u8,
            ((n / 0x1000000000000) % 0x100) as u8,
            ((n / 0x10000000000) % 0x100) as u8,
            ((n / 0x100000000) % 0x100) as u8,
            ((n / 0x1000000) % 0x100) as u8,
            ((n / 0x10000) % 0x100) as u8,
            ((n / 0x100) % 0x100) as u8,
            (n % 0x100) as u8,
        ]
    }
}

/// The serialized form of an identification payload: the two-entry map, the
/// `username` key with the UTF-8 bytes of the username as a text string, and
/// the `public_key` key with the key material as a byte string.
pub open spec fn spec_encode_identification(username: Seq<char>, public_key: Seq<u8>) -> Seq<u8> {
    let ub = encode_utf8(username);
    seq![spec_map_byte()] + spec_username_key() + spec_header(0x60, ub.len()) + ub
        + spec_public_key_key() + spec_header(0x40, public_key.len()) + public_key
}

/// Appends every byte of `data` to `out`.
fn push_bytes(out: &mut Vec<u8>, data: &[u8])
    ensures
        final(out)@ == old(out)@ + data@,
{
    let mut i: usize = 0;
    while i < data.len()
        invariant
            i <= data@.len(),
            out@ == old(out)@ + data@.subrange(0, i as int),
        decreases data@.len() - i,
    {
        out.push(data[i]);
        proof {
            assert(old(out)@ + data@.subrange(0, i as int + 1) =~= (old(out)@ + data@.subrange(
                0,
                i as int,
            )).push(data@[i as int]));
        }
        i += 1;
    }
    proof {
        assert(data@.subrange(0, data@.len() as int) =~= data@);
    }
}

/// Appends the canonical header announcing `n` content bytes of the string
/// kind selected by `base`.
fn push_header(out: &mut Vec<u8>, base: u8, n: usize)
    requires
        base == 0x40 || base == 0x60,
    ensures
        final(out)@ == old(out)@ + spec_header(base, n as nat),
{
    let m: u64 = n as u64;
    if m < 24 {
        out.push(base + (m as u8));
        proof {
            assert(out@ =~= old(out)@ + spec_header(base, n as nat));
        }
    } else if m < 0x100 {
        out.push(base + 24);
        out.push(m as u8);
        proof {
            assert(out@ =~= old(out)@ + spec_header(base, n as nat));
        }
    } else if m < 0x10000 {
        out.push(base + 25);
        out.push((m / 0x100) as u8);
        out.push((m % 0x100) as u8);
        proof {
            assert(out@ =~= old(out)@ + spec_header(base, n as nat));
        }
    } else if m < 0x100000000 {
        out.push(base + 26);
        out.push((m / 0x1000000) as u8);
        out.push(((m / 0x10000) % 0x100) as u8);
        out.push(((m / 0x100) % 0x100) as u8);
        out.push((m % 0x100) as u8);
        proof {
            assert(out@ =~= old(out)@ + spec_header(base, n as nat));
        }
    } else {
        out.push(base + 27);
        out.push(((m / 0x100000000000000) % 0x100) as u8);
        out.push(((m / 0x1000000000000) % 0x100) as u8);
        out.push(((m / 0x10000000000) % 0x100) as u8);
        out.push(((m / 0x100000000) % 0x100) as u8);
        out.push(((m / 0x1000000) % 0x100) as u8);
        out.push(((m / 0x10000) % 0x100) as u8);
        out.push(((m / 0x100) % 0x100) as u8);
        out.push((m % 0x100) as u8);
        proof {
            assert(out@ =~= old(out)@ + spec_header(base, n as nat));
        }
    }
}

impl Identification {
    /// Serializes the identification payload; the encoding is canonical, so
    /// serialization never fails.
    pub fn to_bytes(&self) -> (r: Result<Vec<u8>, ProtocolError>)
        ensures
            r matches Ok(v) && v@ == spec_encode_identification(self.username@, self.public_key@),
    {
        let mut out: Vec<u8> = Vec::new();
        out.push(0xa2);
        let username_key: [u8; 9] = [0x68, 0x75, 0x73, 0x65, 0x72, 0x6e, 0x61, 0x6d, 0x65];
        push_bytes(&mut out, username_key.as_slice());
        let ub = self.username.as_str().as_bytes_vec();
        push_header(&mut out, 0x60, ub.len());
        push_bytes(&mut out, ub.as_slice());
        let public_key_key: [u8; 11] = [
            0x6a,
            0x70,
            0x75,
            0x62,
            0x6c,
            0x69,
            0x63,
            0x5f,
            0x6b,
            0x65,
            0x79,
        ];
        push_bytes(&mut out, public_key_key.as_slice());
        push_header(&mut out, 0x40, self.public_key.len());
        push_bytes(&mut out, self.public_key.as_slice());
        proof {
            assert(username_key@ =~= spec_username_key());
            assert(public_key_key@ =~= spec_public_key_key());
            assert(ub@ == encode_utf8(self.username@));
            assert(out@ =~= spec_encode_identification(self.username@, self.public_key@));
        }
        Ok(out)
    }
}

/// Reads a canonical string header at `pos`: the announced content length
/// and the position where the content starts, provided the shortest header
/// form was used and the announced content fits in the remaining bytes.
pub open spec fn spec_read_len(bytes: Seq<u8>, pos: int, base: u8) -> Option<(nat, int)>
    recommends
        base == 0x40 || base == 0x60,
        0 <= pos,
{
    if pos < bytes.len() && base <= bytes[pos] {
        let ai = bytes[pos] - base;
        if ai < 24 {
            let n = ai as nat;
            if pos + 1 + n <= bytes.len() {
                Some((n, pos + 1))
            } else {
                None
            }
        } else if ai == 24 {
            if pos + 2 <= bytes.len() {
                let n = bytes[pos + 1] as nat;
                if 24 <= n && pos + 2 + n <= bytes.len() {
                    Some((n, pos + 2))
                } else {
                    None
                }
            } else {
                None
            }
        } else if ai == 25 {
            if pos + 3 <= bytes.len() {
                let n = (bytes[pos + 1] * 0x100 + bytes[pos + 2]) as nat;
                if 0x100 <= n && pos + 3 + n <= bytes.len() {
                    Some((n, pos + 3))
                } else {
                    None
                }
            } else {
                None
            }
        } else if ai == 26 {
            if pos + 5 <= bytes.len() {
                let n = (bytes[pos + 1] * 0x1000000 + bytes[pos + 2] * 0x10000 + bytes[pos + 3]
                    * 0x100 + bytes[pos + 4]) as nat;
                if 0x10000 <= n && pos + 5 + n <= bytes.len() {
                    Some((n, pos + 5))
                } else {
                    None
                }
            } else {
                None
            }
        } else if ai == 27 {
            if pos + 9 <= bytes.len() {
                let n = (bytes[pos + 1] * 0x100000000000000 + bytes[pos + 2] * 0x1000000000000
                    + bytes[pos + 3] * 0x10000000000 + bytes[pos + 4] * 0x100000000 + bytes[pos + 5]
                    * 0x1000000 + bytes[pos + 6] * 0x10000 + bytes[pos + 7] * 0x100 + bytes[pos
                    + 8]) as nat;
                if 0x100000000 <= n && pos + 9 + n <= bytes.len() {
                    Some((n, pos + 9))
                } else {
                    None
                }
            } else {
                None
            }
        } else {
            None
        }
    } else {
        None
    }
}

/// The payload an identification frame decodes to, when the frame is a
/// canonical encoding; anything else decodes to nothing.
pub open spec fn spec_decode_identification(bytes: Seq<u8>) -> Option<IdentificationView> {
    if bytes.len() >= 10 && bytes[0] == spec_map_byte() && bytes.subrange(1, 10)
        == spec_username_key() {
        match spec_read_len(bytes, 10, 0x60) {
            Some((ulen, upos)) => {
                let ub = bytes.subrange(upos, upos + ulen);
                if valid_utf8(ub) {
                    let q = upos + ulen;
                    if q + 11 <= bytes.len() && bytes.subrange(q, q + 11)
                        == spec_public_key_key() {
                        match spec_read_len(bytes, q + 11, 0x40) {
                            Some((plen, ppos)) => {
                                if ppos + plen == bytes.len() {
                                    Some(
                                        IdentificationView {
                                            username: decode_utf8(ub),
                                            public_key: bytes.subrange(ppos, ppos + plen),
                                        },
                                    )
                                } else {
                                    None
                                }
                            },
                            None => None,
                        }
                    } else {
                        None
                    }
                } else {
                    None
                }
            },
            None => None,
        }
    } else {
        None
    }
}

/// Reads a canonical string header, reporting the announced length and the
/// content start.
fn read_len(bytes: &[u8], pos: usize, base: u8) -> (r: Option<(usize, usize)>)
    requires
        base == 0x40 || base == 0x60,
    ensures
        (match r {
            Some(v) => spec_read_len(bytes@, pos as int, base) == Some((v.0 as nat, v.1 as int))
                && pos < v.1 && v.1 + v.0 <= bytes@.len(),
            None => spec_read_len(bytes@, pos as int, base) is None,
        }),
{
    if pos >= bytes.len() {
        return None;
    }
    let b = bytes[pos];
    if b < base {
        return None;
    }
    let ai = b - base;
    if ai < 24 {
        let n = ai as usize;
        if n <= bytes.len() - (pos + 1) {
            Some((n, pos + 1))
        } else {
            None
        }
    } else if ai == 24 {
        if bytes.len() - pos >= 2 {
            let n = bytes[pos + 1] as usize;
            if n >= 24 && n <= bytes.len() - (pos + 2) {
                Some((n, pos + 2))
            } else {
                None
            }
        } else {
            None
        }
    } else if ai == 25 {
        if bytes.len() - pos >= 3 {
            let n = (bytes[pos + 1] as usize) * 0x100 + (bytes[pos + 2] as usize);
            if n >= 0x100 && n <= bytes.len() - (pos + 3) {
                Some((n, pos + 3))
            } else {
                None
            }
        } else {
            None
        }
    } else if ai == 26 {
        if bytes.len() - pos >= 5 {
            let n64 = (bytes[pos + 1] as u64) * 0x1000000 + (bytes[pos + 2] as u64) * 0x10000 + (
            bytes[pos + 3] as u64) * 0x100 + (bytes[pos + 4] as u64);
            if n64 >= 0x10000 && n64 <= (bytes.len() - (pos + 5)) as u64 {
                Some((n64 as usize, pos + 5))
            } else {
                None
            }
        } else {
            None
        }
    } else if ai == 27 {
        if bytes.len() - pos >= 9 {
            let n64 = (bytes[pos + 1] as u64) * 0x100000000000000 + (bytes[pos + 2] as u64)
                * 0x1000000000000 + (bytes[pos + 3] as u64) * 0x10000000000 + (bytes[pos
                + 4] as u64) * 0x100000000 + (bytes[pos + 5] as u64) * 0x1000000 + (bytes[pos
                + 6] as u64) * 0x10000 + (bytes[pos + 7] as u64) * 0x100 + (bytes[pos + 8] as u64);
            if n64 >= 0x100000000 && n64 <= (bytes.len() - (pos + 9)) as u64 {
                Some((n64 as usize, pos + 9))
            } else {
                None
            }
        } else {
            None
        }
    } else {
        None
    }
}

impl Identification {
    /// Deserializes an identification payload; succeeds exactly on canonical
    /// encodings of some username and key material.
    #[verifier::loop_isolation(false)]
    pub fn from_bytes(bytes: &[u8]) -> (r: Result<Self, ProtocolError>)
        ensures
            r matches Ok(id) ==> spec_decode_identification(bytes@) == Some(id@),
            r is Err ==> spec_decode_identification(bytes@) is None,
    {
        let username_key: [u8; 9] = [0x68, 0x75, 0x73, 0x65, 0x72, 0x6e, 0x61, 0x6d, 0x65];
        let public_key_key: [u8; 11] = [
            0x6a,
            0x70,
            0x75,
            0x62,
            0x6c,
            0x69,
            0x63,
            0x5f,
            0x6b,
            0x65,
            0x79,
        ];
        proof {
            assert(username_key@ =~= spec_username_key());
            assert(public_key_key@ =~= spec_public_key_key());
        }
        if bytes.len() < 10 {
            return Err(ProtocolError::Malformed);
        }
        if bytes[0] != 0xa2 {
            return Err(ProtocolError::Malformed);
        }
        let mut i: usize = 0;
        while i < 9
            invariant
                i <= 9,
                bytes@.len() >= 10,
                username_key@ == spec_username_key(),
                forall|j: int| 0 <= j < i ==> bytes@[1 + j] == spec_username_key()[j],
            decreases 9 - i,
        {
            if bytes[1 + i] != username_key[i] {
                proof {
                    assert(bytes@.subrange(1, 10)[i as int] == bytes@[1 + i as int]);
                }
                return Err(ProtocolError::Malformed);
            }
            i += 1;
        }
        proof {
            assert(bytes@.subrange(1, 10) =~= spec_username_key());
        }
        let (ulen, upos) = match read_len(bytes, 10, 0x60) {
            Some(v) => v,
            None => {
                return Err(ProtocolError::Malformed);
            },
        };
        let ub = slice_to_vec(slice_subrange(bytes, upos, upos + ulen));
        let ghost ub_bytes = bytes@.subrange(upos as int, upos as int + ulen as int);
        let username = match crate::text::bytes_to_string(ub) {
            Some(s) => s,
            None => {
                return Err(ProtocolError::Malformed);
            },
        };
        let q = upos + ulen;
        if bytes.len() - q < 11 {
            return Err(ProtocolError::Malformed);
        }
        let mut k: usize = 0;
        while k < 11
            invariant
                k <= 11,
                q + 11 <= bytes@.len(),
                public_key_key@ == spec_public_key_key(),
                forall|j: int| 0 <= j < k ==> bytes@[q + j] == spec_public_key_key()[j],
            decreases 11 - k,
        {
            proof {
                assert(q + k < bytes@.len());
            }
            if bytes[q + k] != public_key_key[k] {
                proof {
                    assert(bytes@.subrange(q as int, q as int + 11)[k as int] == bytes@[q
                        + k as int]);
                    assert(bytes@.subrange(q as int, q as int + 11) != spec_public_key_key());
                }
                return Err(ProtocolError::Malformed);
            }
            k += 1;
        }
        proof {
            assert(bytes@.subrange(q as int, q as int + 11) =~= spec_public_key_key());
        }
        let (plen, ppos) = match read_len(bytes, q + 11, 0x40) {
            Some(v) => v,
            None => {
                return Err(ProtocolError::Malformed);
            },
        };
        if ppos + plen != bytes.len() {
            return Err(ProtocolError::Malformed);
        }
        let public_key = slice_to_vec(slice_subrange(bytes, ppos, ppos + plen));
        proof {
            encode_utf8_decode_utf8(username@);
            assert(decode_utf8(ub_bytes) == username@);
        }
        Ok(Identification { username, public_key })
    }
}

proof fn lemma_recompose2(n: nat)
    requires
        n < 0x10000,
    ensures
        (n / 0x100) * 0x100 + (n % 0x100) == n,
{
    lemma_fundamental_div_mod(n as int, 0x100);
}

proof fn lemma_recompose4(n: nat)
    requires
        n < 0x100000000,
    ensures
        (n / 0x1000000) * 0x1000000 + ((n / 0x10000) % 0x100) * 0x10000 + ((n / 0x100) % 0x100)
            * 0x100 + (n % 0x100) == n,
{
    lemma_fundamental_div_mod(n as int, 0x100);
    lemma_div_denominator(n as int, 0x100, 0x100);
    lemma_fundamental_div_mod(n as int / 0x100, 0x100);
    lemma_div_denominator(n as int, 0x10000, 0x100);
    lemma_fundamental_div_mod(n as int / 0x10000, 0x100);
}

proof fn lemma_recompose8(n: nat)
    requires
        n < 0x10000000000000000,
    ensures
        ((n / 0x100000000000000) % 0x100) * 0x100000000000000 + ((n / 0x1000000000000) % 0x100)
            * 0x1000000000000 + ((n / 0x10000000000) % 0x100) * 0x10000000000 + ((n / 0x100000000)
            % 0x100) * 0x100000000 + ((n / 0x1000000) % 0x100) * 0x1000000 + ((n / 0x10000) % 0x100)
            * 0x10000 + ((n / 0x100) % 0x100) * 0x100 + (n % 0x100) == n,
{
    lemma_fundamental_div_mod(n as int, 0x100);
    lemma_div_denominator(n as int, 0x100, 0x100);
    lemma_fundamental_div_mod(n as int / 0x100, 0x100);
    lemma_div_denominator(n as int, 0x10000, 0x100);
    lemma_fundamental_div_mod(n as int / 0x10000, 0x100);
    lemma_div_denominator(n as int, 0x1000000, 0x100);
    lemma_fundamental_div_mod(n as int / 0x1000000, 0x100);
    lemma_div_denominator(n as int, 0x100000000, 0x100);
    lemma_fundamental_div_mod(n as int / 0x100000000, 0x100);
    lemma_div_denominator(n as int, 0x10000000000, 0x100);
    lemma_fundamental_div_mod(n as int / 0x10000000000, 0x100);
    lemma_div_denominator(n as int, 0x1000000000000, 0x100);
    lemma_fundamental_div_mod(n as int / 0x1000000000000, 0x100);
    vstd::arithmetic::div_mod::lemma_small_mod((n / 0x100000000000000) as nat, 0x100);
}

/// A canonical header standing at `pos`, with its announced content fitting
/// in the remaining bytes, reads back as the length it was made from.
proof fn lemma_read_header(bytes: Seq<u8>, pos: int, base: u8, n: nat)
    requires
        base == 0x40 || base == 0x60,
        0 <= pos,
        n < 0x10000000000000000,
        pos + spec_header(base, n).len() + n <= bytes.len(),
        bytes.subrange(pos, pos + spec_header(base, n).len() as int) == spec_header(base, n),
    ensures
        spec_read_len(bytes, pos, base) == Some((n, pos + spec_header(base, n).len() as int)),
{
    let h = spec_header(base, n);
    let sub = bytes.subrange(pos, pos + h.len() as int);
    assert(forall|j: int| 0 <= j < h.len() ==> #[trigger] bytes[pos + j] == h[j]) by {
        assert(forall|j: int| 0 <= j < h.len() ==> sub[j] == #[trigger] bytes[pos + j]);
    }
    if n < 24 {
        assert(bytes[pos + 0] == h[0]);
    } else if n < 0x100 {
        assert(bytes[pos + 0] == h[0]);
        assert(bytes[pos + 1] == h[1]);
    } else if n < 0x10000 {
        assert(bytes[pos + 0] == h[0]);
        assert(bytes[pos + 1] == h[1]);
        assert(bytes[pos + 2] == h[2]);
        lemma_recompose2(n);
        assert(bytes[pos + 1] * 0x100 + bytes[pos + 2] == n);
    } else if n < 0x100000000 {
        assert(bytes[pos + 0] == h[0]);
        assert(bytes[pos + 1] == h[1]);
        assert(bytes[pos + 2] == h[2]);
        assert(bytes[pos + 3] == h[3]);
        assert(bytes[pos + 4] == h[4]);
        assert(n / 0x1000000 < 0x100) by (nonlinear_arith)
            requires
                n < 0x100000000,
        ;
        lemma_recompose4(n);
        assert(bytes[pos + 1] * 0x1000000 + bytes[pos + 2] * 0x10000 + bytes[pos + 3] * 0x100
            + bytes[pos + 4] == n);
    } else {
        assert(bytes[pos + 0] == h[0]);
        assert(bytes[pos + 1] == h[1]);
        assert(bytes[pos + 2] == h[2]);
        assert(bytes[pos + 3] == h[3]);
        assert(bytes[pos + 4] == h[4]);
        assert(bytes[pos + 5] == h[5]);
        assert(bytes[pos + 6] == h[6]);
        assert(bytes[pos + 7] == h[7]);
        assert(bytes[pos + 8] == h[8]);
        lemma_recompose8(n);
        assert(bytes[pos + 1] * 0x100000000000000 + bytes[pos + 2] * 0x1000000000000 + bytes[pos
            + 3] * 0x10000000000 + bytes[pos + 4] * 0x100000000 + bytes[pos + 5] * 0x1000000
            + bytes[pos + 6] * 0x10000 + bytes[pos + 7] * 0x100 + bytes[pos + 8] == n);
    }
}

/// Encoding an identification payload and decoding the bytes again yields
/// exactly the payload that was encoded.
pub proof fn lemma_identification_round_trip(username: Seq<char>, public_key: Seq<u8>)
    requires
        encode_utf8(username).len() < 0x10000000000000000,
        public_key.len() < 0x10000000000000000,
    ensures
        spec_decode_identification(spec_encode_identification(username, public_key)) == Some(
            IdentificationView { username, public_key },
        ),
{
    let ub = encode_utf8(username);
    let h1 = spec_header(0x60, ub.len());
    let h2 = spec_header(0x40, public_key.len());
    let bytes = spec_encode_identification(username, public_key);
    assert(bytes == seq![spec_map_byte()] + spec_username_key() + h1 + ub + spec_public_key_key()
        + h2 + public_key);
    let upos = 10 + h1.len() as int;
    let q = upos + ub.len() as int;
    let ppos = q + 11 + h2.len() as int;
    assert(bytes.len() == ppos + public_key.len());
    assert(bytes[0] == spec_map_byte());
    assert(bytes.subrange(1, 10) =~= spec_username_key());
    assert(bytes.subrange(10, upos) =~= h1);
    lemma_read_header(bytes, 10, 0x60, ub.len());
    assert(spec_read_len(bytes, 10, 0x60) == Some((ub.len(), upos)));
    assert(bytes.subrange(upos, upos + ub.len() as int) =~= ub);
    encode_utf8_valid_utf8(username);
    encode_utf8_decode_utf8(username);
    assert(bytes.subrange(q, q + 11) =~= spec_public_key_key());
    assert(bytes.subrange(q + 11, ppos) =~= h2);
    lemma_read_header(bytes, q + 11, 0x40, public_key.len());
    assert(spec_read_len(bytes, q + 11, 0x40) == Some((public_key.len(), ppos)));
    assert(bytes.subrange(ppos, ppos + public_key.len() as int) =~= public_key);
}

} // verus!
