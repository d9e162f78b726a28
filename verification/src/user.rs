use vstd::prelude::*;

verus! {

use vstd::utf8::encode_utf8;
use vstd::string::StringSliceAdditionalSpecFns;
use crate::text::{bytes_to_string, lemma_ascii_bytes_valid_utf8};

/// Whether a byte may appear in a username: an ASCII letter or digit,
/// underscore, dot or dash.
pub open spec fn spec_allowed_byte(b: u8) -> bool {
    (0x30 <= b <= 0x39) || (0x41 <= b <= 0x5a) || (0x61 <= b <= 0x7a) || b == 0x5f || b == 0x2e
        || b == 0x2d
}

/// The allowed bytes of the input, in order.
pub open spec fn spec_kept(bytes: Seq<u8>) -> Seq<u8> {
    bytes.filter(|b: u8| spec_allowed_byte(b))
}

/// The sanitized form of typed input: its allowed bytes, capped at ten.
pub open spec fn spec_sanitize(bytes: Seq<u8>) -> Seq<u8> {
    if spec_kept(bytes).len() <= 10 {
        spec_kept(bytes)
    } else {
        spec_kept(bytes).take(10)
    }
}

proof fn lemma_kept_push(s: Seq<u8>, b: u8)
    ensures
        spec_kept(s.push(b)) == if spec_allowed_byte(b) {
            spec_kept(s).push(b)
        } else {
            spec_kept(s)
        },
{
    reveal(Seq::filter);
    assert(s.push(b).drop_last() =~= s);
    assert(s.push(b).last() == b);
}

proof fn lemma_kept_allowed(s: Seq<u8>)
    ensures
        forall|i: int| 0 <= i < spec_kept(s).len() ==> spec_allowed_byte(#[trigger] spec_kept(s)[i]),
{
    assert forall|i: int|
        0 <= i < spec_kept(s).len() implies spec_allowed_byte(#[trigger] spec_kept(s)[i]) by {
        s.lemma_filter_pred(|b: u8| spec_allowed_byte(b), i);
    }
}

fn allowed_byte(b: u8) -> (r: bool)
    ensures
        r == spec_allowed_byte(b),
{
    (0x30 <= b && b <= 0x39) || (0x41 <= b && b <= 0x5a) || (0x61 <= b && b <= 0x7a) || b == 0x5f
        || b == 0x2e || b == 0x2d
}

/// Sanitizes typed input into a username: keeps only the allowed bytes, at
/// most ten of them, and yields nothing when nothing allowed was typed.
#[verifier::loop_isolation(false)]
pub fn sanitize_username(typed: &str) -> (r: Option<String>)
    ensures
        (match r {
            Some(u) => encode_utf8(u@) == spec_sanitize(typed.spec_bytes()) && spec_sanitize(
                typed.spec_bytes(),
            ).len() > 0,
            None => spec_sanitize(typed.spec_bytes()).len() == 0,
        }),
{
    let bytes = typed.as_bytes();
    let mut out: Vec<u8> = Vec::new();
    proof {
        reveal(Seq::filter);
        assert(bytes@.subrange(0, 0) =~= Seq::<u8>::empty());
        assert(spec_kept(Seq::<u8>::empty()) =~= Seq::<u8>::empty());
    }
    let mut i: usize = 0;
    while i < bytes.len()
        invariant
            i <= bytes@.len(),
            out@ == spec_sanitize(bytes@.subrange(0, i as int)),
            out@.len() == if spec_kept(bytes@.subrange(0, i as int)).len() <= 10 {
                spec_kept(bytes@.subrange(0, i as int)).len()
            } else {
                10nat
            },
        decreases bytes@.len() - i,
    {
        let b = bytes[i];
        let ghost prefix = bytes@.subrange(0, i as int);
        proof {
            assert(bytes@.subrange(0, i as int + 1) =~= prefix.push(bytes@[i as int]));
            lemma_kept_push(prefix, bytes@[i as int]);
            if spec_allowed_byte(bytes@[i as int]) && spec_kept(prefix).len() >= 10 {
                assert(spec_kept(prefix).push(bytes@[i as int]).take(10) =~= spec_kept(
                    prefix,
                ).take(10));
                assert(spec_kept(prefix).take(10) =~= spec_sanitize(prefix));
            }
        }
        if allowed_byte(b) && out.len() < 10 {
            out.push(b);
        }
        i += 1;
    }
    proof {
        assert(bytes@.subrange(0, bytes@.len() as int) =~= bytes@);
    }
    if out.len() == 0 {
        return None;
    }
    proof {
        lemma_kept_allowed(bytes@);
        assert forall|j: int| 0 <= j < out@.len() implies out@[j] < 0x80 by {
            if spec_kept(bytes@).len() > 10 {
                assert(out@[j] == spec_kept(bytes@)[j]);
            }
        }
        lemma_ascii_bytes_valid_utf8(out@);
    }
    let u = bytes_to_string(out).unwrap();
    Some(u)
}

/// Yields the username the client runs under: the stored one when one
/// exists, otherwise the typed input sanitized; nothing when sanitizing
/// leaves nothing, which asks the caller to prompt again.
pub fn resolve_user(stored: Option<String>, typed: &str) -> (r: Option<String>)
    ensures
        (match stored {
            Some(u) => r == Some(u),
            None => (match r {
                Some(u) => encode_utf8(u@) == spec_sanitize(typed.spec_bytes()) && spec_sanitize(
                    typed.spec_bytes(),
                ).len() > 0,
                None => spec_sanitize(typed.spec_bytes()).len() == 0,
            }),
        }),
{
    match stored {
        Some(u) => Some(u),
        None => sanitize_username(typed),
    }
}

} // verus!
