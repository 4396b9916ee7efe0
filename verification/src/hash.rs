//! Integrity hashing: the SHA-256 digest of downloaded bytes, rendered as
//! lower-case hexadecimal and compared byte-for-byte against the digest a
//! registry advertises.

use vstd::prelude::*;

verus! {

/// The SHA-256 digest of a byte sequence.  The algorithm itself is outside
/// code; the name only records that the digest is a function of the input
/// bytes alone.
pub uninterp spec fn sha256_of(bytes: Seq<u8>) -> Seq<u8>;

/// Relies on `sha2::Sha256` through `digest::Digest::digest`: the SHA-256
/// digest of the input bytes, 32 bytes long, a function of the input alone.
#[verifier::external_body]
fn sha256_digest(bytes: &Vec<u8>) -> (r: Vec<u8>)
    ensures
        r@ == sha256_of(bytes@),
        r@.len() == 32,
{
    let out = <sha2::Sha256 as sha2::Digest>::digest(bytes.as_slice());
    out.as_slice().to_vec()
}

/// The lower-case hexadecimal digit for a value below sixteen.
pub open spec fn hex_digit_spec(d: u8) -> char
    recommends
        d < 16,
{
    if d < 10 {
        ((48 + d as int) as u8) as char
    } else {
        ((87 + d as int) as u8) as char
    }
}

/// Lower-case hexadecimal rendering of a byte sequence, two digits per byte,
/// high digit first.
pub open spec fn hex_of(bytes: Seq<u8>) -> Seq<char>
    decreases bytes.len(),
{
    if bytes.len() == 0 {
        Seq::empty()
    } else {
        seq![
            hex_digit_spec(bytes[0] / 16),
            hex_digit_spec(bytes[0] % 16),
        ] + hex_of(bytes.drop_first())
    }
}

proof fn lemma_hex_of_push(bytes: Seq<u8>, b: u8)
    ensures
        hex_of(bytes.push(b)) == hex_of(bytes) + seq![
            hex_digit_spec(b / 16),
            hex_digit_spec(b % 16),
        ],
    decreases bytes.len(),
{
    if bytes.len() == 0 {
        let p = bytes.push(b);
        assert(p.len() == 1 && p[0] == b);
        assert(p.drop_first() =~= Seq::<u8>::empty());
        assert(hex_of(p) == seq![
            hex_digit_spec(b / 16),
            hex_digit_spec(b % 16),
        ] + hex_of(Seq::<u8>::empty()));
        assert(hex_of(bytes.push(b)) =~= hex_of(bytes) + seq![
            hex_digit_spec(b / 16),
            hex_digit_spec(b % 16),
        ]);
    } else {
        assert(bytes.push(b).drop_first() =~= bytes.drop_first().push(b));
        lemma_hex_of_push(bytes.drop_first(), b);
        assert(hex_of(bytes.push(b)) =~= hex_of(bytes) + seq![
            hex_digit_spec(b / 16),
            hex_digit_spec(b % 16),
        ]);
    }
}

fn hex_digit(d: u8) -> (r: char)
    requires
        d < 16,
    ensures
        r == hex_digit_spec(d),
{
    if d < 10 {
        (48 + d) as char
    } else {
        (87 + d) as char
    }
}

/// Renders bytes as lower-case hexadecimal, two digits per byte.
pub fn hex_encode(bytes: &Vec<u8>) -> (r: String)
    ensures
        r@ == hex_of(bytes@),
{
    let mut r = String::new();
    let mut i: usize = 0;
    while i < bytes.len()
        invariant
            i <= bytes@.len(),
            r@ == hex_of(bytes@.subrange(0, i as int)),
        decreases bytes@.len() - i,
    {
        let b = bytes[i];
        crate::text::push_char(&mut r, hex_digit(b / 16));
        crate::text::push_char(&mut r, hex_digit(b % 16));
        proof {
            let pre = bytes@.subrange(0, i as int);
            lemma_hex_of_push(pre, b);
            assert(pre.push(b) =~= bytes@.subrange(0, i as int + 1));
        }
        i = i + 1;
    }
    proof {
        assert(bytes@.subrange(0, bytes@.len() as int) =~= bytes@);
    }
    r
}

/// The lower-case hexadecimal SHA-256 digest of `bytes`.
pub fn sha256_hex(bytes: &Vec<u8>) -> (r: String)
    ensures
        r@ == hex_of(sha256_of(bytes@)),
{
    let d = sha256_digest(bytes);
    hex_encode(&d)
}

} // verus!
