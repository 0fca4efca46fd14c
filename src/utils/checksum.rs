//! MD5 checksums as lowercase hexadecimal text.
use vstd::prelude::*;

use crate::text::push_char;

verus! {

/// The MD5 digest of `b`.
pub uninterp spec fn md5_of(b: Seq<u8>) -> Seq<u8>;

/// Relies on `md5::Md5` through `digest::Digest::digest`: the 16-byte MD5
/// digest of the content, which depends on the content alone.
#[verifier::external_body]
fn md5_digest(content: &[u8]) -> (r: Vec<u8>)
    ensures
        r@ == md5_of(content@),
        r@.len() == 16,
{
    <md5::Md5 as md5::Digest>::digest(content).to_vec()
}

/// The lowercase hexadecimal digit for `d < 16`.
pub open spec fn hex_digit(d: u8) -> char {
    if d < 10 {
        (('0' as u8) + d) as char
    } else {
        (('a' as u8) + d - 10) as char
    }
}

/// `b` as lowercase hexadecimal, two digits per byte.
pub open spec fn hex_of(b: Seq<u8>) -> Seq<char>
    decreases b.len(),
{
    if b.len() == 0 {
        seq![]
    } else {
        hex_of(b.drop_last()) + seq![hex_digit(b.last() / 16), hex_digit(b.last() % 16)]
    }
}

fn hex_char(d: u8) -> (c: char)
    requires
        d < 16,
    ensures
        c == hex_digit(d),
{
    if d < 10 {
        ((48u8) + d) as char
    } else {
        ((97u8) + d - 10) as char
    }
}

/// `b` as lowercase hexadecimal text.
pub fn to_hex(b: &[u8]) -> (r: String)
    ensures
        r@ == hex_of(b@),
{
    let mut r = String::new();
    let mut i: usize = 0;
    while i < b.len()
        invariant
            i <= b@.len(),
            r@ == hex_of(b@.take(i as int)),
        decreases b@.len() - i,
    {
        let x = b[i];
        push_char(&mut r, hex_char(x / 16));
        push_char(&mut r, hex_char(x % 16));
        proof {
            assert(b@.take(i + 1).drop_last() =~= b@.take(i as int));
            assert(b@.take(i + 1).last() == x);
        }
        i = i + 1;
        assert(r@ =~= hex_of(b@.take(i as int)));
    }
    assert(b@.take(i as int) =~= b@);
    r
}

/// The MD5 checksum of `content` as 32 lowercase hexadecimal digits.
pub fn md5_hash(content: &[u8]) -> (r: String)
    ensures
        r@ == hex_of(md5_of(content@)),
{
    let d = md5_digest(content);
    to_hex(d.as_slice())
}

} // verus!
