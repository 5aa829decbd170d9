//! Percent-encoding of strings for use in URIs, as the S3 front-end needs it.
//!
//! A string is encoded byte by byte over its UTF-8 form: unreserved ASCII
//! bytes pass through, `/` passes through or becomes `%2F` depending on the
//! caller, and every other byte becomes `%` followed by two upper-case hex
//! digits. Since every multi-byte character consists solely of bytes at or
//! above `0x80`, this is the same as encoding character by character.

use vstd::prelude::*;

use vstd::string::StringSliceAdditionalSpecFns;

use crate::util::text::string_push;

verus! {

/// Bytes that a URI keeps unchanged: ASCII letters, digits, `_`, `-`, `~`, `.`.
pub open spec fn is_unreserved_byte(b: u8) -> bool {
    ||| 0x61 <= b <= 0x7a
    ||| 0x41 <= b <= 0x5a
    ||| 0x30 <= b <= 0x39
    ||| b == 0x5f
    ||| b == 0x2d
    ||| b == 0x7e
    ||| b == 0x2e
}

/// The upper-case hexadecimal digit for a value below 16.
pub open spec fn hex_digit_char(v: u8) -> char
    recommends
        v < 16,
{
    if v < 10 {
        (v + 0x30) as char
    } else {
        (v + 0x37) as char
    }
}

/// `%` followed by the two upper-case hex digits of `b`.
pub open spec fn percent_encoding(b: u8) -> Seq<char> {
    seq!['%', hex_digit_char(b / 16), hex_digit_char(b % 16)]
}

/// How one byte of the UTF-8 form is rendered.
pub open spec fn uri_encode_byte(b: u8, encode_slash: bool) -> Seq<char> {
    if is_unreserved_byte(b) {
        seq![b as char]
    } else if b == 0x2f {
        if encode_slash {
            seq!['%', '2', 'F']
        } else {
            seq!['/']
        }
    } else {
        percent_encoding(b)
    }
}

/// The encoding of a whole byte sequence, in order.
pub open spec fn uri_encode_bytes(bs: Seq<u8>, encode_slash: bool) -> Seq<char>
    decreases bs.len(),
{
    if bs.len() == 0 {
        Seq::empty()
    } else {
        uri_encode_byte(bs[0], encode_slash) + uri_encode_bytes(bs.drop_first(), encode_slash)
    }
}

proof fn lemma_uri_encode_bytes_snoc(bs: Seq<u8>, encode_slash: bool)
    requires
        bs.len() > 0,
    ensures
        uri_encode_bytes(bs, encode_slash) == uri_encode_bytes(bs.drop_last(), encode_slash)
            + uri_encode_byte(bs.last(), encode_slash),
    decreases bs.len(),
{
    if bs.len() == 1 {
        assert(bs.drop_first() =~= Seq::<u8>::empty());
        assert(bs.drop_last() =~= Seq::<u8>::empty());
        assert(uri_encode_bytes(Seq::<u8>::empty(), encode_slash) =~= Seq::<char>::empty());
        assert(uri_encode_bytes(bs, encode_slash) =~= uri_encode_byte(bs[0], encode_slash));
        assert(bs.last() == bs[0]);
    } else {
        lemma_uri_encode_bytes_snoc(bs.drop_first(), encode_slash);
        assert(bs.drop_first().drop_last() =~= bs.drop_last().drop_first());
        assert(bs.drop_first().last() == bs.last());
        assert(uri_encode_bytes(bs.drop_last(), encode_slash) == uri_encode_byte(
            bs.drop_last()[0],
            encode_slash,
        ) + uri_encode_bytes(bs.drop_last().drop_first(), encode_slash));
        assert(bs.drop_last()[0] == bs[0]);
        assert(uri_encode_bytes(bs, encode_slash) == uri_encode_byte(bs[0], encode_slash) + (
        uri_encode_bytes(bs.drop_first().drop_last(), encode_slash) + uri_encode_byte(
            bs.last(),
            encode_slash,
        )));
    }
}

/// Appends `%XX` with the two upper-case hex digits of `b`.
fn push_percent_hex(result: &mut String, b: u8)
    ensures
        final(result)@ == old(result)@ + percent_encoding(b),
{
    string_push(result, '%');
    let hi = b / 16;
    let lo = b % 16;
    let hi_c: char = if hi < 10 {
        (hi + 0x30) as char
    } else {
        (hi + 0x37) as char
    };
    let lo_c: char = if lo < 10 {
        (lo + 0x30) as char
    } else {
        (lo + 0x37) as char
    };
    string_push(result, hi_c);
    string_push(result, lo_c);
    assert(final(result)@ =~= old(result)@ + percent_encoding(b));
}

/// Encode a string for use in a URI.
///
/// Every byte of the UTF-8 form that is not an unreserved ASCII byte is
/// percent-encoded; `/` is encoded only when `encode_slash` is set.
pub fn uri_encode(string: &str, encode_slash: bool) -> (r: String)
    ensures
        r@ == uri_encode_bytes(string.spec_bytes(), encode_slash),
{
    let bytes = string.as_bytes();
    let n = bytes.len();
    let mut result = String::new();
    let mut i: usize = 0;
    while i < n
        invariant
            n == bytes@.len(),
            i <= n,
            result@ == uri_encode_bytes(bytes@.take(i as int), encode_slash),
        decreases n - i,
    {
        let b = bytes[i];
        if (0x61 <= b && b <= 0x7a) || (0x41 <= b && b <= 0x5a) || (0x30 <= b && b <= 0x39) || b
            == 0x5f || b == 0x2d || b == 0x7e || b == 0x2e {
            string_push(&mut result, b as char);
        } else if b == 0x2f {
            if encode_slash {
                string_push(&mut result, '%');
                string_push(&mut result, '2');
                string_push(&mut result, 'F');
            } else {
                string_push(&mut result, '/');
            }
        } else {
            push_percent_hex(&mut result, b);
        }
        proof {
            lemma_uri_encode_bytes_snoc(bytes@.take(i + 1 as int), encode_slash);
            assert(bytes@.take(i + 1 as int).drop_last() =~= bytes@.take(i as int));
            assert(bytes@.take(i + 1 as int).last() == bytes@[i as int]);
            assert(result@ =~= uri_encode_bytes(bytes@.take(i + 1 as int), encode_slash));
        }
        i = i + 1;
    }
    proof {
        assert(bytes@.take(n as int) =~= bytes@);
    }
    result
}

} // verus!
