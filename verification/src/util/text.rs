//! Small text-building helpers over `String`.

use vstd::prelude::*;

use vstd::string::StrSliceExecFns;

verus! {

/// Relies on `String::push` from std: appends exactly one character at the end.
#[verifier::external_body]
pub fn string_push(s: &mut String, c: char)
    ensures
        final(s)@ == old(s)@.push(c),
{
    s.push(c);
}

/// Append a whole string slice, character by character.
pub fn string_push_str(dst: &mut String, s: &str)
    ensures
        final (dst)@ == old(dst)@ + s@,
{
    let n = s.unicode_len();
    let mut i: usize = 0;
    while i < n
        invariant
            i <= n,
            n == s@.len(),
            dst@ =~= old(dst)@ + s@.take(i as int),
        decreases n - i,
    {
        string_push(dst, s.get_char(i));
        proof {
            assert((old(dst)@ + s@.take(i as int)).push(s@[i as int]) =~= old(dst)@ + s@.take(
                i + 1 as int,
            ));
        }
        i = i + 1;
    }
    proof {
        assert(s@.take(n as int) =~= s@);
    }
}

/// What is left of a string after shaving every leading and trailing
/// double quote.
pub open spec fn trim_quotes_spec(s: Seq<char>) -> Seq<char>
    decreases s.len(),
{
    if s.len() > 0 && s[0] == '"' {
        trim_quotes_spec(s.drop_first())
    } else if s.len() > 0 && s.last() == '"' {
        trim_quotes_spec(s.drop_last())
    } else {
        s
    }
}

proof fn lemma_trim_quotes_subrange(s: Seq<char>, a: int, b: int)
    requires
        0 <= a <= b <= s.len(),
        forall|k: int| 0 <= k < a ==> s[k] == '"',
        forall|k: int| b <= k < s.len() ==> s[k] == '"',
        a < b ==> s[a] != '"' && s[b - 1] != '"',
    ensures
        trim_quotes_spec(s) == s.subrange(a, b),
    decreases s.len(),
{
    if a > 0 {
        assert(s[0] == '"');
        lemma_trim_quotes_subrange(s.drop_first(), a - 1, b - 1);
        assert(s.drop_first().subrange(a - 1, b - 1) =~= s.subrange(a, b));
    } else if b < s.len() {
        if a == b {
            assert(s[0] == '"');
            lemma_trim_quotes_subrange(s.drop_first(), 0, 0);
            assert(s.drop_first().subrange(0, 0) =~= s.subrange(a, b));
        } else {
            assert(s[0] != '"');
            assert(s.last() == '"');
            lemma_trim_quotes_subrange(s.drop_last(), a, b);
            assert(s.drop_last().subrange(a, b) =~= s.subrange(a, b));
        }
    } else {
        if s.len() > 0 {
            assert(s[0] != '"');
            assert(s.last() != '"');
        }
        assert(s.subrange(0, s.len() as int) =~= s);
    }
}

/// Index of the first character that is not a double quote.
fn first_non_quote(s: &str) -> (a: usize)
    ensures
        a <= s@.len(),
        forall|k: int| 0 <= k < a ==> s@[k] == '"',
        a < s@.len() ==> s@[a as int] != '"',
{
    let n = s.unicode_len();
    let mut i: usize = 0;
    while i < n
        invariant
            i <= n,
            n == s@.len(),
            forall|k: int| 0 <= k < i ==> s@[k] == '"',
        decreases n - i,
    {
        if s.get_char(i) != '"' {
            return i;
        }
        i = i + 1;
    }
    n
}

/// One past the last non-quote character, scanning back to `a`.
fn last_non_quote_after(s: &str, a: usize) -> (b: usize)
    requires
        a < s@.len(),
        s@[a as int] != '"',
    ensures
        a < b <= s@.len(),
        forall|k: int| b <= k < s@.len() ==> s@[k] == '"',
        s@[b - 1] != '"',
{
    let n = s.unicode_len();
    let mut b: usize = n;
    while b > a + 1
        invariant
            a + 1 <= b <= n,
            n == s@.len(),
            forall|k: int| b <= k < n ==> s@[k] == '"',
        decreases b,
    {
        if s.get_char(b - 1) != '"' {
            return b;
        }
        b = b - 1;
    }
    a + 1
}

/// Shave every leading and trailing double quote off a string.
pub fn trim_quotes(s: &str) -> (r: String)
    ensures
        r@ == trim_quotes_spec(s@),
{
    let n = s.unicode_len();
    let a = first_non_quote(s);
    if a == n {
        proof {
            lemma_trim_quotes_subrange(s@, 0, 0);
            assert(s@.subrange(0, 0) =~= Seq::<char>::empty());
        }
        return String::new();
    }
    let b = last_non_quote_after(s, a);
    proof {
        lemma_trim_quotes_subrange(s@, a as int, b as int);
    }
    let mut r = String::new();
    let mut k: usize = a;
    while k < b
        invariant
            a <= k <= b <= n,
            n == s@.len(),
            r@ =~= s@.subrange(a as int, k as int),
        decreases b - k,
    {
        string_push(&mut r, s.get_char(k));
        proof {
            assert(r@ =~= s@.subrange(a as int, k + 1 as int));
        }
        k = k + 1;
    }
    proof {
        assert(r@ =~= s@.subrange(a as int, b as int));
    }
    r
}

/// The ASCII-lowercase form of a character.
pub open spec fn ascii_lower_char(c: char) -> char {
    if 'A' <= c && c <= 'Z' {
        (((c as u8) + 32) as char)
    } else {
        c
    }
}

/// The ASCII-lowercase form of a string.
pub open spec fn ascii_lower(s: Seq<char>) -> Seq<char> {
    s.map_values(|c: char| ascii_lower_char(c))
}

/// Lower-case the ASCII letters of a string.
pub fn ascii_lowercase(s: &str) -> (r: String)
    ensures
        r@ == ascii_lower(s@),
{
    let n = s.unicode_len();
    let mut r = String::new();
    let mut i: usize = 0;
    while i < n
        invariant
            i <= n,
            n == s@.len(),
            r@ =~= ascii_lower(s@.take(i as int)),
        decreases n - i,
    {
        let c = s.get_char(i);
        if 'A' <= c && c <= 'Z' {
            string_push(&mut r, ((c as u8) + 32) as char);
        } else {
            string_push(&mut r, c);
        }
        proof {
            assert(r@ =~= ascii_lower(s@.take(i + 1 as int)));
        }
        i = i + 1;
    }
    proof {
        assert(s@.take(n as int) =~= s@);
    }
    r
}

/// The decimal digits of a number, most significant first.
pub open spec fn dec_of(n: u64) -> Seq<char>
    decreases n,
{
    if n < 10 {
        seq![(n + 0x30) as char]
    } else {
        dec_of(n / 10).push(((n % 10) + 0x30) as char)
    }
}

/// Render a number in decimal.
pub fn u64_to_dec(n: u64) -> (r: String)
    ensures
        r@ == dec_of(n),
    decreases n,
{
    if n < 10 {
        let mut r = String::new();
        string_push(&mut r, (n as u8 + 0x30) as char);
        proof {
            assert(r@ =~= dec_of(n));
        }
        r
    } else {
        let mut r = u64_to_dec(n / 10);
        string_push(&mut r, ((n % 10) as u8 + 0x30) as char);
        r
    }
}

/// Byte-for-byte equality of two slices.
pub fn bytes_eq(a: &[u8], b: &[u8]) -> (r: bool)
    ensures
        r == (a@ == b@),
{
    if a.len() != b.len() {
        proof {
            assert(a@.len() != b@.len());
        }
        return false;
    }
    let n = a.len();
    let mut i: usize = 0;
    while i < n
        invariant
            n == a@.len(),
            n == b@.len(),
            i <= n,
            forall|j: int| 0 <= j < i ==> a@[j] == b@[j],
        decreases n - i,
    {
        if a[i] != b[i] {
            return false;
        }
        i = i + 1;
    }
    proof {
        assert(a@ =~= b@);
    }
    true
}

/// Equality of two string slices, stated over their character views.
pub fn str_eq(a: &str, b: &str) -> (r: bool)
    ensures
        r == (a@ == b@),
{
    let r = bytes_eq(a.as_bytes(), b.as_bytes());
    proof {
        vstd::utf8::encode_utf8_decode_utf8(a@);
        vstd::utf8::encode_utf8_decode_utf8(b@);
    }
    r
}

} // verus!
