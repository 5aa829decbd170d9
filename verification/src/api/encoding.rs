//! Escaping of keys and values for the XML documents of the S3 API.

use vstd::prelude::*;

use vstd::string::StrSliceExecFns;
use vstd::string::StringSliceAdditionalSpecFns;

use crate::encoding::uri_encode_bytes;
use crate::util::text::string_push;

verus! {

/// How one character is rendered inside XML text: `<`, `>` and `"` become
/// entities, everything else passes through.
pub open spec fn xml_escape_char(c: char) -> Seq<char> {
    if c == '<' {
        seq!['&', 'l', 't', ';']
    } else if c == '>' {
        seq!['&', 'g', 't', ';']
    } else if c == '"' {
        seq!['&', 'q', 'u', 'o', 't', ';']
    } else {
        seq![c]
    }
}

/// The escaping of a whole character sequence, in order.
pub open spec fn xml_escape_chars(s: Seq<char>) -> Seq<char>
    decreases s.len(),
{
    if s.len() == 0 {
        Seq::empty()
    } else {
        xml_escape_char(s[0]) + xml_escape_chars(s.drop_first())
    }
}

proof fn lemma_xml_escape_chars_snoc(s: Seq<char>)
    requires
        s.len() > 0,
    ensures
        xml_escape_chars(s) == xml_escape_chars(s.drop_last()) + xml_escape_char(s.last()),
    decreases s.len(),
{
    if s.len() == 1 {
        assert(s.drop_first() =~= Seq::<char>::empty());
        assert(s.drop_last() =~= Seq::<char>::empty());
        assert(xml_escape_chars(Seq::<char>::empty()) =~= Seq::<char>::empty());
        assert(xml_escape_chars(s) =~= xml_escape_char(s[0]));
    } else {
        lemma_xml_escape_chars_snoc(s.drop_first());
        assert(s.drop_first().drop_last() =~= s.drop_last().drop_first());
        assert(s.drop_first().last() == s.last());
        assert(s.drop_last()[0] == s[0]);
        assert(xml_escape_chars(s) == xml_escape_char(s[0]) + (xml_escape_chars(
            s.drop_first().drop_last(),
        ) + xml_escape_char(s.last())));
    }
}

/// Escape a string for inclusion in XML text.
pub fn xml_escape(s: &str) -> (r: String)
    ensures
        r@ == xml_escape_chars(s@),
{
    let n = s.unicode_len();
    let mut result = String::new();
    let mut i: usize = 0;
    while i < n
        invariant
            n == s@.len(),
            i <= n,
            result@ == xml_escape_chars(s@.take(i as int)),
        decreases n - i,
    {
        let c = s.get_char(i);
        if c == '<' {
            string_push(&mut result, '&');
            string_push(&mut result, 'l');
            string_push(&mut result, 't');
            string_push(&mut result, ';');
        } else if c == '>' {
            string_push(&mut result, '&');
            string_push(&mut result, 'g');
            string_push(&mut result, 't');
            string_push(&mut result, ';');
        } else if c == '"' {
            string_push(&mut result, '&');
            string_push(&mut result, 'q');
            string_push(&mut result, 'u');
            string_push(&mut result, 'o');
            string_push(&mut result, 't');
            string_push(&mut result, ';');
        } else {
            string_push(&mut result, c);
        }
        proof {
            lemma_xml_escape_chars_snoc(s@.take(i + 1 as int));
            assert(s@.take(i + 1 as int).drop_last() =~= s@.take(i as int));
            assert(s@.take(i + 1 as int).last() == s@[i as int]);
            assert(result@ =~= xml_escape_chars(s@.take(i + 1 as int)));
        }
        i = i + 1;
    }
    proof {
        assert(s@.take(n as int) =~= s@);
    }
    result
}

/// Encode a string for use in a URI, percent-encoding `/` as well when asked.
pub fn uri_encode(string: &str, encode_slash: bool) -> (r: String)
    ensures
        r@ == uri_encode_bytes(string.spec_bytes(), encode_slash),
{
    crate::encoding::uri_encode(string, encode_slash)
}

/// Render an object key for an XML listing: percent-encoded when the client
/// asked for URL encoding, XML-escaped otherwise.
pub fn xml_encode_key(k: &str, urlencode: bool) -> (r: String)
    ensures
        urlencode ==> r@ == uri_encode_bytes(k.spec_bytes(), true),
        !urlencode ==> r@ == xml_escape_chars(k@),
{
    if urlencode {
        uri_encode(k, true)
    } else {
        xml_escape(k)
    }
}

} // verus!
