//! Names and values of headers.

use crate::text::{ends_with, has_suffix, same_text, texts};
use vstd::prelude::*;
use vstd::utf8::*;

verus! {

/// A byte of a header value that can be read as text.
pub open spec fn visible_byte(b: u8) -> bool {
    32 <= b < 127 || b == 9
}

/// A byte that can stand in a header value.
pub open spec fn header_byte(b: u8) -> bool {
    32 <= b && b != 127 || b == 9
}

/// The text of a header value, which it has if all its bytes are visible ASCII or tabs.
pub open spec fn header_text(bytes: Seq<u8>) -> Option<Seq<char>> {
    if forall|i: int| 0 <= i < bytes.len() ==> visible_byte(#[trigger] bytes[i]) {
        Some(Seq::new(bytes.len(), |i: int| bytes[i] as char))
    } else {
        None
    }
}

/// Whether a text can be a header value.
pub open spec fn is_header_value(text: Seq<char>) -> bool {
    forall|i: int| 0 <= i < encode_utf8(text).len() ==> header_byte(#[trigger] encode_utf8(text)[i])
}

/// Reads a header value as text with `hyper::header::HeaderValue::to_str`. Trusted: it succeeds
/// on visible ASCII and tabs, with the same characters.
#[verifier::external_body]
pub(crate) fn read_header(bytes: &[u8]) -> (r: Option<String>)
    ensures
        match r {
            Some(text) => header_text(bytes@) == Some(text@),
            None => header_text(bytes@) is None,
        },
{
    match hyper::header::HeaderValue::from_bytes(bytes) {
        Ok(value) => value.to_str().ok().map(|text| text.to_owned()),
        Err(_) => None,
    }
}

/// Asks `hyper::header::HeaderValue::from_str` whether a text can be a header value. Trusted: it
/// refuses control characters but for tabs, and nothing else.
#[verifier::external_body]
pub(crate) fn header_accepts(text: &str) -> (r: bool)
    ensures
        r == is_header_value(text@),
{
    hyper::header::HeaderValue::from_str(text).is_ok()
}

/// Whether a header tells a checksum of the body.
pub open spec fn is_checksum_name(name: Seq<char>) -> bool {
    ||| has_suffix(name, "-md5"@)
    ||| has_suffix(name, "-sha1"@)
    ||| has_suffix(name, "-sha256"@)
    ||| has_suffix(name, "-sha512"@)
    ||| name == "x-checksum"@
}

/// Those of some header names that tell a checksum of the body, in their order.
pub open spec fn checksum_names(names: Seq<Seq<char>>) -> Seq<Seq<char>> {
    names.filter(|name: Seq<char>| is_checksum_name(name))
}

/// Those of some header names that tell a checksum of the body.
pub fn checksum_headers(names: &Vec<String>) -> (r: Vec<String>)
    ensures
        texts(r@) == checksum_names(texts(names@)),
{
    let mut out: Vec<String> = Vec::new();
    let n: usize = names.len();
    let ghost all = texts(names@);
    let ghost keep = |name: Seq<char>| is_checksum_name(name);
    assert(texts(out@) =~= all.take(0).filter(keep)) by {
        reveal(Seq::filter);
    }
    for i in 0..n
        invariant
            n == names@.len(),
            all == texts(names@),
            keep == |name: Seq<char>| is_checksum_name(name),
            texts(out@) == all.take(i as int).filter(keep),
    {
        let name = names[i].as_str();
        let ghost before = texts(out@);
        proof {
            reveal(Seq::filter);
            assert(all.take(i + 1).drop_last() =~= all.take(i as int));
            assert(all.take(i + 1).last() == name@);
        }
        if ends_with(name, "-md5") || ends_with(name, "-sha1") || ends_with(name, "-sha256")
            || ends_with(name, "-sha512") || same_text(name, "x-checksum") {
            out.push(name.to_owned());
            assert(texts(out@) =~= before.push(name@));
        }
    }
    assert(all.take(n as int) =~= all);
    out
}

/// A header value of visible ASCII characters and tabs is read as just these.
pub proof fn law_visible_value_is_read(bytes: Seq<u8>, text: Seq<char>)
    requires
        bytes.len() == text.len(),
        forall|i: int|
            0 <= i < text.len() ==> (#[trigger] text[i]) as int == bytes[i] as int && (' ' <= text[i]
                <= '~' || text[i] == '\t'),
    ensures
        header_text(bytes) == Some(text),
{
    assert forall|i: int| 0 <= i < bytes.len() implies visible_byte(#[trigger] bytes[i])
        && bytes[i] as char == text[i] by {
        assert(text[i] as int == bytes[i] as int);
    }
    assert(header_text(bytes)->0 =~= text);
}

/// A header value with any other byte has no text.
pub proof fn law_other_value_is_not_read(bytes: Seq<u8>, i: int)
    requires
        0 <= i < bytes.len(),
        bytes[i] < 32 && bytes[i] != 9 || bytes[i] >= 127,
    ensures
        header_text(bytes) is None,
{
    assert(!visible_byte(bytes[i]));
}

/// A text can be a header value unless its bytes hold a control character other than a tab.
pub proof fn law_control_characters_are_no_value(text: Seq<char>)
    ensures
        is_header_value(text) <==> !exists|i: int|
            0 <= i < encode_utf8(text).len() && {
                let b = #[trigger] encode_utf8(text)[i];
                b < 32 && b != 9 || b == 127
            },
{
    if !exists|i: int|
        0 <= i < encode_utf8(text).len() && {
            let b = #[trigger] encode_utf8(text)[i];
            b < 32 && b != 9 || b == 127
        } {
        assert forall|i: int| 0 <= i < encode_utf8(text).len() implies header_byte(
            #[trigger] encode_utf8(text)[i],
        ) by {
            let b = encode_utf8(text)[i];
            assert(!(b < 32 && b != 9 || b == 127));
        }
    }
}

/// The headers that are picked out of two lists are those of the one and those of the other. A
/// header is picked out if and only if it ends in `-md5`, `-sha1`, `-sha256` or `-sha512`, or is
/// `x-checksum`.
pub proof fn law_checksums_are_picked_out(
    before: Seq<Seq<char>>,
    name: Seq<char>,
    behind: Seq<Seq<char>>,
)
    ensures
        has_suffix(name, "-md5"@) || has_suffix(name, "-sha1"@) || has_suffix(name, "-sha256"@)
            || has_suffix(name, "-sha512"@) || name == "x-checksum"@ ==> checksum_names(
            before + seq![name] + behind,
        ) == checksum_names(before) + seq![name] + checksum_names(behind),
        !(has_suffix(name, "-md5"@) || has_suffix(name, "-sha1"@) || has_suffix(name, "-sha256"@)
            || has_suffix(name, "-sha512"@) || name == "x-checksum"@) ==> checksum_names(
            before + seq![name] + behind,
        ) == checksum_names(before) + checksum_names(behind),
        checksum_names(Seq::empty()) == Seq::<Seq<char>>::empty(),
{
    let keep = |name: Seq<char>| is_checksum_name(name);
    Seq::filter_distributes_over_add(before + seq![name], behind, keep);
    Seq::filter_distributes_over_add(before, seq![name], keep);
    reveal_with_fuel(Seq::filter, 2);
    assert(seq![name].drop_last() =~= Seq::empty());
    assert(is_checksum_name(name) ==> seq![name].filter(keep) =~= seq![name]);
    if !is_checksum_name(name) {
        assert(seq![name].filter(keep) =~= Seq::empty());
        assert(before.filter(keep) + Seq::empty() =~= before.filter(keep));
    }
}

} // verus!
