//! What is kept of the body of a response while it passes through.

use crate::digest::{
    base64_standard, encode_base64, feed_hasher, finish_hasher, hasher_fed, new_hasher, read_utf8,
    sha256_digest, HASH_LIMIT,
};
use crate::pages::{Contents, ContentsView};
use vstd::prelude::*;
use vstd::string::*;
use vstd::utf8::*;

verus! {

/// What has been seen of a body: the bytes so far, whether they are to be kept as text, and
/// whether something went wrong.
#[verifier::ext_equal]
pub struct BodyView {
    pub keep_text: bool,
    pub seen: Seq<u8>,
    pub failed: bool,
}

/// What is kept of a body whose hash is `base64`: the text, where it is to be kept and is text,
/// else the hash.
pub open spec fn settled(keep_text: bool, body: Seq<u8>, base64: Seq<char>) -> ContentsView {
    if keep_text && valid_utf8(body) {
        ContentsView::Text(decode_utf8(body))
    } else {
        ContentsView::Hash("sha256-"@ + base64)
    }
}

/// What is kept of a body.
pub open spec fn body_contents(keep_text: bool, body: Seq<u8>) -> ContentsView {
    settled(keep_text, body, base64_standard(sha256_digest(body)))
}

/// What is kept of a body that has been seen to its end.
pub open spec fn finished(body: BodyView) -> Option<ContentsView> {
    if body.failed {
        None
    } else {
        Some(body_contents(body.keep_text, body.seen))
    }
}

/// What is kept of a body, given its hash. Only a body to be kept as text is needed here.
pub fn settle(keep_text: bool, body: &Vec<u8>, base64: &str) -> (r: Contents)
    ensures
        r@ == settled(keep_text, body@, base64@),
{
    if keep_text {
        if let Some(text) = read_utf8(body.as_slice()) {
            return Contents::Text(text);
        }
    }
    let mut hash = "sha256-".to_owned();
    hash.append(base64);
    Contents::Hash(hash)
}

/// Watches a body as it passes through.
#[derive(Debug)]
pub struct BodyRecorder {
    keep_text: bool,
    text: Vec<u8>,
    hasher: sha2::Sha256,
    failed: bool,
}

impl View for BodyRecorder {
    type V = BodyView;

    closed spec fn view(&self) -> BodyView {
        BodyView { keep_text: self.keep_text, seen: hasher_fed(self.hasher), failed: self.failed }
    }
}

impl BodyRecorder {
    #[verifier::type_invariant]
    spec fn inv(self) -> bool {
        &&& self.keep_text ==> self.text@ == hasher_fed(self.hasher)
        &&& hasher_fed(self.hasher).len() < HASH_LIMIT
    }

    /// Starts at the beginning of a body.
    pub fn new(keep_text: bool) -> (r: Self)
        ensures
            r@ == (BodyView { keep_text, seen: Seq::empty(), failed: false }),
    {
        BodyRecorder { keep_text, text: Vec::new(), hasher: new_hasher(), failed: false }
    }

    /// Takes in the next bytes.
    pub fn data(self, bytes: &Vec<u8>) -> (r: Self)
        requires
            self@.seen.len() + bytes@.len() < HASH_LIMIT,
        ensures
            r@ == (BodyView { seen: self@.seen + bytes@, ..self@ }),
    {
        proof {
            use_type_invariant(&self);
        }
        let mut text = self.text;
        if self.keep_text {
            text.extend_from_slice(bytes.as_slice());
        }
        let hasher = feed_hasher(self.hasher, bytes.as_slice());
        assert(self.keep_text ==> text@ =~= hasher_fed(hasher));
        BodyRecorder { keep_text: self.keep_text, text, hasher, failed: self.failed }
    }

    /// Notes that something went wrong.
    pub fn fail(self) -> (r: Self)
        ensures
            r@ == (BodyView { failed: true, ..self@ }),
    {
        proof {
            use_type_invariant(&self);
        }
        BodyRecorder {
            keep_text: self.keep_text,
            text: self.text,
            hasher: self.hasher,
            failed: true,
        }
    }

    /// What is kept of the body at its end: nothing if something went wrong.
    pub fn finish(self) -> (r: Option<Contents>)
        ensures
            match r {
                Some(contents) => finished(self@) == Some(contents@),
                None => finished(self@) is None,
            },
    {
        proof {
            use_type_invariant(&self);
        }
        if self.failed {
            return None;
        }
        let base64 = encode_base64(finish_hasher(self.hasher).as_slice());
        Some(settle(self.keep_text, &self.text, base64.as_str()))
    }
}

/// A body that is to be kept as text and is text is kept as that text, whatever its hash.
pub proof fn law_text_is_kept(text: Seq<char>, base64: Seq<char>)
    ensures
        settled(true, encode_utf8(text), base64) == ContentsView::Text(text),
        body_contents(true, encode_utf8(text)) == ContentsView::Text(text),
{
    encode_utf8_valid_utf8(text);
    encode_utf8_decode_utf8(text);
}

/// Of any other body the hash is kept: it is the base64 encoding of the SHA-256 digest of the whole
/// body, behind the name of the algorithm.
pub proof fn law_hash_is_kept_of_other_bodies(keep_text: bool, body: Seq<u8>, base64: Seq<char>)
    requires
        !keep_text || !valid_utf8(body),
    ensures
        settled(keep_text, body, base64) == ContentsView::Hash("sha256-"@ + base64),
        body_contents(keep_text, body) == ContentsView::Hash(
            "sha256-"@ + base64_standard(sha256_digest(body)),
        ),
{
}

/// A body that is text can be told from what is kept of it, if it is to be kept as text.
pub proof fn law_kept_text_tells_body(a: Seq<u8>, b: Seq<u8>)
    requires
        valid_utf8(a),
        valid_utf8(b),
        body_contents(true, a) == body_contents(true, b),
    ensures
        a == b,
{
    decode_utf8_encode_utf8(a);
    decode_utf8_encode_utf8(b);
}

/// Of a body that failed nothing is kept; of any other, what is kept is told by its bytes.
pub proof fn law_failed_body_is_not_kept(body: BodyView)
    ensures
        body.failed ==> finished(body) is None,
        !body.failed && body.keep_text && valid_utf8(body.seen) ==> finished(body) == Some(
            ContentsView::Text(decode_utf8(body.seen)),
        ),
        !body.failed && !(body.keep_text && valid_utf8(body.seen)) ==> finished(body) == Some(
            ContentsView::Hash("sha256-"@ + base64_standard(sha256_digest(body.seen))),
        ),
{
}

} // verus!
