//! The streams that the sync follows, and how their watermarks move.

use crate::text::{lemma_bytes_lt_irreflexive, lemma_bytes_lt_transitive, str_less, str_lt};
use vstd::prelude::*;

verus! {

/// The streams that the sync follows, each with a watermark of its own.
#[derive(Debug, Clone, Copy, PartialEq, Eq, Structural)]
pub enum Stream {
    Changes,
    Redirects,
    Deletions,
}

impl Stream {
    /// The key that the stream's watermark is stored under.
    pub open spec fn key_name(self) -> Seq<char> {
        match self {
            Stream::Changes => "timestamp"@,
            Stream::Redirects => "timestamp_redirect"@,
            Stream::Deletions => "timestamp_deletion"@,
        }
    }

    /// The watermark that the stream starts from where none is stored: the
    /// empty text for the changes, the start of the year 2000 for the
    /// redirects and the deletions.
    pub open spec fn first_watermark(self) -> Seq<char> {
        match self {
            Stream::Changes => Seq::empty(),
            _ => "20000101000000"@,
        }
    }

    /// The key that the stream's watermark is stored under.
    pub fn key(&self) -> (r: &'static str)
        ensures
            r@ == self.key_name(),
    {
        match self {
            Stream::Changes => "timestamp",
            Stream::Redirects => "timestamp_redirect",
            Stream::Deletions => "timestamp_deletion",
        }
    }

    /// The watermark to start a cycle from: the stored one, or the
    /// stream's first watermark where none is stored.
    pub fn watermark(&self, stored: Option<String>) -> (r: String)
        ensures
            r@ == (match stored {
                Some(text) => text@,
                None => self.first_watermark(),
            }),
    {
        match stored {
            Some(text) => text,
            None => match self {
                Stream::Changes => String::new(),
                _ => "20000101000000".to_owned(),
            },
        }
    }
}

/// The later of two timestamps, the first where they are the same.
pub open spec fn later_of(a: Seq<char>, b: Seq<char>) -> Seq<char> {
    if str_lt(a, b) {
        b
    } else {
        a
    }
}

/// The watermark after rows with the given timestamps were taken in: the
/// latest of the watermark before and the timestamps.
pub open spec fn watermark_after(oldest: Seq<char>, stamps: Seq<Seq<char>>) -> Seq<char>
    decreases stamps.len(),
{
    if stamps.len() == 0 {
        oldest
    } else {
        later_of(watermark_after(oldest, stamps.drop_last()), stamps.last())
    }
}

/// A watermark only moves forward: the new one is not before the old one,
/// none of the timestamps is after it, and it is the old one or one of the
/// timestamps.
pub proof fn lemma_watermark_after(oldest: Seq<char>, stamps: Seq<Seq<char>>)
    ensures
        !str_lt(watermark_after(oldest, stamps), oldest),
        forall|i: int|
            0 <= i < stamps.len() ==> !str_lt(
                watermark_after(oldest, stamps),
                #[trigger] stamps[i],
            ),
        watermark_after(oldest, stamps) == oldest || stamps.contains(
            watermark_after(oldest, stamps),
        ),
    decreases stamps.len(),
{
    let e = |t: Seq<char>| vstd::utf8::encode_utf8(t);
    lemma_bytes_lt_irreflexive(e(oldest));
    if stamps.len() > 0 {
        let before = stamps.drop_last();
        let last = stamps.last();
        let w = watermark_after(oldest, before);
        lemma_watermark_after(oldest, before);
        lemma_bytes_lt_irreflexive(e(last));
        if str_lt(w, last) {
            if str_lt(last, oldest) {
                lemma_bytes_lt_transitive(e(w), e(last), e(oldest));
            }
            assert forall|i: int| 0 <= i < stamps.len() implies !str_lt(
                last,
                #[trigger] stamps[i],
            ) by {
                if i < before.len() {
                    assert(stamps[i] == before[i]);
                    if str_lt(last, stamps[i]) {
                        lemma_bytes_lt_transitive(e(w), e(last), e(stamps[i]));
                    }
                }
            }
            assert(stamps[stamps.len() - 1] == last);
        } else {
            assert forall|i: int| 0 <= i < stamps.len() implies !str_lt(
                w,
                #[trigger] stamps[i],
            ) by {
                if i < before.len() {
                    assert(stamps[i] == before[i]);
                }
            }
            if w != oldest {
                let i = choose|i: int| 0 <= i < before.len() && before[i] == w;
                assert(stamps[i] == w);
            }
        }
    }
}

/// The later of two timestamps.
pub fn later(a: String, b: &str) -> (r: String)
    ensures
        r@ == later_of(a@, b@),
{
    if str_less(a.as_str(), b) {
        b.to_owned()
    } else {
        a
    }
}

} // verus!
