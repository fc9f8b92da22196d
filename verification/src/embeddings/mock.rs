use vstd::prelude::*;

use crate::index::file_tracker::sha256_digest;
use crate::index::file_tracker::sha256_bytes;
use crate::text::{chars_of, char_is_whitespace, is_white_space, string_from_chars};

verus! {

/// A local embedding client that derives vectors from the hashes of the
/// words of a text, for use without an embedding service.
#[derive(Debug, Clone)]
pub struct MockEmbeddingClient {
    dimension: usize,
}

/// The words of a text and the word being read at its end.
pub open spec fn words_and_rest(s: Seq<char>) -> (Seq<Seq<char>>, Seq<char>)
    decreases s.len(),
{
    if s.len() == 0 {
        (Seq::empty(), Seq::empty())
    } else {
        let (ws, cur) = words_and_rest(s.drop_last());
        if is_white_space(s.last()) {
            if cur.len() > 0 { (ws.push(cur), Seq::empty()) } else { (ws, Seq::empty()) }
        } else {
            (ws, cur.push(s.last()))
        }
    }
}

/// The words of a text: its maximal runs of characters that are not white
/// space, in order (`str::split_whitespace`).
pub open spec fn words_of(s: Seq<char>) -> Seq<Seq<char>> {
    let (ws, cur) = words_and_rest(s);
    if cur.len() > 0 { ws.push(cur) } else { ws }
}

/// The words of a text (`str::split_whitespace`).
pub fn split_words(text: &str) -> (words: Vec<String>)
    ensures
        words@.map_values(|w: String| w@) == words_of(text@),
{
    let cs = chars_of(text);
    let mut words: Vec<String> = Vec::new();
    let mut cur: Vec<char> = Vec::new();
    let mut i: usize = 0;
    while i < cs.len()
        invariant
            i <= cs@.len(),
            cs@ == text@,
            (words@.map_values(|w: String| w@), cur@) == words_and_rest(cs@.subrange(0, i as int)),
        decreases cs@.len() - i,
    {
        let c = cs[i];
        proof {
            assert(cs@.subrange(0, i + 1).drop_last() =~= cs@.subrange(0, i as int));
            assert(cs@.subrange(0, i + 1).last() == c);
        }
        if char_is_whitespace(c) {
            if cur.len() > 0 {
                let w = string_from_chars(cur.as_slice());
                let ghost before = words@;
                words.push(w);
                proof {
                    assert(words@.map_values(|w: String| w@) =~= before.map_values(|w: String| w@).push(cur@));
                }
                cur = Vec::new();
            }
        } else {
            cur.push(c);
        }
        i = i + 1;
    }
    proof {
        assert(cs@.subrange(0, cs@.len() as int) =~= cs@);
    }
    if cur.len() > 0 {
        let w = string_from_chars(cur.as_slice());
        let ghost before = words@;
        words.push(w);
        proof {
            assert(words@.map_values(|w: String| w@) =~= before.map_values(|w: String| w@).push(cur@));
        }
    }
    words
}

impl MockEmbeddingClient {
    /// The length of the vectors the client makes.
    pub closed spec fn dim(self) -> usize {
        self.dimension
    }

    /// The vector length for a requested one: 384 where none is given.
    pub open spec fn dimension_for(dimension: Option<usize>) -> usize {
        match dimension {
            Some(d) => d,
            None => 384,
        }
    }

    /// A client making vectors of the given length, 384 where none is given.
    pub fn new(dimension: Option<usize>) -> (c: MockEmbeddingClient)
        ensures
            c.dim() == Self::dimension_for(dimension),
    {
        MockEmbeddingClient {
            dimension: match dimension {
                Some(d) => d,
                None => 384,
            },
        }
    }

    /// The length of the vectors the client makes.
    pub fn dimension(&self) -> (d: usize)
        ensures
            d == self.dim(),
    {
        self.dimension
    }

    /// The SHA-256 digest of the UTF-8 bytes of each word of the text, in
    /// order: what the client's vectors are made from.
    pub fn word_digests(text: &str) -> (ds: Vec<Vec<u8>>)
        ensures
            ds@.len() == words_of(text@).len(),
            forall|i: int| 0 <= i < ds@.len() ==> (#[trigger] ds@[i])@ == sha256_digest(
                vstd::utf8::encode_utf8(words_of(text@)[i]),
            ),
    {
        let words = split_words(text);
        let ghost ws = words_of(text@);
        let mut ds: Vec<Vec<u8>> = Vec::new();
        let mut i: usize = 0;
        while i < words.len()
            invariant
                i <= words@.len(),
                words@.map_values(|w: String| w@) == ws,
                ds@.len() == i,
                forall|k: int| 0 <= k < i ==> (#[trigger] ds@[k])@ == sha256_digest(vstd::utf8::encode_utf8(ws[k])),
            decreases words@.len() - i,
        {
            let bytes = words[i].as_str().as_bytes();
            let d = sha256_bytes(bytes);
            proof {
                assert(ws[i as int] == words@[i as int]@);
            }
            ds.push(d);
            i = i + 1;
        }
        ds
    }
}

} // verus!
