//! References that outlive the call that hands them out.

use vstd::prelude::*;
use vstd::string::{StringExecFns, StringSliceAdditionalSpecFns};
use vstd::utf8::{
    encode_utf8_valid_utf8, is_char_boundary_iff_not_is_continuation_byte, is_char_boundary_start_end_of_seq,
};

verus! {

/// The longer of two texts, counted in bytes; the second when they are equal.
pub fn longest<'a>(x: &'a str, y: &'a str) -> (r: &'a str)
    ensures
        r == (if x.spec_bytes().len() as usize > y.spec_bytes().len() as usize {
            x
        } else {
            y
        }),
{
    if x.len() > y.len() {
        x
    } else {
        y
    }
}

/// A passage that is borrowed from a longer text.
pub struct ImportantExcerpt<'a> {
    pub part: &'a str,
}

impl<'a> ImportantExcerpt<'a> {
    pub fn level(&self) -> (level: i32)
        ensures
            level == 3,
    {
        3
    }

    /// The passage itself.
    pub fn return_part(&self) -> (part: &str)
        ensures
            part == self.part,
    {
        self.part
    }
}

/// The position of the first space among the bytes, or their number where
/// there is none.
pub open spec fn word_end(bytes: Seq<u8>) -> int
    decreases bytes.len(),
{
    if bytes.len() == 0 || bytes[0] == 32u8 {
        0
    } else {
        1 + word_end(bytes.drop_first())
    }
}

/// What `word_end` is: a position in the bytes, with no space before it, and
/// a space at it unless it is the end.
pub proof fn lemma_word_end(bytes: Seq<u8>)
    ensures
        0 <= word_end(bytes) <= bytes.len(),
        forall|k: int| 0 <= k < word_end(bytes) ==> bytes[k] != 32u8,
        word_end(bytes) < bytes.len() ==> bytes[word_end(bytes)] == 32u8,
    decreases bytes.len(),
{
    if !(bytes.len() == 0 || bytes[0] == 32u8) {
        let rest = bytes.drop_first();
        lemma_word_end(rest);
        assert forall|k: int| 0 <= k < word_end(bytes) implies bytes[k] != 32u8 by {
            if k > 0 {
                assert(bytes[k] == rest[k - 1]);
            }
        }
    }
}

/// A position with no space before it, and a space at it unless it is the
/// end, is the end of the first word.
pub proof fn lemma_word_end_found(bytes: Seq<u8>, i: int)
    requires
        0 <= i <= bytes.len(),
        forall|k: int| 0 <= k < i ==> bytes[k] != 32u8,
        i < bytes.len() ==> bytes[i] == 32u8,
    ensures
        word_end(bytes) == i,
    decreases bytes.len(),
{
    if i > 0 {
        let rest = bytes.drop_first();
        assert forall|k: int| 0 <= k < i - 1 implies rest[k] != 32u8 by {
            assert(rest[k] == bytes[k + 1]);
        }
        lemma_word_end_found(rest, i - 1);
    }
}

/// The position of the first space among the bytes, or their number where
/// there is none.
pub fn first_word_end(bytes: &[u8]) -> (end: usize)
    ensures
        end == word_end(bytes@),
{
    let mut i: usize = 0;
    while i < bytes.len()
        invariant
            i <= bytes@.len(),
            forall|k: int| 0 <= k < i ==> bytes@[k] != 32u8,
        decreases bytes@.len() - i,
    {
        if bytes[i] == 32u8 {
            proof {
                lemma_word_end_found(bytes@, i as int);
            }
            return i;
        }
        i += 1;
    }
    proof {
        lemma_word_end_found(bytes@, i as int);
    }
    i
}

/// The first word of a text: what stands before its first space, or all of
/// it where it has no space.
pub fn first_word(s: &str) -> (word: &str)
    ensures
        word.spec_bytes() == s.spec_bytes().subrange(0, word_end(s.spec_bytes())),
{
    let end = first_word_end(s.as_bytes());
    proof {
        let bytes = s.spec_bytes();
        lemma_word_end(bytes);
        encode_utf8_valid_utf8(s@);
        if end < bytes.len() {
            is_char_boundary_iff_not_is_continuation_byte(bytes, end as int);
        } else {
            is_char_boundary_start_end_of_seq(bytes);
        }
    }
    let (word, _) = s.split_at(end);
    word
}

/// The first of two texts, whatever their lengths.
pub fn longest_of_three<'a, 'b>(x: &'a str, y: &'b str) -> (r: &'a str) where 'b: 'a
    ensures
        r == x,
{
    if x.len() > y.len() {
        x
    } else {
        x
    }
}

/// Appends `" changed"` to a mutably borrowed string.
pub fn change_string<'a>(s: &'a mut String)
    ensures
        final(s)@ == old(s)@ + " changed"@,
{
    s.append(" changed");
}

/// The first of the words, if there is any.
pub fn first_word_iter<'a>(words: &'a [&str]) -> (first: Option<&'a str>)
    ensures
        first == (if words@.len() > 0 {
            Some(words@[0])
        } else {
            None
        }),
{
    if words.len() > 0 {
        Some(words[0])
    } else {
        None
    }
}

/// Hands out a string that it made: nothing dangles.
pub fn no_dangle() -> (s: String)
    ensures
        s@ == "hello"@,
{
    let s = "hello".to_owned();
    s
}

} // verus!
