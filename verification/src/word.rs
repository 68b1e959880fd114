//! The word model: an ordered sequence of exactly 5 letters over a 26-symbol
//! lowercase alphabet, together with a derived bit-level letter set used for
//! fast containment tests.

use vstd::prelude::*;
use vstd::string::StrSliceExecFns;

use fixedbitset::FixedBitSet;

use crate::bits::bits_of;
use crate::bits::bitset_clone;
use crate::bits::bitset_insert;
use crate::bits::bitset_with_capacity;
use crate::bits::nbits_of;

verus! {

/// A lowercase letter of the alphabet.
pub open spec fn is_lower_char(c: char) -> bool {
    'a' as u32 <= c as u32 && c as u32 <= 'z' as u32
}

/// A string that can become a word: exactly 5 lowercase letters.
pub open spec fn is_word_str(s: Seq<char>) -> bool {
    s.len() == 5 && forall|i: int| 0 <= i < s.len() ==> is_lower_char(#[trigger] s[i])
}

/// The letter index (0 for 'a' through 25 for 'z') of a lowercase character.
pub open spec fn letter_of_char(c: char) -> usize {
    (c as u32 - 'a' as u32) as usize
}

/// The lowercase character of a letter index below 26.
pub open spec fn char_of_letter(l: usize) -> char {
    (((l + 97) as u32) as char)
}

/// The letter indices of a string, position by position.
pub open spec fn word_indices(s: Seq<char>) -> Seq<usize> {
    Seq::new(s.len(), |i: int| letter_of_char(s[i]))
}

/// The characters of a sequence of letter indices, position by position.
pub open spec fn word_chars(ls: Seq<usize>) -> Seq<char> {
    Seq::new(ls.len(), |i: int| char_of_letter(ls[i]))
}

/// A well-formed word value: 5 letter indices, each below 26.
pub open spec fn wf_letters(w: Seq<usize>) -> bool {
    w.len() == 5 && forall|i: int| 0 <= i < w.len() ==> #[trigger] w[i] < 26
}

/// An ordered sequence of exactly 5 letter indices, with the derived set of
/// distinct letters present. Words are immutable once constructed.
pub struct Word {
    /// The letters in order, as indices 0..26.
    pub orig: Vec<usize>,
    /// The set of distinct letters of `orig`, over a 26-bit universe.
    pub letters: FixedBitSet,
}

impl View for Word {
    type V = Seq<usize>;

    open spec fn view(&self) -> Seq<usize> {
        self.orig@
    }
}

impl Word {
    /// The letter set is always exactly the set of distinct letters of the
    /// ordered sequence.
    pub open spec fn wf(&self) -> bool {
        &&& wf_letters(self.orig@)
        &&& bits_of(self.letters) == self.orig@.to_set()
        &&& nbits_of(self.letters) == 26
    }

    /// Constructs a word from a 5-character lowercase string. Callers must
    /// not pass malformed vocabulary entries; `is_valid_word` checks.
    pub fn new(s: &str) -> (r: Word)
        requires
            is_word_str(s@),
        ensures
            r.wf(),
            r@ == word_indices(s@),
    {
        let mut orig: Vec<usize> = Vec::new();
        let mut letters = bitset_with_capacity(26);
        let mut i: usize = 0;
        while i < 5
            invariant
                is_word_str(s@),
                i <= 5,
                orig@ == word_indices(s@).take(i as int),
                bits_of(letters) == orig@.to_set(),
                nbits_of(letters) == 26,
            decreases 5 - i,
        {
            assert(is_lower_char(s@[i as int]));
            let c = s.get_char(i);
            let l = (c as u32 - 'a' as u32) as usize;
            let ghost prev = orig@;
            orig.push(l);
            bitset_insert(&mut letters, l);
            proof {
                prev.lemma_push_to_set_commute(l);
                assert(orig@ =~= word_indices(s@).take(i + 1));
            }
            i = i + 1;
        }
        proof {
            assert(word_indices(s@).take(5) =~= word_indices(s@));
        }
        Word { orig, letters }
    }

    /// Renders the word back to its 5-letter lowercase string; the exact
    /// inverse of construction.
    pub fn render(&self) -> (r: String)
        requires
            self.wf(),
        ensures
            r@ == word_chars(self@),
    {
        let mut bytes: Vec<u8> = Vec::new();
        let mut i: usize = 0;
        while i < 5
            invariant
                self.wf(),
                i <= 5,
                bytes@.len() == i,
                forall|j: int| 0 <= j < i ==> #[trigger] bytes@[j] == (self@[j] + 97) as u8,
            decreases 5 - i,
        {
            let l = self.orig[i];
            bytes.push((l + 97) as u8);
            i = i + 1;
        }
        let r = ascii_to_string(bytes);
        proof {
            assert(r@ =~= word_chars(self@));
        }
        r
    }
}

impl Clone for Word {
    /// The copy has the same letters in the same order and an equal letter
    /// set.
    fn clone(&self) -> (r: Self)
        ensures
            r@ == self@,
            self.wf() ==> r.wf(),
    {
        let mut orig: Vec<usize> = Vec::new();
        let mut i: usize = 0;
        let n = self.orig.len();
        while i < n
            invariant
                i <= n,
                n == self.orig@.len(),
                orig@ == self.orig@.take(i as int),
            decreases n - i,
        {
            let l = self.orig[i];
            orig.push(l);
            proof {
                assert(orig@ =~= self.orig@.take(i + 1));
            }
            i = i + 1;
        }
        proof {
            assert(self.orig@.take(n as int) =~= self.orig@);
        }
        Word { orig, letters: bitset_clone(&self.letters) }
    }
}

/// Checks that a string is exactly 5 lowercase letters, so that it may be
/// handed to `Word::new`.
pub fn is_valid_word(s: &str) -> (r: bool)
    ensures
        r == is_word_str(s@),
{
    let n = s.unicode_len();
    if n != 5 {
        return false;
    }
    let mut i: usize = 0;
    while i < 5
        invariant
            s@.len() == 5,
            i <= 5,
            forall|j: int| 0 <= j < i ==> is_lower_char(#[trigger] s@[j]),
        decreases 5 - i,
    {
        let c = s.get_char(i);
        let u = c as u32;
        if u < 'a' as u32 || u > 'z' as u32 {
            return false;
        }
        i = i + 1;
    }
    true
}

/// Relies on `String::from_utf8`: ASCII bytes decode to one character per
/// byte, in order; on ASCII input the call cannot fail.
#[verifier::external_body]
fn ascii_to_string(bytes: Vec<u8>) -> (r: String)
    requires
        forall|i: int| 0 <= i < bytes@.len() ==> #[trigger] bytes@[i] < 128,
    ensures
        r@ == bytes@.map(|_i: int, b: u8| ((b as u32) as char)),
{
    String::from_utf8(bytes).unwrap()
}

/// Rendering a word constructed from a 5-letter lowercase string yields the
/// original string: construction and rendering round-trip.
pub proof fn lemma_word_round_trip(s: Seq<char>)
    requires
        is_word_str(s),
    ensures
        word_chars(word_indices(s)) == s,
{
    assert forall|i: int| 0 <= i < s.len() implies word_chars(word_indices(s))[i] == s[i] by {
        assert(is_lower_char(s[i]));
        assert(word_indices(s)[i] == letter_of_char(s[i]));
        vstd::utf8::char_u32_cast(s[i], s[i] as u32);
    }
    assert(word_chars(word_indices(s)) =~= s);
}

} // verus!
