//! A syllable: onset, nucleus and coda, each a (possibly empty) run of
//! characters whose concatenation is the syllable's surface text.

use vstd::prelude::*;
use vstd::string::StrSliceExecFns;
use vstd::string::StringExecFns;

use crate::char_util::is_accented_vowel;
use crate::char_util::spec_is_accented_vowel;
use crate::str_util::lemma_stress_index_bounds;
use crate::str_util::spec_stress_index;
use crate::str_util::stress_index;
use crate::text::string_from_chars;

verus! {

/// The mathematical content of a [`Syllable`]: its three character runs.
pub ghost struct SyllableView {
    /// Characters of the onset.
    pub onset: Seq<char>,
    /// Characters of the nucleus.
    pub nucleus: Seq<char>,
    /// Characters of the coda.
    pub coda: Seq<char>,
}

impl SyllableView {
    /// The surface text of the syllable.
    pub open spec fn text(self) -> Seq<char> {
        self.onset + self.nucleus + self.coda
    }

    /// Some character of the nucleus carries a written accent.
    pub open spec fn has_accent(self) -> bool {
        exists|i: int| 0 <= i < self.nucleus.len() && spec_is_accented_vowel(self.nucleus[i])
    }
}

/// The part of a nucleus from its stressed vowel onward: the whole
/// nucleus when it has at most one character, otherwise its suffix from
/// the cluster's stress index.
pub open spec fn spec_vowels_since_stress(nucleus: Seq<char>) -> Seq<char> {
    if nucleus.len() <= 1 {
        nucleus
    } else {
        nucleus.skip(spec_stress_index(nucleus))
    }
}

/// Basic syllable and its related methods.
#[derive(Debug, Clone, PartialEq)]
pub struct Syllable {
    /// The starting consonant(s). "Ataque" in Spanish.
    pub onset: String,
    /// The vowel(s). "Nucleo" in Spanish.
    pub nucleus: String,
    /// Finishing consonant(s). "Coda" in Spanish.
    pub coda: String,
}

impl View for Syllable {
    type V = SyllableView;

    open spec fn view(&self) -> SyllableView {
        SyllableView { onset: self.onset@, nucleus: self.nucleus@, coda: self.coda@ }
    }
}

impl Syllable {
    /// Returns true if there is an accented vowel in the nucleus.
    pub fn has_accented_vowel(&self) -> (r: bool)
        ensures
            r == self@.has_accent(),
    {
        let n = self.nucleus.as_str().unicode_len();
        let mut i: usize = 0;
        while i < n
            invariant
                0 <= i <= n,
                n == self.nucleus@.len(),
                forall|k: int| 0 <= k < i ==> !spec_is_accented_vowel(self.nucleus@[k]),
            decreases n - i,
        {
            if is_accented_vowel(self.nucleus.as_str().get_char(i)) {
                proof {
                    assert((i as int) < self@.nucleus.len() && spec_is_accented_vowel(
                        self@.nucleus[i as int],
                    ));
                }
                return true;
            }
            i += 1;
        }
        false
    }

    /// Returns the part of the nucleus starting from the stressed vowel.
    pub fn vowels_since_stress(&self) -> (r: String)
        ensures
            r@ == spec_vowels_since_stress(self@.nucleus),
    {
        let n = self.nucleus.as_str().unicode_len();
        if n <= 1 {
            return self.nucleus.clone();
        }
        let index = stress_index(self.nucleus.as_str());
        proof {
            lemma_stress_index_bounds(self.nucleus@);
        }
        let mut tail: Vec<char> = Vec::new();
        let mut i: usize = index;
        while i < n
            invariant
                index <= i <= n,
                n == self.nucleus@.len(),
                tail@ == self.nucleus@.subrange(index as int, i as int),
            decreases n - i,
        {
            tail.push(self.nucleus.as_str().get_char(i));
            proof {
                assert(tail@ =~= self.nucleus@.subrange(index as int, i + 1));
            }
            i += 1;
        }
        let r = string_from_chars(&tail);
        proof {
            assert(tail@ =~= self.nucleus@.skip(index as int));
        }
        r
    }

    /// The syllable's surface text: onset, nucleus and coda concatenated.
    pub fn to_string(&self) -> (r: String)
        ensures
            r@ == self@.text(),
    {
        let mut r = self.onset.clone();
        r.append(self.nucleus.as_str());
        r.append(self.coda.as_str());
        r
    }
}

} // verus!
