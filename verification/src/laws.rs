//! Properties that hold across the library's functions: determinism of
//! parsing, precedence of written accents in stress resolution, and the
//! rhyme being a bounded suffix of the word.
//!
//! The round-trip property — a segmented word concatenates back to its
//! input — is [`crate::syllabifier::lemma_round_trip`], next to the
//! segmentation it speaks about.

use vstd::prelude::*;

use crate::lemma_last_accent_before;
use crate::spec_identify_stress;
use crate::spec_last_accent_before;
use crate::spec_parse;
use crate::spec_rhyme;
use crate::str_util::lemma_stress_index_bounds;
use crate::str_util::spec_stress_index;
use crate::syllabifier::concat_texts;
use crate::syllabifier::lemma_round_trip;
use crate::syllabifier::spec_syllabify;
use crate::syllable::spec_vowels_since_stress;
use crate::syllable::SyllableView;

verus! {

/// Idempotence: parsing is a pure function of the character sequence,
/// so two parses of the same text yield identical syllable sequences
/// and the same stress index.
pub proof fn lemma_parse_deterministic(
    s: Seq<char>,
    syls1: Seq<SyllableView>,
    stress1: int,
    syls2: Seq<SyllableView>,
    stress2: int,
)
    requires
        spec_parse(s, syls1, stress1),
        spec_parse(s, syls2, stress2),
    ensures
        syls1 == syls2,
        stress1 == stress2,
{
}

/// Written accents take precedence: whenever some syllable carries an
/// accented vowel, the stressed syllable is accented — and it is the
/// accented syllable closest to the end of the word.
pub proof fn lemma_accent_wins(syls: Seq<SyllableView>)
    requires
        syls.len() >= 1,
        exists|i: int| 0 <= i < syls.len() && syls[i].has_accent(),
    ensures
        syls[spec_identify_stress(syls)].has_accent(),
        forall|k: int| spec_identify_stress(syls) < k < syls.len() ==> !syls[k].has_accent(),
{
    if syls.len() == 1 {
        let i = choose|i: int| 0 <= i < syls.len() && syls[i].has_accent();
        assert(i == 0);
    } else {
        lemma_last_accent_before(syls, syls.len() as int);
        if spec_last_accent_before(syls, syls.len() as int) == -1 {
            let i = choose|i: int| 0 <= i < syls.len() && syls[i].has_accent();
            assert(!syls[i].has_accent());
        }
    }
}

/// The rhyme is a suffix of the word's text, and so never longer than
/// the word: it holds nothing before the stressed vowel of the stressed
/// syllable.
pub proof fn lemma_rhyme_is_suffix(syls: Seq<SyllableView>, stress: int)
    requires
        syls.len() == 0 ==> stress == 0,
        syls.len() > 0 ==> 0 <= stress < syls.len(),
    ensures
        spec_rhyme(syls, stress).len() <= concat_texts(syls).len(),
        spec_rhyme(syls, stress) == concat_texts(syls).skip(
            concat_texts(syls).len() - spec_rhyme(syls, stress).len(),
        ),
    decreases syls.len(),
{
    if syls.len() == 0 {
        assert(spec_rhyme(syls, stress) =~= concat_texts(syls).skip(0));
    } else if stress >= 1 {
        let tail = syls.drop_first();
        assert(tail[stress - 1] == syls[stress]);
        assert(tail.skip(stress) =~= syls.skip(stress + 1));
        assert(spec_rhyme(tail, stress - 1) == spec_rhyme(syls, stress));
        lemma_rhyme_is_suffix(tail, stress - 1);
        let r = spec_rhyme(syls, stress);
        let a = syls[0].text();
        let b = concat_texts(tail);
        assert(concat_texts(syls) == a + b);
        assert(r == b.skip(b.len() - r.len()));
        assert((a + b).skip((a + b).len() - r.len()) =~= b.skip(b.len() - r.len()));
    } else {
        let first = syls[0];
        let rest = concat_texts(syls.drop_first());
        assert(syls.skip(1) =~= syls.drop_first());
        let j: int = if first.nucleus.len() <= 1 {
            0
        } else {
            spec_stress_index(first.nucleus)
        };
        if first.nucleus.len() > 1 {
            lemma_stress_index_bounds(first.nucleus);
        }
        assert(spec_vowels_since_stress(first.nucleus) =~= first.nucleus.skip(j));
        let r = spec_rhyme(syls, stress);
        assert(r == first.nucleus.skip(j) + first.coda + rest);
        assert(concat_texts(syls) == first.text() + rest);
        assert(concat_texts(syls).len() - r.len() == first.onset.len() + j);
        assert(r =~= concat_texts(syls).skip(first.onset.len() + j));
    }
}

/// The rhyme of a successfully segmented word is a suffix of that word,
/// and never longer than it.
pub proof fn lemma_rhyme_within_word(s: Seq<char>, syls: Seq<SyllableView>, stress: int)
    requires
        spec_syllabify(s) == Some(syls),
        syls.len() == 0 ==> stress == 0,
        syls.len() > 0 ==> 0 <= stress < syls.len(),
    ensures
        spec_rhyme(syls, stress).len() <= s.len(),
        spec_rhyme(syls, stress) == s.skip(s.len() - spec_rhyme(syls, stress).len()),
{
    lemma_round_trip(s);
    lemma_rhyme_is_suffix(syls, stress);
}

} // verus!
