//! Predicates over short strings: inseparable consonant groups, the
//! position of the stressed vowel inside a vowel cluster, and the loose
//! (accent-tolerant) vowel comparison used for rhymes.

use vstd::prelude::*;
use vstd::string::StrSliceExecFns;

use crate::char_util::is_stressed_vowel;
use crate::char_util::spec_is_stressed_vowel;

verus! {

/// The two consonants form an inseparable blend or digraph
/// (bl, fl, cl, gl, pl, tl, ll; cr, br, tr, gr, fr, pr, dr, rr; ch).
pub open spec fn spec_is_group_pair(a: char, b: char) -> bool {
    ||| (b == 'l' && (a == 'b' || a == 'f' || a == 'c' || a == 'g' || a == 'p' || a == 't'
        || a == 'l'))
    ||| (b == 'r' && (a == 'c' || a == 'b' || a == 't' || a == 'g' || a == 'f' || a == 'p'
        || a == 'd' || a == 'r'))
    ||| (a == 'c' && b == 'h')
}

/// Executable form of [`spec_is_group_pair`].
#[verifier::when_used_as_spec(spec_is_group_pair)]
pub fn is_group_pair(a: char, b: char) -> (r: bool)
    ensures
        r == spec_is_group_pair(a, b),
{
    (b == 'l' && (a == 'b' || a == 'f' || a == 'c' || a == 'g' || a == 'p' || a == 't'
        || a == 'l'))
        || (b == 'r' && (a == 'c' || a == 'b' || a == 't' || a == 'g' || a == 'f' || a == 'p'
        || a == 'd' || a == 'r'))
        || (a == 'c' && b == 'h')
}

/// The string is exactly one of the fixed consonant blends or digraphs.
pub open spec fn spec_is_consonant_group(s: Seq<char>) -> bool {
    s.len() == 2 && spec_is_group_pair(s[0], s[1])
}

/// Returns true if the given string is a consonant blend or a digraph.
pub fn is_consonant_group(s: &str) -> (r: bool)
    ensures
        r == spec_is_consonant_group(s@),
{
    if s.unicode_len() != 2 {
        return false;
    }
    is_group_pair(s.get_char(0), s.get_char(1))
}

/// The position of the first stressed-class vowel at or after `i`;
/// the length of `s` if there is none.
pub open spec fn spec_first_stressed_from(s: Seq<char>, i: int) -> int
    decreases s.len() - i,
{
    if i < 0 || i >= s.len() {
        s.len() as int
    } else if spec_is_stressed_vowel(s[i]) {
        i
    } else {
        spec_first_stressed_from(s, i + 1)
    }
}

/// The index of the stressed vowel in a cluster of vowels: the first
/// stressed-class vowel, or the last character when no vowel of the
/// cluster is stressed-class (e.g. the "i" of "ui").
pub open spec fn spec_stress_index(s: Seq<char>) -> int {
    if spec_first_stressed_from(s, 0) == s.len() {
        s.len() - 1
    } else {
        spec_first_stressed_from(s, 0)
    }
}

/// The first stressed-class position lies between `i` and the length.
pub proof fn lemma_first_stressed_bounds(s: Seq<char>, i: int)
    requires
        0 <= i <= s.len(),
    ensures
        i <= spec_first_stressed_from(s, i) <= s.len(),
    decreases s.len() - i,
{
    if i < s.len() && !spec_is_stressed_vowel(s[i]) {
        lemma_first_stressed_bounds(s, i + 1);
    }
}

/// If no position before `i` holds a stressed-class vowel, the scan may
/// as well start at `i`.
pub proof fn lemma_first_stressed_skip(s: Seq<char>, i: int)
    requires
        0 <= i <= s.len(),
        forall|k: int| 0 <= k < i ==> !spec_is_stressed_vowel(s[k]),
    ensures
        spec_first_stressed_from(s, 0) == spec_first_stressed_from(s, i),
    decreases i,
{
    if i > 0 {
        lemma_first_stressed_skip(s, i - 1);
        assert(spec_first_stressed_from(s, i - 1) == spec_first_stressed_from(s, i));
    }
}

/// The stress index of a non-empty vowel cluster is a valid index.
pub proof fn lemma_stress_index_bounds(s: Seq<char>)
    requires
        s.len() >= 1,
    ensures
        0 <= spec_stress_index(s) < s.len(),
{
    lemma_first_stressed_bounds(s, 0);
}

/// Returns index of the stressed vowel in the given string of vowels.
pub fn stress_index(s: &str) -> (r: usize)
    requires
        s@.len() >= 1,
    ensures
        r as int == spec_stress_index(s@),
{
    let n = s.unicode_len();
    let mut i: usize = 0;
    while i < n
        invariant
            0 <= i <= n,
            n == s@.len(),
            forall|k: int| 0 <= k < i ==> !spec_is_stressed_vowel(s@[k]),
        decreases n - i,
    {
        if is_stressed_vowel(s.get_char(i)) {
            proof {
                lemma_first_stressed_skip(s@, i as int);
            }
            return i;
        }
        i += 1;
    }
    proof {
        lemma_first_stressed_skip(s@, n as int);
    }
    n - 1
}

/// Accent-tolerant equality of two single vowels: equal up to the
/// presence of a written accent (and u matches the diaeresis u).
pub open spec fn spec_loose_vowel(a: char, b: char) -> bool {
    if a == 'a' || a == 'á' {
        b == 'a' || b == 'á'
    } else if a == 'e' || a == 'é' {
        b == 'e' || b == 'é'
    } else if a == 'i' || a == 'í' {
        b == 'i' || b == 'í'
    } else if a == 'o' || a == 'ó' {
        b == 'o' || b == 'ó'
    } else if a == 'u' || a == 'ú' || a == 'ü' {
        b == 'u' || b == 'ú' || b == 'ü'
    } else {
        false
    }
}

/// Loose equality of two falling-diphthong pairs: the closing glide may
/// be written i or y (ai/ay, ei/ey, oi/oy, ui/uy/üi/üy).
pub open spec fn spec_loose_pair(a0: char, a1: char, b0: char, b1: char) -> bool {
    if (a1 == 'i' || a1 == 'y') && (b1 == 'i' || b1 == 'y') {
        if a0 == 'a' {
            b0 == 'a'
        } else if a0 == 'o' {
            b0 == 'o'
        } else if a0 == 'e' {
            b0 == 'e'
        } else if a0 == 'u' || a0 == 'ü' {
            b0 == 'u' || b0 == 'ü'
        } else {
            false
        }
    } else {
        false
    }
}

/// Loose (accent- and glide-tolerant) match of two vowel clusters, as
/// used when comparing the stressed vowels of two rhyming words.
pub open spec fn spec_loose_match(s: Seq<char>, t: Seq<char>) -> bool {
    if s.len() == 1 && t.len() == 1 {
        spec_loose_vowel(s[0], t[0])
    } else if s.len() == 2 && t.len() == 2 {
        spec_loose_pair(s[0], s[1], t[0], t[1])
    } else {
        false
    }
}

/// Executable form of [`spec_loose_match`].
pub fn loose_match(s: &str, t: &str) -> (r: bool)
    ensures
        r == spec_loose_match(s@, t@),
{
    let sn = s.unicode_len();
    let tn = t.unicode_len();
    if sn == 1 && tn == 1 {
        let a = s.get_char(0);
        let b = t.get_char(0);
        if a == 'a' || a == 'á' {
            b == 'a' || b == 'á'
        } else if a == 'e' || a == 'é' {
            b == 'e' || b == 'é'
        } else if a == 'i' || a == 'í' {
            b == 'i' || b == 'í'
        } else if a == 'o' || a == 'ó' {
            b == 'o' || b == 'ó'
        } else if a == 'u' || a == 'ú' || a == 'ü' {
            b == 'u' || b == 'ú' || b == 'ü'
        } else {
            false
        }
    } else if sn == 2 && tn == 2 {
        let a0 = s.get_char(0);
        let a1 = s.get_char(1);
        let b0 = t.get_char(0);
        let b1 = t.get_char(1);
        if (a1 == 'i' || a1 == 'y') && (b1 == 'i' || b1 == 'y') {
            if a0 == 'a' {
                b0 == 'a'
            } else if a0 == 'o' {
                b0 == 'o'
            } else if a0 == 'e' {
                b0 == 'e'
            } else if a0 == 'u' || a0 == 'ü' {
                b0 == 'u' || b0 == 'ü'
            } else {
                false
            }
        } else {
            false
        }
    } else {
        false
    }
}

/// One of the strings is exactly "s" and the other exactly "z".
pub open spec fn spec_is_both_s_or_z(a: Seq<char>, b: Seq<char>) -> bool {
    a.len() == 1 && b.len() == 1 && ((a[0] == 's' && b[0] == 'z') || (a[0] == 'z' && b[0]
        == 's'))
}

/// Executable form of [`spec_is_both_s_or_z`].
pub fn is_both_s_or_z(a: &str, b: &str) -> (r: bool)
    ensures
        r == spec_is_both_s_or_z(a@, b@),
{
    if a.unicode_len() != 1 || b.unicode_len() != 1 {
        return false;
    }
    let x = a.get_char(0);
    let y = b.get_char(0);
    (x == 's' && y == 'z') || (x == 'z' && y == 's')
}

/// One of the strings is exactly "b" and the other exactly "v".
pub open spec fn spec_is_both_b_or_v(a: Seq<char>, b: Seq<char>) -> bool {
    a.len() == 1 && b.len() == 1 && ((a[0] == 'b' && b[0] == 'v') || (a[0] == 'v' && b[0]
        == 'b'))
}

/// Executable form of [`spec_is_both_b_or_v`].
pub fn is_both_b_or_v(a: &str, b: &str) -> (r: bool)
    ensures
        r == spec_is_both_b_or_v(a@, b@),
{
    if a.unicode_len() != 1 || b.unicode_len() != 1 {
        return false;
    }
    let x = a.get_char(0);
    let y = b.get_char(0);
    (x == 'b' && y == 'v') || (x == 'v' && y == 'b')
}

} // verus!
