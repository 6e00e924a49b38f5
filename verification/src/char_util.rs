//! Single-character classifiers for Spanish orthography, and the pairwise
//! classifier that decides whether two adjacent vowels form a diphthong,
//! a hiatus, or neither.

use vstd::prelude::*;

use crate::DiphthongType;
use crate::HiatusType;

verus! {

/// How two adjacent vowel characters combine.
#[derive(PartialEq, Eq, Structural, Debug, Clone, Copy)]
pub enum ComboType {
    /// The pair stays inside one syllable.
    Diphthong(DiphthongType),
    /// The pair is split across two syllables.
    Hiatus(HiatusType),
    /// Not a vowel pairing recognised for segmentation.
    Other,
}

/// A vowel letter, with or without a written accent or diaeresis.
/// `y` is not counted as a vowel by this predicate.
pub open spec fn spec_is_vowel(c: char) -> bool {
    c == 'a' || c == 'e' || c == 'i' || c == 'o' || c == 'u' || c == 'ü'
        || c == 'A' || c == 'E' || c == 'I' || c == 'O' || c == 'U' || c == 'Ü'
        || c == 'á' || c == 'é' || c == 'í' || c == 'ó' || c == 'ú'
        || c == 'Á' || c == 'É' || c == 'Í' || c == 'Ó' || c == 'Ú'
}

/// Executable form of [`spec_is_vowel`].
#[verifier::when_used_as_spec(spec_is_vowel)]
pub fn is_vowel(c: char) -> (r: bool)
    ensures
        r == spec_is_vowel(c),
{
    c == 'a' || c == 'e' || c == 'i' || c == 'o' || c == 'u' || c == 'ü'
        || c == 'A' || c == 'E' || c == 'I' || c == 'O' || c == 'U' || c == 'Ü'
        || c == 'á' || c == 'é' || c == 'í' || c == 'ó' || c == 'ú'
        || c == 'Á' || c == 'É' || c == 'Í' || c == 'Ó' || c == 'Ú'
}

/// A weak (glide-capable) vowel: i, u, the diaeresis u, or y.
pub open spec fn spec_is_weak_vowel(c: char) -> bool {
    c == 'i' || c == 'y' || c == 'u' || c == 'ü'
        || c == 'I' || c == 'Y' || c == 'U' || c == 'Ü'
}

/// Executable form of [`spec_is_weak_vowel`].
#[verifier::when_used_as_spec(spec_is_weak_vowel)]
pub fn is_weak_vowel(c: char) -> (r: bool)
    ensures
        r == spec_is_weak_vowel(c),
{
    c == 'i' || c == 'y' || c == 'u' || c == 'ü'
        || c == 'I' || c == 'Y' || c == 'U' || c == 'Ü'
}

/// A stressed-class vowel: any accented vowel, or an unaccented strong
/// vowel (a, e, o). These are the vowels that attract stress inside a
/// vowel cluster.
pub open spec fn spec_is_stressed_vowel(c: char) -> bool {
    c == 'á' || c == 'é' || c == 'í' || c == 'ó' || c == 'ú'
        || c == 'Á' || c == 'É' || c == 'Í' || c == 'Ó' || c == 'Ú'
        || c == 'a' || c == 'e' || c == 'o'
        || c == 'A' || c == 'E' || c == 'O'
}

/// Executable form of [`spec_is_stressed_vowel`].
#[verifier::when_used_as_spec(spec_is_stressed_vowel)]
pub fn is_stressed_vowel(c: char) -> (r: bool)
    ensures
        r == spec_is_stressed_vowel(c),
{
    c == 'á' || c == 'é' || c == 'í' || c == 'ó' || c == 'ú'
        || c == 'Á' || c == 'É' || c == 'Í' || c == 'Ó' || c == 'Ú'
        || c == 'a' || c == 'e' || c == 'o'
        || c == 'A' || c == 'E' || c == 'O'
}

/// A vowel carrying an explicit written accent mark.
pub open spec fn spec_is_accented_vowel(c: char) -> bool {
    c == 'á' || c == 'é' || c == 'í' || c == 'ó' || c == 'ú'
        || c == 'Á' || c == 'É' || c == 'Í' || c == 'Ó' || c == 'Ú'
}

/// Executable form of [`spec_is_accented_vowel`].
#[verifier::when_used_as_spec(spec_is_accented_vowel)]
pub fn is_accented_vowel(c: char) -> (r: bool)
    ensures
        r == spec_is_accented_vowel(c),
{
    c == 'á' || c == 'é' || c == 'í' || c == 'ó' || c == 'ú'
        || c == 'Á' || c == 'É' || c == 'Í' || c == 'Ó' || c == 'Ú'
}

/// A character that makes a preceding `c` soft (relevant only to rhyme
/// onset equivalence, never to segmentation).
pub open spec fn spec_is_soft_c_trigger(c: char) -> bool {
    c == 'e' || c == 'i' || c == 'é' || c == 'í'
        || c == 'É' || c == 'Í' || c == 'E' || c == 'I'
        || c == 'y' || c == 'Y'
}

/// Executable form of [`spec_is_soft_c_trigger`].
#[verifier::when_used_as_spec(spec_is_soft_c_trigger)]
pub fn is_soft_c_trigger(c: char) -> (r: bool)
    ensures
        r == spec_is_soft_c_trigger(c),
{
    c == 'e' || c == 'i' || c == 'é' || c == 'í'
        || c == 'É' || c == 'Í' || c == 'E' || c == 'I'
        || c == 'y' || c == 'Y'
}

/// The pairwise rule table: how the adjacent vowels `a` then `b` combine.
/// Case-insensitive, diacritic-sensitive.
pub open spec fn spec_combo_type(a: char, b: char) -> ComboType {
    if a == 'e' || a == 'a' || a == 'E' || a == 'A' || a == 'á' || a == 'é' || a == 'Á'
        || a == 'É' {
        // Strong a/e, accented or not.
        if b == 'i' || b == 'u' || b == 'I' || b == 'U' {
            ComboType::Diphthong(DiphthongType::Falling)
        } else if b == 'a' || b == 'e' || b == 'o' || b == 'ü' || b == 'A' || b == 'E'
            || b == 'O' || b == 'Ü' {
            ComboType::Hiatus(HiatusType::Simple)
        } else if spec_is_accented_vowel(b) {
            ComboType::Hiatus(HiatusType::Accentual)
        } else {
            ComboType::Other
        }
    } else if a == 'i' || a == 'I' {
        if b == 'a' || b == 'e' || b == 'o' || b == 'á' || b == 'é' || b == 'ó' || b == 'A'
            || b == 'E' || b == 'O' || b == 'Á' || b == 'É' || b == 'Ó' {
            ComboType::Diphthong(DiphthongType::Rising)
        } else if b == 'u' || b == 'ú' || b == 'ü' || b == 'U' || b == 'Ú' || b == 'Ü' {
            ComboType::Diphthong(DiphthongType::Homogenous)
        } else if b == 'i' || b == 'I' {
            ComboType::Hiatus(HiatusType::Simple)
        } else if b == 'í' || b == 'Í' {
            ComboType::Hiatus(HiatusType::Accentual)
        } else {
            ComboType::Other
        }
    } else if a == 'o' || a == 'O' {
        if b == 'i' || b == 'u' || b == 'ü' || b == 'I' || b == 'U' || b == 'Ü' {
            ComboType::Diphthong(DiphthongType::Falling)
        } else if b == 'a' || b == 'e' || b == 'o' || b == 'A' || b == 'E' || b == 'O' {
            ComboType::Hiatus(HiatusType::Simple)
        } else if spec_is_accented_vowel(b) {
            ComboType::Hiatus(HiatusType::Accentual)
        } else {
            ComboType::Other
        }
    } else if a == 'u' || a == 'ü' || a == 'U' || a == 'Ü' {
        if b == 'a' || b == 'e' || b == 'o' || b == 'á' || b == 'é' || b == 'ó' || b == 'A'
            || b == 'E' || b == 'O' || b == 'Á' || b == 'É' || b == 'Ó' {
            ComboType::Diphthong(DiphthongType::Rising)
        } else if b == 'i' || b == 'I' {
            ComboType::Diphthong(DiphthongType::Homogenous)
        } else if b == 'u' || b == 'ü' || b == 'U' || b == 'Ü' {
            ComboType::Hiatus(HiatusType::Simple)
        } else if b == 'ú' || b == 'Ú' {
            ComboType::Hiatus(HiatusType::Accentual)
        } else {
            ComboType::Other
        }
    } else if a == 'í' || a == 'Í' || a == 'ú' || a == 'Ú' {
        if b == 'a' || b == 'e' || b == 'i' || b == 'u' || b == 'o' || b == 'A' || b == 'E'
            || b == 'I' || b == 'U' || b == 'O' {
            ComboType::Hiatus(HiatusType::Simple)
        } else if b == 'á' || b == 'é' || b == 'í' || b == 'ó' || b == 'ú' || b == 'ü'
            || b == 'Á' || b == 'É' || b == 'Í' || b == 'Ó' || b == 'Ú' || b == 'Ü' {
            ComboType::Hiatus(HiatusType::Accentual)
        } else {
            ComboType::Other
        }
    } else if a == 'ó' || a == 'Ó' {
        if b == 'i' || b == 'u' || b == 'ü' || b == 'I' || b == 'U' || b == 'Ü' {
            ComboType::Diphthong(DiphthongType::Falling)
        } else if b == 'a' || b == 'e' || b == 'o' || b == 'á' || b == 'é' || b == 'í'
            || b == 'ó' || b == 'ú' || b == 'A' || b == 'E' || b == 'O' || b == 'Á'
            || b == 'É' || b == 'Í' || b == 'Ó' || b == 'Ú' {
            ComboType::Hiatus(HiatusType::Accentual)
        } else {
            ComboType::Other
        }
    } else {
        ComboType::Other
    }
}

/// Executable form of [`spec_combo_type`].
#[verifier::when_used_as_spec(spec_combo_type)]
pub fn combo_type(a: char, b: char) -> (r: ComboType)
    ensures
        r == spec_combo_type(a, b),
{
    if a == 'e' || a == 'a' || a == 'E' || a == 'A' || a == 'á' || a == 'é' || a == 'Á'
        || a == 'É' {
        if b == 'i' || b == 'u' || b == 'I' || b == 'U' {
            ComboType::Diphthong(DiphthongType::Falling)
        } else if b == 'a' || b == 'e' || b == 'o' || b == 'ü' || b == 'A' || b == 'E'
            || b == 'O' || b == 'Ü' {
            ComboType::Hiatus(HiatusType::Simple)
        } else if is_accented_vowel(b) {
            ComboType::Hiatus(HiatusType::Accentual)
        } else {
            ComboType::Other
        }
    } else if a == 'i' || a == 'I' {
        if b == 'a' || b == 'e' || b == 'o' || b == 'á' || b == 'é' || b == 'ó' || b == 'A'
            || b == 'E' || b == 'O' || b == 'Á' || b == 'É' || b == 'Ó' {
            ComboType::Diphthong(DiphthongType::Rising)
        } else if b == 'u' || b == 'ú' || b == 'ü' || b == 'U' || b == 'Ú' || b == 'Ü' {
            ComboType::Diphthong(DiphthongType::Homogenous)
        } else if b == 'i' || b == 'I' {
            ComboType::Hiatus(HiatusType::Simple)
        } else if b == 'í' || b == 'Í' {
            ComboType::Hiatus(HiatusType::Accentual)
        } else {
            ComboType::Other
        }
    } else if a == 'o' || a == 'O' {
        if b == 'i' || b == 'u' || b == 'ü' || b == 'I' || b == 'U' || b == 'Ü' {
            ComboType::Diphthong(DiphthongType::Falling)
        } else if b == 'a' || b == 'e' || b == 'o' || b == 'A' || b == 'E' || b == 'O' {
            ComboType::Hiatus(HiatusType::Simple)
        } else if is_accented_vowel(b) {
            ComboType::Hiatus(HiatusType::Accentual)
        } else {
            ComboType::Other
        }
    } else if a == 'u' || a == 'ü' || a == 'U' || a == 'Ü' {
        if b == 'a' || b == 'e' || b == 'o' || b == 'á' || b == 'é' || b == 'ó' || b == 'A'
            || b == 'E' || b == 'O' || b == 'Á' || b == 'É' || b == 'Ó' {
            ComboType::Diphthong(DiphthongType::Rising)
        } else if b == 'i' || b == 'I' {
            ComboType::Diphthong(DiphthongType::Homogenous)
        } else if b == 'u' || b == 'ü' || b == 'U' || b == 'Ü' {
            ComboType::Hiatus(HiatusType::Simple)
        } else if b == 'ú' || b == 'Ú' {
            ComboType::Hiatus(HiatusType::Accentual)
        } else {
            ComboType::Other
        }
    } else if a == 'í' || a == 'Í' || a == 'ú' || a == 'Ú' {
        if b == 'a' || b == 'e' || b == 'i' || b == 'u' || b == 'o' || b == 'A' || b == 'E'
            || b == 'I' || b == 'U' || b == 'O' {
            ComboType::Hiatus(HiatusType::Simple)
        } else if b == 'á' || b == 'é' || b == 'í' || b == 'ó' || b == 'ú' || b == 'ü'
            || b == 'Á' || b == 'É' || b == 'Í' || b == 'Ó' || b == 'Ú' || b == 'Ü' {
            ComboType::Hiatus(HiatusType::Accentual)
        } else {
            ComboType::Other
        }
    } else if a == 'ó' || a == 'Ó' {
        if b == 'i' || b == 'u' || b == 'ü' || b == 'I' || b == 'U' || b == 'Ü' {
            ComboType::Diphthong(DiphthongType::Falling)
        } else if b == 'a' || b == 'e' || b == 'o' || b == 'á' || b == 'é' || b == 'í'
            || b == 'ó' || b == 'ú' || b == 'A' || b == 'E' || b == 'O' || b == 'Á'
            || b == 'É' || b == 'Í' || b == 'Ó' || b == 'Ú' {
            ComboType::Hiatus(HiatusType::Accentual)
        } else {
            ComboType::Other
        }
    } else {
        ComboType::Other
    }
}

/// Whether the adjacent vowels `a` then `b` belong to different syllables.
pub open spec fn spec_can_form_hiatus(a: char, b: char) -> bool {
    spec_combo_type(a, b) is Hiatus
}

/// Executable form of [`spec_can_form_hiatus`].
#[verifier::when_used_as_spec(spec_can_form_hiatus)]
pub fn can_form_hiatus(a: char, b: char) -> (r: bool)
    ensures
        r == spec_can_form_hiatus(a, b),
{
    match combo_type(a, b) {
        ComboType::Hiatus(_) => true,
        _ => false,
    }
}

/// Whether the three characters make a triphthong: weak vowel, then a
/// stressed-class vowel, then a weak vowel.
pub open spec fn spec_can_form_triphthong(a: char, b: char, c: char) -> bool {
    spec_is_weak_vowel(a) && spec_is_stressed_vowel(b) && spec_is_weak_vowel(c)
}

/// Executable form of [`spec_can_form_triphthong`].
#[verifier::when_used_as_spec(spec_can_form_triphthong)]
pub fn can_form_triphthong(a: char, b: char, c: char) -> (r: bool)
    ensures
        r == spec_can_form_triphthong(a, b, c),
{
    is_weak_vowel(a) && is_stressed_vowel(b) && is_weak_vowel(c)
}

} // verus!
