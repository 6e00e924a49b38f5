//! Syllabification of Spanish words from their written form: splitting a word
//! into onset/nucleus/coda syllables, finding the stressed syllable, and
//! deriving rhyme information.

use vstd::prelude::*;
use vstd::string::StrSliceExecFns;
use vstd::string::StringExecFns;

use crate::syllabifier::concat_texts;
use crate::syllabifier::lemma_concat_push;
use crate::syllabifier::spec_syllabify;
use crate::syllabifier::to_syllables;
use crate::syllabifier::views_of;
use crate::syllable::spec_vowels_since_stress;
use crate::syllable::Syllable;
use crate::syllable::SyllableView;

pub mod char_util;
pub mod laws;
pub mod str_util;
pub mod syllabifier;
pub mod syllable;
mod text;

verus! {

/// The word could not be segmented: a lookahead required by a digraph
/// ran past the end of the input.
#[derive(PartialEq, Eq, Structural, Debug, Clone, Copy)]
pub struct InvalidWord;

/// Stress classes, named by the distance of the stressed syllable
/// from the end of the word.
#[derive(PartialEq, Eq, Structural, Debug, Clone, Copy)]
pub enum StressType {
    /// Aguda: stress on the last syllable.
    Oxytone,
    /// Llana or grave: stress on the penultimate syllable.
    Paroxytone,
    /// Esdrujula: stress on the third-to-last syllable.
    Proparoxytone,
    /// Sobresdrujula: stress on the fourth-to-last syllable or earlier.
    Superproparoxytone,
}

/// The stress class for a stressed syllable `d` places before the last.
pub open spec fn spec_stress_type(d: int) -> StressType {
    if d == 0 {
        StressType::Oxytone
    } else if d == 1 {
        StressType::Paroxytone
    } else if d == 2 {
        StressType::Proparoxytone
    } else {
        StressType::Superproparoxytone
    }
}

/// The index of the last syllable before position `n` whose nucleus
/// carries a written accent; -1 when there is none.
pub open spec fn spec_last_accent_before(syls: Seq<SyllableView>, n: int) -> int
    decreases n,
{
    if n <= 0 {
        -1
    } else if syls[n - 1].has_accent() {
        n - 1
    } else {
        spec_last_accent_before(syls, n - 1)
    }
}

/// The default stress position of a word without any written accent:
/// the last syllable when it ends in a closing triphthong or in a
/// consonant other than n or s, otherwise the second-to-last.
pub open spec fn spec_default_stress(syls: Seq<SyllableView>) -> int {
    let last = syls[syls.len() - 1];
    if last.coda.len() == 0 {
        if last.nucleus.len() == 3 {
            syls.len() - 1
        } else {
            syls.len() - 2
        }
    } else if last.coda.len() == 1 && (last.coda[0] == 'n' || last.coda[0] == 's') {
        syls.len() - 2
    } else {
        syls.len() - 1
    }
}

/// The stressed syllable of a syllable sequence: with zero or one
/// syllables, the first; otherwise the accented syllable closest to the
/// end, and failing that the default rule.
pub open spec fn spec_identify_stress(syls: Seq<SyllableView>) -> int {
    if syls.len() <= 1 {
        0
    } else if spec_last_accent_before(syls, syls.len() as int) >= 0 {
        spec_last_accent_before(syls, syls.len() as int)
    } else {
        spec_default_stress(syls)
    }
}

/// Position and accent of the last-accent scan.
pub proof fn lemma_last_accent_before(syls: Seq<SyllableView>, n: int)
    requires
        0 <= n <= syls.len(),
    ensures
        -1 <= spec_last_accent_before(syls, n) < n,
        spec_last_accent_before(syls, n) >= 0 ==> syls[spec_last_accent_before(
            syls,
            n,
        )].has_accent(),
        forall|k: int|
            spec_last_accent_before(syls, n) < k < n ==> !syls[k].has_accent(),
        spec_last_accent_before(syls, n) == -1 ==> forall|k: int|
            0 <= k < n ==> !syls[k].has_accent(),
    decreases n,
{
    if n > 0 && !syls[n - 1].has_accent() {
        lemma_last_accent_before(syls, n - 1);
    }
}

/// Stress index bounds: a non-empty syllable sequence is always
/// assigned a stress index inside the sequence.
pub proof fn lemma_stress_in_bounds(syls: Seq<SyllableView>)
    requires
        syls.len() >= 1,
    ensures
        0 <= spec_identify_stress(syls) < syls.len(),
{
    if syls.len() > 1 {
        lemma_last_accent_before(syls, syls.len() as int);
    }
}

/// Returns the index of the stressed syllable, applying the
/// explicit-accent rules first and the default rules when no written
/// accent occurs.
#[verifier::loop_isolation(false)]
pub fn identify_stress(syllables: &Vec<Syllable>) -> (r: usize)
    ensures
        r as int == spec_identify_stress(views_of(syllables@)),
{
    let ghost vs = views_of(syllables@);
    let count = syllables.len();
    if count <= 1 {
        return 0;
    }
    let mut j = count;
    while j > 0
        invariant
            0 <= j <= count,
            spec_last_accent_before(vs, count as int) == spec_last_accent_before(vs, j as int),
        decreases j,
    {
        if syllables[j - 1].has_accented_vowel() {
            proof {
                assert(vs[j - 1] == syllables@[j - 1]@);
                assert(spec_last_accent_before(vs, j as int) == j - 1);
            }
            return j - 1;
        }
        proof {
            assert(vs[j - 1] == syllables@[j - 1]@);
        }
        j = j - 1;
    }
    let last = &syllables[count - 1];
    proof {
        assert(vs[count - 1] == syllables@[count - 1]@);
    }
    if last.coda.as_str().is_empty() {
        if last.nucleus.as_str().unicode_len() == 3 {
            count - 1
        } else {
            count - 2
        }
    } else {
        if last.coda.as_str().unicode_len() == 1 && (last.coda.as_str().get_char(0) == 'n'
            || last.coda.as_str().get_char(0) == 's') {
            count - 2
        } else {
            count - 1
        }
    }
}

/// Kinds of hiatus: two adjacent vowels split across syllables.
#[derive(PartialEq, Eq, Structural, Debug, Clone, Copy)]
pub enum HiatusType {
    /// Neither vowel carries a written accent.
    Simple,
    /// One of the vowels carries a written accent.
    Accentual,
}

/// Kinds of diphthong: two vowels pronounced within one syllable.
#[derive(PartialEq, Eq, Structural, Debug, Clone, Copy)]
pub enum DiphthongType {
    /// Creciente: weak vowel followed by a strong vowel.
    Rising,
    /// Decreciente: strong vowel followed by a weak vowel.
    Falling,
    /// Homogeneo: two weak vowels.
    Homogenous,
}

/// Configuration for rhyme comparison: three independent dialect
/// tolerances.
#[derive(Debug, Clone, Copy)]
pub struct RhymeOptions {
    /// Treat y and ll onsets as equivalent.
    pub yeismo: bool,
    /// Treat s/z (and soft c) onsets and s/z codas as equivalent.
    pub seseo: bool,
    /// Treat b and v onsets as equivalent.
    pub b_equals_v: bool,
}

impl RhymeOptions {
    /// The configuration used when the caller passes none.
    pub open spec fn spec_default() -> RhymeOptions {
        RhymeOptions { yeismo: true, seseo: false, b_equals_v: true }
    }
}

impl Default for RhymeOptions {
    /// Yeismo and b/v tolerance on, seseo off.
    fn default() -> (r: RhymeOptions)
        ensures
            r == RhymeOptions::spec_default(),
    {
        RhymeOptions { yeismo: true, seseo: false, b_equals_v: true }
    }
}

/// The c-side onset is a soft c (a single `c` before a soft-trigger
/// vowel) while the other onset is a single `s`.
pub open spec fn spec_soft_c_pair(cside: SyllableView, sside: SyllableView) -> bool {
    cside.onset.len() == 1 && cside.onset[0] == 'c' && sside.onset.len() == 1
        && sside.onset[0] == 's' && cside.nucleus.len() >= 1
        && crate::char_util::spec_is_soft_c_trigger(cside.nucleus[0])
}

/// One onset is `y` and the other `ll`.
pub open spec fn spec_y_ll_pair(x: Seq<char>, y: Seq<char>) -> bool {
    ||| (x.len() == 1 && x[0] == 'y' && y.len() == 2 && y[0] == 'l' && y[1] == 'l')
    ||| (x.len() == 2 && x[0] == 'l' && x[1] == 'l' && y.len() == 1 && y[0] == 'y')
}

/// Onset equivalence for rhymes: exact equality, or one of the dialect
/// tolerances that the options switch on.
pub open spec fn spec_equal_onset(a: SyllableView, b: SyllableView, opt: RhymeOptions) -> bool {
    ||| a.onset == b.onset
    ||| (opt.seseo && spec_soft_c_pair(a, b) && crate::str_util::spec_loose_match(
        a.nucleus,
        b.nucleus,
    ))
    ||| (opt.seseo && spec_soft_c_pair(b, a) && crate::str_util::spec_loose_match(
        a.nucleus,
        b.nucleus,
    ))
    ||| (opt.seseo && crate::str_util::spec_is_both_s_or_z(a.onset, b.onset))
    ||| (opt.yeismo && spec_y_ll_pair(a.onset, b.onset))
    ||| (opt.b_equals_v && crate::str_util::spec_is_both_b_or_v(a.onset, b.onset))
}

/// The string holds exactly the one character `ch`.
fn is_one_char(s: &String, ch: char) -> (r: bool)
    ensures
        r == (s@.len() == 1 && s@[0] == ch),
{
    s.as_str().unicode_len() == 1 && s.as_str().get_char(0) == ch
}

/// The string is exactly "ll".
fn is_ll(s: &String) -> (r: bool)
    ensures
        r == (s@.len() == 2 && s@[0] == 'l' && s@[1] == 'l'),
{
    s.as_str().unicode_len() == 2 && s.as_str().get_char(0) == 'l' && s.as_str().get_char(1)
        == 'l'
}

/// Compares two syllables' onsets under the given rhyme options.
pub fn equal_onset(a: &Syllable, b: &Syllable, opt: &RhymeOptions) -> (r: bool)
    ensures
        r == spec_equal_onset(a@, b@, *opt),
{
    if a.onset == b.onset {
        return true;
    }
    if opt.seseo {
        if is_one_char(&a.onset, 'c') && is_one_char(&b.onset, 's') {
            if a.nucleus.as_str().unicode_len() >= 1 {
                let first = a.nucleus.as_str().get_char(0);
                if char_util::is_soft_c_trigger(first) && str_util::loose_match(
                    a.nucleus.as_str(),
                    b.nucleus.as_str(),
                ) {
                    return true;
                }
            }
        }
        if is_one_char(&a.onset, 's') && is_one_char(&b.onset, 'c') {
            if b.nucleus.as_str().unicode_len() >= 1 {
                let first = b.nucleus.as_str().get_char(0);
                if char_util::is_soft_c_trigger(first) && str_util::loose_match(
                    a.nucleus.as_str(),
                    b.nucleus.as_str(),
                ) {
                    return true;
                }
            }
        }
        if str_util::is_both_s_or_z(a.onset.as_str(), b.onset.as_str()) {
            return true;
        }
    }
    if opt.yeismo {
        if (is_one_char(&a.onset, 'y') && is_ll(&b.onset)) || (is_ll(&a.onset) && is_one_char(
            &b.onset,
            'y',
        )) {
            return true;
        }
    }
    if opt.b_equals_v {
        if str_util::is_both_b_or_v(a.onset.as_str(), b.onset.as_str()) {
            return true;
        }
    }
    false
}

/// How the first compared syllables of two rhyming words must relate:
/// the vowels from the stressed vowel on must match loosely when the
/// words rhyme on a single syllable (with the codas equal, or s/z under
/// seseo), and exactly (with equal codas) otherwise.
pub open spec fn spec_first_rhyme_pair(
    x: SyllableView,
    y: SyllableView,
    single: bool,
    opt: RhymeOptions,
) -> bool {
    let k1 = spec_vowels_since_stress(x.nucleus);
    let k2 = spec_vowels_since_stress(y.nucleus);
    if single {
        crate::str_util::spec_loose_match(k1, k2) && (x.coda == y.coda || (opt.seseo
            && crate::str_util::spec_is_both_s_or_z(x.coda, y.coda)))
    } else {
        k1 == k2 && x.coda == y.coda
    }
}

/// How every later syllable pair of two rhyming words must relate:
/// equivalent onsets, equal nuclei, and equal codas (or s/z under
/// seseo).
pub open spec fn spec_rest_rhyme_pair(x: SyllableView, y: SyllableView, opt: RhymeOptions) -> bool {
    spec_equal_onset(x, y, opt) && x.nucleus == y.nucleus && (x.coda == y.coda || (opt.seseo
        && crate::str_util::spec_is_both_s_or_z(x.coda, y.coda)))
}

/// Full (consonant) rhyme between two words with stress indices `sa`
/// and `sb`: the syllable tails from the stressed syllables must have
/// the same length and match pairwise.
pub open spec fn spec_rhymes_with(
    a: Seq<SyllableView>,
    sa: int,
    b: Seq<SyllableView>,
    sb: int,
    opt: RhymeOptions,
) -> bool {
    let ta = a.skip(sa);
    let tb = b.skip(sb);
    &&& ta.len() == tb.len()
    &&& (ta.len() >= 1 ==> spec_first_rhyme_pair(ta[0], tb[0], ta.len() == 1, opt))
    &&& (forall|i: int| 1 <= i < ta.len() ==> spec_rest_rhyme_pair(ta[i], tb[i], opt))
}

/// Assonant rhyme: only the vowels are compared — the stressed vowels
/// of the first pair (loosely for single vowels), the nuclei of every
/// later pair.
pub open spec fn spec_assonant_rhymes_with(
    a: Seq<SyllableView>,
    sa: int,
    b: Seq<SyllableView>,
    sb: int,
) -> bool {
    let ta = a.skip(sa);
    let tb = b.skip(sb);
    &&& ta.len() == tb.len()
    &&& (ta.len() >= 1 ==> {
        let k1 = spec_vowels_since_stress(ta[0].nucleus);
        let k2 = spec_vowels_since_stress(tb[0].nucleus);
        k1 == k2 || (k1.len() == 1 && k2.len() == 1 && crate::str_util::spec_loose_match(k1, k2))
    })
    &&& (forall|i: int| 1 <= i < ta.len() ==> ta[i].nucleus == tb[i].nucleus)
}

/// The syllable texts joined with a delimiter.
pub open spec fn spec_join(v: Seq<SyllableView>, d: Seq<char>) -> Seq<char>
    decreases v.len(),
{
    if v.len() == 0 {
        Seq::<char>::empty()
    } else if v.len() == 1 {
        v[0].text()
    } else {
        v[0].text() + d + spec_join(v.drop_first(), d)
    }
}

/// Joining one more syllable appends the delimiter and its text.
proof fn lemma_join_push(u: Seq<SyllableView>, d: Seq<char>, x: SyllableView)
    requires
        u.len() >= 1,
    ensures
        spec_join(u.push(x), d) == spec_join(u, d) + d + x.text(),
    decreases u.len(),
{
    if u.len() == 1 {
        assert(u.push(x).drop_first() =~= seq![x]);
        assert(spec_join(seq![x], d) == x.text());
        assert(spec_join(u.push(x), d) == u[0].text() + d + spec_join(seq![x], d));
        assert(spec_join(u.push(x), d) =~= spec_join(u, d) + d + x.text());
    } else {
        assert(u.push(x).drop_first() =~= u.drop_first().push(x));
        lemma_join_push(u.drop_first(), d, x);
        assert(spec_join(u.push(x), d) =~= spec_join(u, d) + d + x.text());
    }
}

/// The rhyme-comparable suffix of a word: from the stressed vowel of
/// the stressed syllable to the end of the word.
pub open spec fn spec_rhyme(syls: Seq<SyllableView>, stress: int) -> Seq<char> {
    if syls.len() == 0 {
        Seq::<char>::empty()
    } else {
        spec_vowels_since_stress(syls[stress].nucleus) + syls[stress].coda + concat_texts(
            syls.skip(stress + 1),
        )
    }
}

/// What parsing a word must produce: the specified segmentation and its
/// stress index, or no syllables at all when segmentation fails.
pub open spec fn spec_parse(s: Seq<char>, syls: Seq<SyllableView>, stress: int) -> bool {
    match spec_syllabify(s) {
        Some(v) => syls == v && stress == spec_identify_stress(v),
        None => syls == Seq::<SyllableView>::empty() && stress == 0,
    }
}

/// The mathematical content of a [`Hiatus`].
pub ghost struct HiatusView {
    /// Index of the first syllable of the pair.
    pub syllable_index: int,
    /// The two vowels, in order.
    pub composite: Seq<char>,
    /// Simple or accentual.
    pub kind: HiatusType,
}

/// The mathematical content of a [`Diphthong`].
pub ghost struct DiphthongView {
    /// Index of the syllable holding the pair.
    pub syllable_index: int,
    /// The two vowels, in order.
    pub composite: Seq<char>,
    /// Rising, falling or homogenous.
    pub kind: DiphthongType,
}

/// The mathematical content of a [`Triphthong`].
pub ghost struct TriphthongView {
    /// Index of the syllable holding the triple.
    pub syllable_index: int,
    /// The three vowels, in order.
    pub composite: Seq<char>,
}

/// A hiatus found in a word: two adjacent vowels split across two
/// syllables.
pub struct Hiatus {
    /// Index of the first syllable of the pair.
    pub syllable_index: usize,
    /// The two vowels, in order.
    pub composite: String,
    /// Simple or accentual.
    pub kind: HiatusType,
}

impl View for Hiatus {
    type V = HiatusView;

    open spec fn view(&self) -> HiatusView {
        HiatusView {
            syllable_index: self.syllable_index as int,
            composite: self.composite@,
            kind: self.kind,
        }
    }
}

/// A diphthong found in a word: a two-vowel nucleus.
pub struct Diphthong {
    /// Index of the syllable holding the pair.
    pub syllable_index: usize,
    /// The two vowels, in order.
    pub composite: String,
    /// Rising, falling or homogenous.
    pub kind: DiphthongType,
}

impl View for Diphthong {
    type V = DiphthongView;

    open spec fn view(&self) -> DiphthongView {
        DiphthongView {
            syllable_index: self.syllable_index as int,
            composite: self.composite@,
            kind: self.kind,
        }
    }
}

/// A triphthong found in a word: a three-vowel nucleus.
pub struct Triphthong {
    /// Index of the syllable holding the triple.
    pub syllable_index: usize,
    /// The three vowels, in order.
    pub composite: String,
}

impl View for Triphthong {
    type V = TriphthongView;

    open spec fn view(&self) -> TriphthongView {
        TriphthongView { syllable_index: self.syllable_index as int, composite: self.composite@ }
    }
}

/// The vowel combinations of a word: three independent ordered lists.
pub struct VowelCombos {
    /// All hiatuses, by syllable index.
    pub hiatuses: Vec<Hiatus>,
    /// All diphthongs, by syllable index.
    pub diphthongs: Vec<Diphthong>,
    /// All triphthongs, by syllable index.
    pub triphthongs: Vec<Triphthong>,
}

/// The views of a sequence of hiatuses.
pub open spec fn hiatus_views(v: Seq<Hiatus>) -> Seq<HiatusView> {
    v.map_values(|x: Hiatus| x@)
}

/// The views of a sequence of diphthongs.
pub open spec fn diphthong_views(v: Seq<Diphthong>) -> Seq<DiphthongView> {
    v.map_values(|x: Diphthong| x@)
}

/// The views of a sequence of triphthongs.
pub open spec fn triphthong_views(v: Seq<Triphthong>) -> Seq<TriphthongView> {
    v.map_values(|x: Triphthong| x@)
}

/// The hiatus rule: the syllable at `i` ends in a bare single vowel and
/// the next starts with a single vowel behind an empty or silent-h
/// onset.
pub open spec fn spec_hiatus_at(syls: Seq<SyllableView>, i: int) -> bool {
    &&& syls[i].coda.len() == 0
    &&& syls[i].nucleus.len() == 1
    &&& i + 1 < syls.len()
    &&& (syls[i + 1].onset.len() == 0 || (syls[i + 1].onset.len() == 1 && syls[i + 1].onset[0]
        == 'h'))
    &&& syls[i + 1].nucleus.len() == 1
}

/// One scan step of the combo extractor. `None` marks the internal
/// invariant violation: a two-vowel nucleus that the pairwise
/// classifier does not recognise as a diphthong.
pub open spec fn spec_combos_step(
    syls: Seq<SyllableView>,
    i: int,
    hs: Seq<HiatusView>,
    ds: Seq<DiphthongView>,
    ts: Seq<TriphthongView>,
) -> Option<(Seq<HiatusView>, Seq<DiphthongView>, Seq<TriphthongView>)>
    decreases syls.len() - i,
{
    if i < 0 || i >= syls.len() {
        Some((hs, ds, ts))
    } else {
        let s = syls[i];
        if spec_hiatus_at(syls, i) {
            let kind = if s.has_accent() || syls[i + 1].has_accent() {
                HiatusType::Accentual
            } else {
                HiatusType::Simple
            };
            spec_combos_step(
                syls,
                i + 1,
                hs.push(
                    HiatusView {
                        syllable_index: i,
                        composite: s.nucleus + syls[i + 1].nucleus,
                        kind: kind,
                    },
                ),
                ds,
                ts,
            )
        } else if s.nucleus.len() == 2 {
            match crate::char_util::spec_combo_type(s.nucleus[0], s.nucleus[1]) {
                char_util::ComboType::Diphthong(t) => spec_combos_step(
                    syls,
                    i + 1,
                    hs,
                    ds.push(DiphthongView { syllable_index: i, composite: s.nucleus, kind: t }),
                    ts,
                ),
                _ => None,
            }
        } else if s.nucleus.len() == 3 {
            spec_combos_step(
                syls,
                i + 1,
                hs,
                ds,
                ts.push(TriphthongView { syllable_index: i, composite: s.nucleus }),
            )
        } else {
            spec_combos_step(syls, i + 1, hs, ds, ts)
        }
    }
}

/// The vowel combinations of a syllable sequence, or `None` on the
/// internal invariant violation.
pub open spec fn spec_vowel_combos(syls: Seq<SyllableView>) -> Option<
    (Seq<HiatusView>, Seq<DiphthongView>, Seq<TriphthongView>),
> {
    spec_combos_step(
        syls,
        0,
        Seq::<HiatusView>::empty(),
        Seq::<DiphthongView>::empty(),
        Seq::<TriphthongView>::empty(),
    )
}

proof fn lemma_hiatus_views_push(v: Seq<Hiatus>, x: Hiatus)
    ensures
        hiatus_views(v.push(x)) == hiatus_views(v).push(x@),
{
    assert(hiatus_views(v.push(x)) =~= hiatus_views(v).push(x@));
}

proof fn lemma_diphthong_views_push(v: Seq<Diphthong>, x: Diphthong)
    ensures
        diphthong_views(v.push(x)) == diphthong_views(v).push(x@),
{
    assert(diphthong_views(v.push(x)) =~= diphthong_views(v).push(x@));
}

proof fn lemma_triphthong_views_push(v: Seq<Triphthong>, x: Triphthong)
    ensures
        triphthong_views(v.push(x)) == triphthong_views(v).push(x@),
{
    assert(triphthong_views(v.push(x)) =~= triphthong_views(v).push(x@));
}

/// A parsed word that contains syllables and stress information.
#[derive(Debug, Clone)]
pub struct Word {
    /// The syllables, in order.
    pub syllables: Vec<Syllable>,
    /// The index of the stressed syllable.
    pub stress_index: usize,
}

impl Word {
    /// The stress index points into the syllable sequence (and is zero
    /// for a word without syllables).
    pub open spec fn wf(self) -> bool {
        if self.syllables@.len() == 0 {
            self.stress_index == 0
        } else {
            (self.stress_index as int) < self.syllables@.len()
        }
    }

    /// Parses a word: segments it into syllables and finds the stressed
    /// one. A word that cannot be segmented yields no syllables and
    /// stress index zero.
    pub fn from(text: &str) -> (w: Word)
        ensures
            w.wf(),
            spec_parse(text@, views_of(w.syllables@), w.stress_index as int),
            spec_syllabify(text@) is Some ==> concat_texts(views_of(w.syllables@)) == text@,
    {
        match to_syllables(text) {
            Ok(s) => {
                let stress_index = identify_stress(&s);
                proof {
                    if s@.len() > 0 {
                        lemma_stress_in_bounds(views_of(s@));
                    }
                    crate::syllabifier::lemma_round_trip(text@);
                    assert(views_of(s@).len() == s@.len());
                }
                Word { syllables: s, stress_index }
            },
            Err(_) => {
                let w = Word { syllables: Vec::new(), stress_index: 0 };
                proof {
                    assert(views_of(w.syllables@) =~= Seq::<SyllableView>::empty());
                }
                w
            },
        }
    }

    /// The word's stress class, from the distance between the stressed
    /// syllable and the end of the word.
    pub fn stress(&self) -> (r: StressType)
        requires
            self.wf(),
            self.syllables@.len() >= 1,
        ensures
            r == spec_stress_type(self.syllables@.len() - 1 - self.stress_index as int),
    {
        let d = self.syllables.len() - 1 - self.stress_index;
        if d == 0 {
            StressType::Oxytone
        } else if d == 1 {
            StressType::Paroxytone
        } else if d == 2 {
            StressType::Proparoxytone
        } else {
            StressType::Superproparoxytone
        }
    }

    /// The word's text with the given delimiter between syllables.
    #[verifier::loop_isolation(false)]
    pub fn syllabize(&self, delimiter: &str) -> (r: String)
        ensures
            r@ == spec_join(views_of(self.syllables@), delimiter@),
    {
        let ghost vs = views_of(self.syllables@);
        let count = self.syllables.len();
        if count == 0 {
            return String::new();
        }
        let mut out = self.syllables[0].to_string();
        proof {
            assert(vs[0] == self.syllables@[0]@);
            assert(vs.take(1) =~= seq![vs[0]]);
        }
        let mut i: usize = 1;
        while i < count
            invariant
                1 <= i <= count,
                out@ == spec_join(vs.take(i as int), delimiter@),
            decreases count - i,
        {
            out.append(delimiter);
            let t = self.syllables[i].to_string();
            out.append(t.as_str());
            proof {
                assert(vs[i as int] == self.syllables@[i as int]@);
                assert(vs.take(i + 1) =~= vs.take(i as int).push(vs[i as int]));
                lemma_join_push(vs.take(i as int), delimiter@, vs[i as int]);
            }
            i = i + 1;
        }
        proof {
            assert(vs.take(count as int) =~= vs);
        }
        out
    }

    /// The rhyme suffix: the stressed syllable's vowels from the
    /// stressed vowel on, its coda, and every following syllable.
    #[verifier::loop_isolation(false)]
    pub fn rhyme(&self) -> (r: String)
        requires
            self.wf(),
        ensures
            r@ == spec_rhyme(views_of(self.syllables@), self.stress_index as int),
    {
        let ghost vs = views_of(self.syllables@);
        if self.syllables.len() == 0 {
            return String::new();
        }
        let stress_syllable = &self.syllables[self.stress_index];
        proof {
            assert(vs[self.stress_index as int] == self.syllables@[self.stress_index as int]@);
        }
        let mut rhyme = stress_syllable.vowels_since_stress();
        rhyme.append(stress_syllable.coda.as_str());
        let mut i: usize = self.stress_index + 1;
        let ghost base = rhyme@;
        proof {
            assert(concat_texts(vs.subrange(
                self.stress_index + 1,
                self.stress_index + 1,
            )) =~= Seq::<char>::empty());
            assert(vs.subrange(self.stress_index + 1, self.stress_index + 1)
                =~= Seq::<SyllableView>::empty());
        }
        while i < self.syllables.len()
            invariant
                self.stress_index + 1 <= i <= self.syllables@.len(),
                rhyme@ == base + concat_texts(vs.subrange(self.stress_index + 1, i as int)),
            decreases self.syllables@.len() - i,
        {
            let t = self.syllables[i].to_string();
            rhyme.append(t.as_str());
            proof {
                assert(vs[i as int] == self.syllables@[i as int]@);
                assert(vs.subrange(self.stress_index + 1, i + 1) =~= vs.subrange(
                    self.stress_index + 1,
                    i as int,
                ).push(vs[i as int]));
                lemma_concat_push(
                    vs.subrange(self.stress_index + 1, i as int),
                    vs[i as int],
                );
            }
            i = i + 1;
        }
        proof {
            assert(vs.subrange(self.stress_index + 1, self.syllables@.len() as int) =~= vs.skip(
                self.stress_index + 1,
            ));
        }
        rhyme
    }

    /// Scans the syllables and collects hiatuses, diphthongs and
    /// triphthongs. The caller must know that every two-vowel nucleus
    /// classifies as a diphthong — the segmentation guarantees it, and
    /// anything else is an internal invariant violation.
    #[verifier::loop_isolation(false)]
    pub fn vowel_combos(&self) -> (r: VowelCombos)
        requires
            spec_vowel_combos(views_of(self.syllables@)) is Some,
        ensures
            Some(
                (hiatus_views(r.hiatuses@), diphthong_views(r.diphthongs@), triphthong_views(
                    r.triphthongs@,
                )),
            ) == spec_vowel_combos(views_of(self.syllables@)),
    {
        let ghost vs = views_of(self.syllables@);
        let count = self.syllables.len();
        let mut hiatuses: Vec<Hiatus> = Vec::new();
        let mut diphthongs: Vec<Diphthong> = Vec::new();
        let mut triphthongs: Vec<Triphthong> = Vec::new();
        let mut index: usize = 0;
        proof {
            assert(hiatus_views(hiatuses@) =~= Seq::<HiatusView>::empty());
            assert(diphthong_views(diphthongs@) =~= Seq::<DiphthongView>::empty());
            assert(triphthong_views(triphthongs@) =~= Seq::<TriphthongView>::empty());
        }
        while index < count
            invariant
                0 <= index <= count,
                spec_combos_step(
                    vs,
                    index as int,
                    hiatus_views(hiatuses@),
                    diphthong_views(diphthongs@),
                    triphthong_views(triphthongs@),
                ) == spec_vowel_combos(vs),
            decreases count - index,
        {
            let ghost prev_i = index as int;
            let ghost prev_h = hiatus_views(hiatuses@);
            let ghost prev_d = diphthong_views(diphthongs@);
            let ghost prev_t = triphthong_views(triphthongs@);
            let s_i = &self.syllables[index];
            proof {
                assert(vs[index as int] == self.syllables@[index as int]@);
            }
            let nucleus_len = s_i.nucleus.as_str().unicode_len();
            let mut hiatus_here = false;
            if s_i.coda.as_str().is_empty() && nucleus_len == 1 && index + 1 < count {
                let nxt = &self.syllables[index + 1];
                proof {
                    assert(vs[index + 1] == self.syllables@[index + 1]@);
                }
                hiatus_here = (nxt.onset.as_str().is_empty() || is_one_char(&nxt.onset, 'h'))
                    && nxt.nucleus.as_str().unicode_len() == 1;
            }
            if hiatus_here {
                let nxt = &self.syllables[index + 1];
                proof {
                    assert(vs[index + 1] == self.syllables@[index + 1]@);
                }
                let mut composite = s_i.nucleus.clone();
                composite.append(nxt.nucleus.as_str());
                let kind = if s_i.has_accented_vowel() || nxt.has_accented_vowel() {
                    HiatusType::Accentual
                } else {
                    HiatusType::Simple
                };
                let ghost hb = hiatuses@;
                let entry = Hiatus { syllable_index: index, composite, kind };
                hiatuses.push(entry);
                index = index + 1;
                proof {
                    lemma_hiatus_views_push(hb, entry);
                    assert(spec_combos_step(vs, prev_i, prev_h, prev_d, prev_t)
                        == spec_combos_step(
                        vs,
                        index as int,
                        hiatus_views(hiatuses@),
                        diphthong_views(diphthongs@),
                        triphthong_views(triphthongs@),
                    ));
                }
            } else if nucleus_len == 2 {
                let n0 = s_i.nucleus.as_str().get_char(0);
                let n1 = s_i.nucleus.as_str().get_char(1);
                let kind = match char_util::combo_type(n0, n1) {
                    char_util::ComboType::Diphthong(t) => t,
                    _ => {
                        proof {
                            assert(spec_combos_step(vs, prev_i, prev_h, prev_d, prev_t)
                                is None);
                        }
                        vstd::pervasive::unreached()
                    },
                };
                let ghost db = diphthongs@;
                let entry = Diphthong {
                    syllable_index: index,
                    kind,
                    composite: s_i.nucleus.clone(),
                };
                diphthongs.push(entry);
                index = index + 1;
                proof {
                    lemma_diphthong_views_push(db, entry);
                    assert(spec_combos_step(vs, prev_i, prev_h, prev_d, prev_t)
                        == spec_combos_step(
                        vs,
                        index as int,
                        hiatus_views(hiatuses@),
                        diphthong_views(diphthongs@),
                        triphthong_views(triphthongs@),
                    ));
                }
            } else if nucleus_len == 3 {
                let ghost tb = triphthongs@;
                let entry = Triphthong {
                    syllable_index: index,
                    composite: s_i.nucleus.clone(),
                };
                triphthongs.push(entry);
                index = index + 1;
                proof {
                    lemma_triphthong_views_push(tb, entry);
                    assert(spec_combos_step(vs, prev_i, prev_h, prev_d, prev_t)
                        == spec_combos_step(
                        vs,
                        index as int,
                        hiatus_views(hiatuses@),
                        diphthong_views(diphthongs@),
                        triphthong_views(triphthongs@),
                    ));
                }
            } else {
                index = index + 1;
                proof {
                    assert(spec_combos_step(vs, prev_i, prev_h, prev_d, prev_t)
                        == spec_combos_step(
                        vs,
                        index as int,
                        hiatus_views(hiatuses@),
                        diphthong_views(diphthongs@),
                        triphthong_views(triphthongs@),
                    ));
                }
            }
        }
        VowelCombos { hiatuses, diphthongs, triphthongs }
    }

    /// Full (consonant) rhyme comparison; `None` selects the default
    /// options (yeismo and b/v on, seseo off).
    #[verifier::loop_isolation(false)]
    pub fn rhymes_with(&self, other: &Word, opt: Option<RhymeOptions>) -> (r: bool)
        requires
            self.wf(),
            other.wf(),
        ensures
            r == spec_rhymes_with(
                views_of(self.syllables@),
                self.stress_index as int,
                views_of(other.syllables@),
                other.stress_index as int,
                match opt {
                    Option::Some(o) => o,
                    Option::None => RhymeOptions::spec_default(),
                },
            ),
    {
        let o = match opt {
            Option::Some(o2) => o2,
            Option::None => RhymeOptions::default(),
        };
        let ghost va = views_of(self.syllables@);
        let ghost vb = views_of(other.syllables@);
        let ghost ta = va.skip(self.stress_index as int);
        let ghost tb = vb.skip(other.stress_index as int);
        let m1 = self.syllables.len() - self.stress_index;
        let m2 = other.syllables.len() - other.stress_index;
        if m1 != m2 {
            return false;
        }
        if m1 == 0 {
            return true;
        }
        let x = &self.syllables[self.stress_index];
        let y = &other.syllables[other.stress_index];
        proof {
            assert(va[self.stress_index as int] == self.syllables@[self.stress_index as int]@);
            assert(vb[other.stress_index as int] == other.syllables@[other.stress_index as int]@);
        }
        let k1 = x.vowels_since_stress();
        let k2 = y.vowels_since_stress();
        if m1 == 1 {
            if !str_util::loose_match(k1.as_str(), k2.as_str()) {
                return false;
            }
            if x.coda == y.coda {
                return true;
            }
            if o.seseo && str_util::is_both_s_or_z(x.coda.as_str(), y.coda.as_str()) {
                return true;
            }
            return false;
        }
        if !(k1 == k2) {
            return false;
        }
        if !(x.coda == y.coda) {
            return false;
        }
        let mut i: usize = 1;
        while i < m1
            invariant
                1 <= i <= m1,
                forall|k: int| 1 <= k < i ==> spec_rest_rhyme_pair(ta[k], tb[k], o),
            decreases m1 - i,
        {
            let xs = &self.syllables[self.stress_index + i];
            let ys = &other.syllables[other.stress_index + i];
            proof {
                assert(ta[i as int] == self.syllables@[self.stress_index + i]@);
                assert(tb[i as int] == other.syllables@[other.stress_index + i]@);
            }
            if !equal_onset(xs, ys, &o) {
                proof {
                    assert(!spec_rest_rhyme_pair(ta[i as int], tb[i as int], o));
                }
                return false;
            }
            if !(xs.nucleus == ys.nucleus) {
                proof {
                    assert(!spec_rest_rhyme_pair(ta[i as int], tb[i as int], o));
                }
                return false;
            }
            let codas_equal = xs.coda == ys.coda;
            let codas_sz = o.seseo && str_util::is_both_s_or_z(
                xs.coda.as_str(),
                ys.coda.as_str(),
            );
            if !(codas_equal || codas_sz) {
                proof {
                    assert(!spec_rest_rhyme_pair(ta[i as int], tb[i as int], o));
                }
                return false;
            }
            i = i + 1;
        }
        true
    }

    /// Assonant (vowel-only) rhyme comparison.
    #[verifier::loop_isolation(false)]
    pub fn assonant_rhymes_with(&self, other: &Word) -> (r: bool)
        requires
            self.wf(),
            other.wf(),
        ensures
            r == spec_assonant_rhymes_with(
                views_of(self.syllables@),
                self.stress_index as int,
                views_of(other.syllables@),
                other.stress_index as int,
            ),
    {
        let ghost va = views_of(self.syllables@);
        let ghost vb = views_of(other.syllables@);
        let ghost ta = va.skip(self.stress_index as int);
        let ghost tb = vb.skip(other.stress_index as int);
        let m1 = self.syllables.len() - self.stress_index;
        let m2 = other.syllables.len() - other.stress_index;
        if m1 != m2 {
            return false;
        }
        if m1 == 0 {
            return true;
        }
        let x = &self.syllables[self.stress_index];
        let y = &other.syllables[other.stress_index];
        proof {
            assert(va[self.stress_index as int] == self.syllables@[self.stress_index as int]@);
            assert(vb[other.stress_index as int] == other.syllables@[other.stress_index as int]@);
        }
        let k1 = x.vowels_since_stress();
        let k2 = y.vowels_since_stress();
        if !(k1 == k2) {
            let both_single = k1.as_str().unicode_len() == 1 && k2.as_str().unicode_len() == 1;
            if !(both_single && str_util::loose_match(k1.as_str(), k2.as_str())) {
                return false;
            }
        }
        let mut i: usize = 1;
        while i < m1
            invariant
                1 <= i <= m1,
                forall|k: int| 1 <= k < i ==> ta[k].nucleus == tb[k].nucleus,
            decreases m1 - i,
        {
            let xs = &self.syllables[self.stress_index + i];
            let ys = &other.syllables[other.stress_index + i];
            proof {
                assert(ta[i as int] == self.syllables@[self.stress_index + i]@);
                assert(tb[i as int] == other.syllables@[other.stress_index + i]@);
            }
            if !(xs.nucleus == ys.nucleus) {
                return false;
            }
            i = i + 1;
        }
        true
    }
}

} // verus!
