//! The syllabification state machine: a single left-to-right pass that
//! partitions a word's characters into onset/nucleus/coda syllables.
//!
//! The transition rules are stated once, as the recursive specification
//! [`spec_step`]; the executable [`to_syllables`] is proved to return
//! exactly the syllables that the specification describes.

use vstd::prelude::*;

use crate::char_util::can_form_hiatus;
use crate::char_util::can_form_triphthong;
use crate::char_util::is_vowel;
use crate::char_util::spec_can_form_hiatus;
use crate::char_util::spec_can_form_triphthong;
use crate::char_util::spec_is_vowel;
use crate::str_util::is_group_pair;
use crate::str_util::spec_is_group_pair;
use crate::syllable::Syllable;
use crate::syllable::SyllableView;
use crate::text::chars_of;
use crate::text::string_from_chars;
use crate::text::subvec;
use crate::InvalidWord;

verus! {

/// The role of the syllable fragment currently being built.
#[derive(PartialEq, Eq, Structural, Debug, Clone, Copy)]
pub enum Position {
    /// Nothing read for the current syllable yet.
    Start,
    /// Reading the starting consonant(s).
    Onset,
    /// Reading the vowel(s).
    Nucleus,
    /// Reading the finishing consonant(s).
    Coda,
}

/// A syllable view from its three character runs.
pub open spec fn syl(onset: Seq<char>, nucleus: Seq<char>, coda: Seq<char>) -> SyllableView {
    SyllableView { onset: onset, nucleus: nucleus, coda: coda }
}

/// The empty syllable view.
pub open spec fn empty_syl() -> SyllableView {
    syl(Seq::<char>::empty(), Seq::<char>::empty(), Seq::<char>::empty())
}

/// The views of a sequence of syllables.
pub open spec fn views_of(v: Seq<Syllable>) -> Seq<SyllableView> {
    v.map_values(|t: Syllable| t@)
}

proof fn lemma_views_push(v: Seq<Syllable>, x: Syllable)
    ensures
        views_of(v.push(x)) == views_of(v).push(x@),
{
    assert(views_of(v.push(x)) =~= views_of(v).push(x@));
}

/// One step of the segmentation state machine, applied to the word `s`
/// at position `i` with the in-progress syllable `cur` and the finished
/// syllables `done`. Returns the complete syllable sequence, or `None`
/// when a `q`/`g` lookahead runs out of characters.
pub open spec fn spec_step(
    s: Seq<char>,
    i: int,
    pos: Position,
    cur: SyllableView,
    done: Seq<SyllableView>,
) -> Option<Seq<SyllableView>>
    decreases s.len() - i,
{
    if i < 0 || i >= s.len() {
        Some(done.push(cur))
    } else {
        let c = s[i];
        let n = s.len() as int;
        if !spec_is_vowel(c) {
            match pos {
                Position::Start | Position::Onset => {
                    if c == 'y' {
                        // Word- or syllable-initial y is a consonant; after
                        // an onset it opens the nucleus as a glide.
                        if cur.onset.len() == 0 {
                            spec_step(
                                s,
                                i + 1,
                                Position::Onset,
                                syl(cur.onset.push('y'), cur.nucleus, cur.coda),
                                done,
                            )
                        } else {
                            spec_step(
                                s,
                                i + 1,
                                Position::Nucleus,
                                syl(cur.onset, cur.nucleus.push('y'), cur.coda),
                                done,
                            )
                        }
                    } else if c == 'q' || c == 'g' {
                        // qu/gu before i or e absorbs the silent u into the
                        // onset; otherwise q and g are ordinary consonants.
                        if i + 1 >= n {
                            None
                        } else if s[i + 1] == 'u' {
                            if i + 2 >= n {
                                None
                            } else if s[i + 2] == 'i' || s[i + 2] == 'e' {
                                spec_step(
                                    s,
                                    i + 3,
                                    Position::Nucleus,
                                    syl(
                                        cur.onset.push(c).push('u'),
                                        cur.nucleus.push(s[i + 2]),
                                        cur.coda,
                                    ),
                                    done,
                                )
                            } else {
                                spec_step(
                                    s,
                                    i + 1,
                                    Position::Onset,
                                    syl(cur.onset.push(c), cur.nucleus, cur.coda),
                                    done,
                                )
                            }
                        } else {
                            spec_step(
                                s,
                                i + 1,
                                Position::Onset,
                                syl(cur.onset.push(c), cur.nucleus, cur.coda),
                                done,
                            )
                        }
                    } else {
                        spec_step(
                            s,
                            i + 1,
                            Position::Onset,
                            syl(cur.onset.push(c), cur.nucleus, cur.coda),
                            done,
                        )
                    }
                },
                Position::Nucleus => {
                    if c == 'y' && (i == n - 1 || !spec_is_vowel(s[i + 1])) {
                        // y closing a vowel cluster stays in the nucleus.
                        spec_step(
                            s,
                            i + 1,
                            Position::Nucleus,
                            syl(cur.onset, cur.nucleus.push('y'), cur.coda),
                            done,
                        )
                    } else if c == 'h' {
                        // Silent h: look ahead to decide whether it marks a
                        // hiatus boundary, extends the nucleus, or closes
                        // the syllable.
                        if i + 1 >= n {
                            spec_step(
                                s,
                                i + 1,
                                Position::Coda,
                                syl(cur.onset, cur.nucleus, cur.coda.push('h')),
                                done,
                            )
                        } else {
                            let v = s[i + 1];
                            if spec_is_vowel(v) {
                                if cur.nucleus.len() == 1 && spec_can_form_hiatus(
                                    cur.nucleus[0],
                                    v,
                                ) {
                                    spec_step(
                                        s,
                                        i + 2,
                                        Position::Nucleus,
                                        syl(seq!['h'], seq![v], Seq::<char>::empty()),
                                        done.push(cur),
                                    )
                                } else if i + 2 >= n {
                                    spec_step(
                                        s,
                                        i + 2,
                                        Position::Coda,
                                        syl(cur.onset, cur.nucleus.push('h').push(v), cur.coda),
                                        done,
                                    )
                                } else {
                                    let w = s[i + 2];
                                    if spec_is_vowel(w) {
                                        if spec_can_form_triphthong(cur.nucleus[0], v, w) {
                                            spec_step(
                                                s,
                                                i + 3,
                                                Position::Nucleus,
                                                syl(
                                                    cur.onset,
                                                    cur.nucleus.push('h').push(v).push(w),
                                                    cur.coda,
                                                ),
                                                done,
                                            )
                                        } else {
                                            spec_step(
                                                s,
                                                i + 3,
                                                Position::Nucleus,
                                                syl(seq!['h'], seq![v, w], Seq::<char>::empty()),
                                                done.push(cur),
                                            )
                                        }
                                    } else {
                                        spec_step(
                                            s,
                                            i + 3,
                                            Position::Coda,
                                            syl(
                                                cur.onset,
                                                cur.nucleus.push('h').push(v),
                                                cur.coda.push(w),
                                            ),
                                            done,
                                        )
                                    }
                                }
                            } else {
                                spec_step(
                                    s,
                                    i + 2,
                                    Position::Onset,
                                    syl(seq![v], Seq::<char>::empty(), Seq::<char>::empty()),
                                    done.push(syl(cur.onset, cur.nucleus, cur.coda.push('h'))),
                                )
                            }
                        }
                    } else {
                        spec_step(
                            s,
                            i + 1,
                            Position::Coda,
                            syl(cur.onset, cur.nucleus, cur.coda.push(c)),
                            done,
                        )
                    }
                },
                Position::Coda => {
                    if c == 'y' {
                        if cur.coda.len() == 1 {
                            if i + 1 < n && spec_is_vowel(s[i + 1]) {
                                spec_step(
                                    s,
                                    i + 1,
                                    Position::Onset,
                                    syl(seq!['y'], Seq::<char>::empty(), Seq::<char>::empty()),
                                    done.push(cur),
                                )
                            } else {
                                spec_step(
                                    s,
                                    i + 1,
                                    Position::Nucleus,
                                    syl(cur.coda, seq!['y'], Seq::<char>::empty()),
                                    done.push(syl(cur.onset, cur.nucleus, Seq::<char>::empty())),
                                )
                            }
                        } else if cur.coda.len() == 2 {
                            if spec_is_group_pair(cur.coda[0], cur.coda[1]) {
                                spec_step(
                                    s,
                                    i + 1,
                                    Position::Nucleus,
                                    syl(cur.coda, seq!['y'], Seq::<char>::empty()),
                                    done.push(syl(cur.onset, cur.nucleus, Seq::<char>::empty())),
                                )
                            } else {
                                spec_step(
                                    s,
                                    i + 1,
                                    Position::Nucleus,
                                    syl(seq![cur.coda[1]], seq!['y'], Seq::<char>::empty()),
                                    done.push(syl(cur.onset, cur.nucleus, seq![cur.coda[0]])),
                                )
                            }
                        } else {
                            spec_step(
                                s,
                                i + 1,
                                Position::Coda,
                                syl(cur.onset, cur.nucleus, cur.coda.push('y')),
                                done,
                            )
                        }
                    } else {
                        spec_step(
                            s,
                            i + 1,
                            Position::Coda,
                            syl(cur.onset, cur.nucleus, cur.coda.push(c)),
                            done,
                        )
                    }
                },
            }
        } else {
            match pos {
                Position::Start | Position::Onset => {
                    spec_step(
                        s,
                        i + 1,
                        Position::Nucleus,
                        syl(cur.onset, cur.nucleus.push(c), cur.coda),
                        done,
                    )
                },
                Position::Nucleus => {
                    if cur.nucleus.len() == 1 {
                        if spec_can_form_hiatus(cur.nucleus[0], c) {
                            spec_step(
                                s,
                                i + 1,
                                Position::Nucleus,
                                syl(Seq::<char>::empty(), seq![c], Seq::<char>::empty()),
                                done.push(cur),
                            )
                        } else {
                            spec_step(
                                s,
                                i + 1,
                                Position::Nucleus,
                                syl(cur.onset, cur.nucleus.push(c), cur.coda),
                                done,
                            )
                        }
                    } else if cur.nucleus.len() == 2 {
                        if spec_can_form_triphthong(cur.nucleus[0], cur.nucleus[1], c) {
                            spec_step(
                                s,
                                i + 1,
                                Position::Nucleus,
                                syl(cur.onset, cur.nucleus.push(c), cur.coda),
                                done,
                            )
                        } else if crate::char_util::spec_is_weak_vowel(cur.nucleus[1]) {
                            spec_step(
                                s,
                                i + 1,
                                Position::Nucleus,
                                syl(
                                    Seq::<char>::empty(),
                                    seq![cur.nucleus[1], c],
                                    Seq::<char>::empty(),
                                ),
                                done.push(syl(cur.onset, seq![cur.nucleus[0]], cur.coda)),
                            )
                        } else {
                            spec_step(
                                s,
                                i + 1,
                                Position::Nucleus,
                                syl(Seq::<char>::empty(), seq![c], Seq::<char>::empty()),
                                done.push(cur),
                            )
                        }
                    } else {
                        spec_step(
                            s,
                            i + 1,
                            Position::Nucleus,
                            syl(Seq::<char>::empty(), seq![c], Seq::<char>::empty()),
                            done.push(cur),
                        )
                    }
                },
                Position::Coda => {
                    // The accumulated coda splits between the closing
                    // syllable and the new syllable's onset.
                    let k = cur.coda.len() as int;
                    if k == 1 {
                        spec_step(
                            s,
                            i + 1,
                            Position::Nucleus,
                            syl(cur.coda, seq![c], Seq::<char>::empty()),
                            done.push(syl(cur.onset, cur.nucleus, Seq::<char>::empty())),
                        )
                    } else if k == 2 && spec_is_group_pair(cur.coda[0], cur.coda[1]) {
                        spec_step(
                            s,
                            i + 1,
                            Position::Nucleus,
                            syl(cur.coda, seq![c], Seq::<char>::empty()),
                            done.push(syl(cur.onset, cur.nucleus, Seq::<char>::empty())),
                        )
                    } else if k == 2 {
                        spec_step(
                            s,
                            i + 1,
                            Position::Nucleus,
                            syl(seq![cur.coda[1]], seq![c], Seq::<char>::empty()),
                            done.push(syl(cur.onset, cur.nucleus, seq![cur.coda[0]])),
                        )
                    } else {
                        spec_step(
                            s,
                            i + 1,
                            Position::Nucleus,
                            syl(cur.coda.skip(k - 2), seq![c], Seq::<char>::empty()),
                            done.push(syl(cur.onset, cur.nucleus, cur.coda.take(k - 2))),
                        )
                    }
                },
            }
        }
    }
}

/// The syllables of the word `s`: the empty word has no syllables, a
/// single character is its own nucleus, and longer words run through the
/// state machine. `None` when segmentation fails.
pub open spec fn spec_syllabify(s: Seq<char>) -> Option<Seq<SyllableView>> {
    if s.len() == 0 {
        Some(Seq::<SyllableView>::empty())
    } else if s.len() == 1 {
        Some(seq![syl(Seq::<char>::empty(), seq![s[0]], Seq::<char>::empty())])
    } else {
        spec_step(s, 0, Position::Start, empty_syl(), Seq::<SyllableView>::empty())
    }
}

/// Shape of the in-progress syllable in each state: before the nucleus
/// both nucleus and coda are empty; in the nucleus the coda is empty and
/// the nucleus non-empty; in the coda state the coda is non-empty while
/// characters remain.
pub open spec fn state_inv(n: int, i: int, pos: Position, cur: SyllableView) -> bool {
    match pos {
        Position::Start => cur.onset.len() == 0 && cur.nucleus.len() == 0 && cur.coda.len()
            == 0,
        Position::Onset => cur.nucleus.len() == 0 && cur.coda.len() == 0,
        Position::Nucleus => cur.nucleus.len() >= 1 && cur.coda.len() == 0,
        Position::Coda => i >= n || cur.coda.len() >= 1,
    }
}

/// The surface texts of a sequence of syllables, concatenated in order.
pub open spec fn concat_texts(v: Seq<SyllableView>) -> Seq<char>
    decreases v.len(),
{
    if v.len() == 0 {
        Seq::<char>::empty()
    } else {
        v[0].text() + concat_texts(v.drop_first())
    }
}

/// Appending a syllable appends its text.
pub proof fn lemma_concat_push(v: Seq<SyllableView>, x: SyllableView)
    ensures
        concat_texts(v.push(x)) == concat_texts(v) + x.text(),
    decreases v.len(),
{
    if v.len() == 0 {
        assert(v.push(x).drop_first() =~= Seq::<SyllableView>::empty());
        assert(concat_texts(Seq::<SyllableView>::empty()) == Seq::<char>::empty());
        assert(concat_texts(v.push(x)) =~= concat_texts(v) + x.text());
    } else {
        assert(v.push(x).drop_first() =~= v.drop_first().push(x));
        lemma_concat_push(v.drop_first(), x);
        assert(concat_texts(v.push(x)) == v[0].text() + concat_texts(v.drop_first().push(x)));
        assert(concat_texts(v.push(x)) =~= concat_texts(v) + x.text());
    }
}

/// A step that only grows the in-progress syllable extends the consumed
/// prefix by the characters just read.
proof fn lemma_prefix_same(
    done: Seq<SyllableView>,
    t2: Seq<char>,
    whole: Seq<char>,
    s: Seq<char>,
    i: int,
    added: Seq<char>,
)
    requires
        0 <= i,
        i + added.len() <= s.len(),
        forall|k: int| 0 <= k < added.len() ==> added[k] == s[i + k],
        concat_texts(done) + whole == s.take(i),
        t2 == whole + added,
    ensures
        concat_texts(done) + t2 == s.take(i + added.len()),
{
    let m = added.len() as int;
    assert(s.take(i).len() == i);
    assert(concat_texts(done).len() + whole.len() == i);
    let cd = concat_texts(done);
    assert forall|j: int| 0 <= j < i + m implies (cd + t2)[j] == s[j] by {
        if j < cd.len() {
            assert((cd + t2)[j] == cd[j]);
            assert((cd + whole)[j] == s.take(i)[j]);
        } else if j < i {
            assert((cd + t2)[j] == t2[j - cd.len()]);
            assert(t2[j - cd.len()] == whole[j - cd.len()]);
            assert((cd + whole)[j] == s.take(i)[j]);
        } else {
            assert((cd + t2)[j] == t2[j - cd.len()]);
            assert(t2[j - cd.len()] == added[j - i]);
            assert(added[j - i] == s[i + (j - i)]);
        }
    }
    assert(concat_texts(done) + t2 =~= s.take(i + m));
}

/// A step that closes a syllable and opens a new one also extends the
/// consumed prefix by the characters just read: the closed syllable and
/// the new fragment together hold the old fragment plus those characters.
proof fn lemma_prefix_push(
    done: Seq<SyllableView>,
    pushed: SyllableView,
    t2: Seq<char>,
    whole: Seq<char>,
    s: Seq<char>,
    i: int,
    added: Seq<char>,
)
    requires
        0 <= i,
        i + added.len() <= s.len(),
        forall|k: int| 0 <= k < added.len() ==> added[k] == s[i + k],
        concat_texts(done) + whole == s.take(i),
        pushed.text() + t2 == whole + added,
    ensures
        concat_texts(done.push(pushed)) + t2 == s.take(i + added.len()),
{
    lemma_concat_push(done, pushed);
    lemma_prefix_same(done, pushed.text() + t2, whole, s, i, added);
    assert(concat_texts(done.push(pushed)) + t2 =~= concat_texts(done) + (pushed.text()
        + t2));
}

/// Each step of the machine extends the consumed prefix by exactly the
/// characters it reads, so a completed run reproduces the whole word.
proof fn lemma_step_concat(
    s: Seq<char>,
    i: int,
    pos: Position,
    cur: SyllableView,
    done: Seq<SyllableView>,
)
    requires
        0 <= i <= s.len(),
        state_inv(s.len() as int, i, pos, cur),
        spec_step(s, i, pos, cur, done) is Some,
        concat_texts(done) + cur.text() == s.take(i),
    ensures
        concat_texts(spec_step(s, i, pos, cur, done)->Some_0) == s,
    decreases s.len() - i, 1int,
{
    if i >= s.len() {
        lemma_concat_push(done, cur);
        assert(s.take(i) =~= s);
    } else {
        let c = s[i];
        if !spec_is_vowel(c) {
            match pos {
                Position::Start | Position::Onset => {
                    lemma_step_concat_cons_pre(s, i, pos, cur, done);
                },
                Position::Nucleus => {
                    lemma_step_concat_cons_nucleus(s, i, cur, done);
                },
                Position::Coda => {
                    lemma_step_concat_cons_coda(s, i, cur, done);
                },
            }
        } else {
            match pos {
                Position::Start | Position::Onset => {
                    let cur2 = syl(cur.onset, cur.nucleus.push(c), cur.coda);
                    assert(cur2.text() =~= cur.text() + seq![c]);
                    lemma_prefix_same(done, cur2.text(), cur.text(), s, i, seq![c]);
                    lemma_step_concat(s, i + 1, Position::Nucleus, cur2, done);
                },
                Position::Nucleus => {
                    lemma_step_concat_vowel_nucleus(s, i, cur, done);
                },
                Position::Coda => {
                    lemma_step_concat_vowel_coda(s, i, cur, done);
                },
            }
        }
    }
}

/// Consonant read while no nucleus is open yet.
proof fn lemma_step_concat_cons_pre(
    s: Seq<char>,
    i: int,
    pos: Position,
    cur: SyllableView,
    done: Seq<SyllableView>,
)
    requires
        0 <= i < s.len(),
        pos == Position::Start || pos == Position::Onset,
        !spec_is_vowel(s[i]),
        state_inv(s.len() as int, i, pos, cur),
        spec_step(s, i, pos, cur, done) is Some,
        concat_texts(done) + cur.text() == s.take(i),
    ensures
        concat_texts(spec_step(s, i, pos, cur, done)->Some_0) == s,
    decreases s.len() - i, 0int,
{
    let c = s[i];
    let n = s.len() as int;
    if c == 'y' {
        if cur.onset.len() == 0 {
            let cur2 = syl(cur.onset.push('y'), cur.nucleus, cur.coda);
            assert(cur2.text() =~= cur.text() + seq![c]);
            lemma_prefix_same(done, cur2.text(), cur.text(), s, i, seq![c]);
            lemma_step_concat(s, i + 1, Position::Onset, cur2, done);
        } else {
            let cur2 = syl(cur.onset, cur.nucleus.push('y'), cur.coda);
            assert(cur2.text() =~= cur.text() + seq![c]);
            lemma_prefix_same(done, cur2.text(), cur.text(), s, i, seq![c]);
            lemma_step_concat(s, i + 1, Position::Nucleus, cur2, done);
        }
    } else if c == 'q' || c == 'g' {
        if i + 1 >= n {
            // spec_step is None there, excluded by the requires
        } else if s[i + 1] == 'u' {
            if i + 2 >= n {
                // None, excluded
            } else if s[i + 2] == 'i' || s[i + 2] == 'e' {
                let cur2 = syl(
                    cur.onset.push(c).push('u'),
                    cur.nucleus.push(s[i + 2]),
                    cur.coda,
                );
                assert(cur2.text() =~= cur.text() + seq![c, 'u', s[i + 2]]);
                lemma_prefix_same(done, cur2.text(), cur.text(), s, i, seq![c, 'u', s[i + 2]]);
                lemma_step_concat(s, i + 3, Position::Nucleus, cur2, done);
            } else {
                let cur2 = syl(cur.onset.push(c), cur.nucleus, cur.coda);
                assert(cur2.text() =~= cur.text() + seq![c]);
                lemma_prefix_same(done, cur2.text(), cur.text(), s, i, seq![c]);
                lemma_step_concat(s, i + 1, Position::Onset, cur2, done);
            }
        } else {
            let cur2 = syl(cur.onset.push(c), cur.nucleus, cur.coda);
            assert(cur2.text() =~= cur.text() + seq![c]);
            lemma_prefix_same(done, cur2.text(), cur.text(), s, i, seq![c]);
            lemma_step_concat(s, i + 1, Position::Onset, cur2, done);
        }
    } else {
        let cur2 = syl(cur.onset.push(c), cur.nucleus, cur.coda);
        assert(cur2.text() =~= cur.text() + seq![c]);
        lemma_prefix_same(done, cur2.text(), cur.text(), s, i, seq![c]);
        lemma_step_concat(s, i + 1, Position::Onset, cur2, done);
    }
}

/// Consonant read while the nucleus is open.
proof fn lemma_step_concat_cons_nucleus(
    s: Seq<char>,
    i: int,
    cur: SyllableView,
    done: Seq<SyllableView>,
)
    requires
        0 <= i < s.len(),
        !spec_is_vowel(s[i]),
        state_inv(s.len() as int, i, Position::Nucleus, cur),
        spec_step(s, i, Position::Nucleus, cur, done) is Some,
        concat_texts(done) + cur.text() == s.take(i),
    ensures
        concat_texts(spec_step(s, i, Position::Nucleus, cur, done)->Some_0) == s,
    decreases s.len() - i, 0int,
{
    let c = s[i];
    let n = s.len() as int;
    if c == 'y' && (i == n - 1 || !spec_is_vowel(s[i + 1])) {
        let cur2 = syl(cur.onset, cur.nucleus.push('y'), cur.coda);
        assert(cur2.text() =~= cur.text() + seq![c]);
        lemma_prefix_same(done, cur2.text(), cur.text(), s, i, seq![c]);
        lemma_step_concat(s, i + 1, Position::Nucleus, cur2, done);
    } else if c == 'h' {
        if i + 1 >= n {
            let cur2 = syl(cur.onset, cur.nucleus, cur.coda.push('h'));
            assert(cur2.text() =~= cur.text() + seq![c]);
            lemma_prefix_same(done, cur2.text(), cur.text(), s, i, seq![c]);
            lemma_step_concat(s, i + 1, Position::Coda, cur2, done);
        } else {
            let v = s[i + 1];
            if spec_is_vowel(v) {
                if cur.nucleus.len() == 1 && spec_can_form_hiatus(cur.nucleus[0], v) {
                    let cur2 = syl(seq!['h'], seq![v], Seq::<char>::empty());
                    assert(cur.text() + cur2.text() =~= cur.text() + seq![c, v]);
                    lemma_prefix_push(done, cur, cur2.text(), cur.text(), s, i, seq![c, v]);
                    lemma_step_concat(s, i + 2, Position::Nucleus, cur2, done.push(cur));
                } else if i + 2 >= n {
                    let cur2 = syl(cur.onset, cur.nucleus.push('h').push(v), cur.coda);
                    assert(cur2.text() =~= cur.text() + seq![c, v]);
                    lemma_prefix_same(done, cur2.text(), cur.text(), s, i, seq![c, v]);
                    lemma_step_concat(s, i + 2, Position::Coda, cur2, done);
                } else {
                    let w = s[i + 2];
                    if spec_is_vowel(w) {
                        if spec_can_form_triphthong(cur.nucleus[0], v, w) {
                            let cur2 = syl(
                                cur.onset,
                                cur.nucleus.push('h').push(v).push(w),
                                cur.coda,
                            );
                            assert(cur2.text() =~= cur.text() + seq![c, v, w]);
                            lemma_prefix_same(done, cur2.text(), cur.text(), s, i, seq![c, v, w]);
                            lemma_step_concat(s, i + 3, Position::Nucleus, cur2, done);
                        } else {
                            let cur2 = syl(seq!['h'], seq![v, w], Seq::<char>::empty());
                            assert(cur.text() + cur2.text() =~= cur.text() + seq![c, v, w]);
                            lemma_prefix_push(done, cur, cur2.text(), cur.text(), s, i, seq![c, v, w]);
                            lemma_step_concat(s, i + 3, Position::Nucleus, cur2, done.push(cur));
                        }
                    } else {
                        let cur2 = syl(
                            cur.onset,
                            cur.nucleus.push('h').push(v),
                            cur.coda.push(w),
                        );
                        assert(cur2.text() =~= cur.text() + seq![c, v, w]);
                        lemma_prefix_same(done, cur2.text(), cur.text(), s, i, seq![c, v, w]);
                        lemma_step_concat(s, i + 3, Position::Coda, cur2, done);
                    }
                }
            } else {
                let pushed = syl(cur.onset, cur.nucleus, cur.coda.push('h'));
                let cur2 = syl(seq![v], Seq::<char>::empty(), Seq::<char>::empty());
                assert(pushed.text() + cur2.text() =~= cur.text() + seq![c, v]);
                lemma_prefix_push(done, pushed, cur2.text(), cur.text(), s, i, seq![c, v]);
                lemma_step_concat(s, i + 2, Position::Onset, cur2, done.push(pushed));
            }
        }
    } else {
        let cur2 = syl(cur.onset, cur.nucleus, cur.coda.push(c));
        assert(cur2.text() =~= cur.text() + seq![c]);
        lemma_prefix_same(done, cur2.text(), cur.text(), s, i, seq![c]);
        lemma_step_concat(s, i + 1, Position::Coda, cur2, done);
    }
}

/// Consonant read while the coda is open.
proof fn lemma_step_concat_cons_coda(
    s: Seq<char>,
    i: int,
    cur: SyllableView,
    done: Seq<SyllableView>,
)
    requires
        0 <= i < s.len(),
        !spec_is_vowel(s[i]),
        state_inv(s.len() as int, i, Position::Coda, cur),
        spec_step(s, i, Position::Coda, cur, done) is Some,
        concat_texts(done) + cur.text() == s.take(i),
    ensures
        concat_texts(spec_step(s, i, Position::Coda, cur, done)->Some_0) == s,
    decreases s.len() - i, 0int,
{
    let c = s[i];
    let n = s.len() as int;
    if c == 'y' {
        if cur.coda.len() == 1 {
            if i + 1 < n && spec_is_vowel(s[i + 1]) {
                let cur2 = syl(seq!['y'], Seq::<char>::empty(), Seq::<char>::empty());
                assert(cur.text() + cur2.text() =~= cur.text() + seq![c]);
                lemma_prefix_push(done, cur, cur2.text(), cur.text(), s, i, seq![c]);
                lemma_step_concat(s, i + 1, Position::Onset, cur2, done.push(cur));
            } else {
                let pushed = syl(cur.onset, cur.nucleus, Seq::<char>::empty());
                let cur2 = syl(cur.coda, seq!['y'], Seq::<char>::empty());
                assert(pushed.text() + cur2.text() =~= cur.text() + seq![c]);
                lemma_prefix_push(done, pushed, cur2.text(), cur.text(), s, i, seq![c]);
                lemma_step_concat(s, i + 1, Position::Nucleus, cur2, done.push(pushed));
            }
        } else if cur.coda.len() == 2 {
            if spec_is_group_pair(cur.coda[0], cur.coda[1]) {
                let pushed = syl(cur.onset, cur.nucleus, Seq::<char>::empty());
                let cur2 = syl(cur.coda, seq!['y'], Seq::<char>::empty());
                assert(pushed.text() + cur2.text() =~= cur.text() + seq![c]);
                lemma_prefix_push(done, pushed, cur2.text(), cur.text(), s, i, seq![c]);
                lemma_step_concat(s, i + 1, Position::Nucleus, cur2, done.push(pushed));
            } else {
                let pushed = syl(cur.onset, cur.nucleus, seq![cur.coda[0]]);
                let cur2 = syl(seq![cur.coda[1]], seq!['y'], Seq::<char>::empty());
                assert(pushed.text() + cur2.text() =~= cur.text() + seq![c]);
                lemma_prefix_push(done, pushed, cur2.text(), cur.text(), s, i, seq![c]);
                lemma_step_concat(s, i + 1, Position::Nucleus, cur2, done.push(pushed));
            }
        } else {
            let cur2 = syl(cur.onset, cur.nucleus, cur.coda.push('y'));
            assert(cur2.text() =~= cur.text() + seq![c]);
            lemma_prefix_same(done, cur2.text(), cur.text(), s, i, seq![c]);
            lemma_step_concat(s, i + 1, Position::Coda, cur2, done);
        }
    } else {
        let cur2 = syl(cur.onset, cur.nucleus, cur.coda.push(c));
        assert(cur2.text() =~= cur.text() + seq![c]);
        lemma_prefix_same(done, cur2.text(), cur.text(), s, i, seq![c]);
        lemma_step_concat(s, i + 1, Position::Coda, cur2, done);
    }
}

/// Vowel read while the nucleus is open.
proof fn lemma_step_concat_vowel_nucleus(
    s: Seq<char>,
    i: int,
    cur: SyllableView,
    done: Seq<SyllableView>,
)
    requires
        0 <= i < s.len(),
        spec_is_vowel(s[i]),
        state_inv(s.len() as int, i, Position::Nucleus, cur),
        spec_step(s, i, Position::Nucleus, cur, done) is Some,
        concat_texts(done) + cur.text() == s.take(i),
    ensures
        concat_texts(spec_step(s, i, Position::Nucleus, cur, done)->Some_0) == s,
    decreases s.len() - i, 0int,
{
    let c = s[i];
    if cur.nucleus.len() == 1 {
        if spec_can_form_hiatus(cur.nucleus[0], c) {
            let cur2 = syl(Seq::<char>::empty(), seq![c], Seq::<char>::empty());
            assert(cur.text() + cur2.text() =~= cur.text() + seq![c]);
            lemma_prefix_push(done, cur, cur2.text(), cur.text(), s, i, seq![c]);
            lemma_step_concat(s, i + 1, Position::Nucleus, cur2, done.push(cur));
        } else {
            let cur2 = syl(cur.onset, cur.nucleus.push(c), cur.coda);
            assert(cur2.text() =~= cur.text() + seq![c]);
            lemma_prefix_same(done, cur2.text(), cur.text(), s, i, seq![c]);
            lemma_step_concat(s, i + 1, Position::Nucleus, cur2, done);
        }
    } else if cur.nucleus.len() == 2 {
        if spec_can_form_triphthong(cur.nucleus[0], cur.nucleus[1], c) {
            let cur2 = syl(cur.onset, cur.nucleus.push(c), cur.coda);
            assert(cur2.text() =~= cur.text() + seq![c]);
            lemma_prefix_same(done, cur2.text(), cur.text(), s, i, seq![c]);
            lemma_step_concat(s, i + 1, Position::Nucleus, cur2, done);
        } else if crate::char_util::spec_is_weak_vowel(cur.nucleus[1]) {
            let pushed = syl(cur.onset, seq![cur.nucleus[0]], cur.coda);
            let cur2 = syl(
                Seq::<char>::empty(),
                seq![cur.nucleus[1], c],
                Seq::<char>::empty(),
            );
            assert(pushed.text() + cur2.text() =~= cur.text() + seq![c]);
            lemma_prefix_push(done, pushed, cur2.text(), cur.text(), s, i, seq![c]);
            lemma_step_concat(s, i + 1, Position::Nucleus, cur2, done.push(pushed));
        } else {
            let cur2 = syl(Seq::<char>::empty(), seq![c], Seq::<char>::empty());
            assert(cur.text() + cur2.text() =~= cur.text() + seq![c]);
            lemma_prefix_push(done, cur, cur2.text(), cur.text(), s, i, seq![c]);
            lemma_step_concat(s, i + 1, Position::Nucleus, cur2, done.push(cur));
        }
    } else {
        let cur2 = syl(Seq::<char>::empty(), seq![c], Seq::<char>::empty());
        assert(cur.text() + cur2.text() =~= cur.text() + seq![c]);
        lemma_prefix_push(done, cur, cur2.text(), cur.text(), s, i, seq![c]);
        lemma_step_concat(s, i + 1, Position::Nucleus, cur2, done.push(cur));
    }
}

/// Vowel read while the coda is open: the coda splits between the
/// closing syllable and the onset of the new one.
proof fn lemma_step_concat_vowel_coda(
    s: Seq<char>,
    i: int,
    cur: SyllableView,
    done: Seq<SyllableView>,
)
    requires
        0 <= i < s.len(),
        spec_is_vowel(s[i]),
        state_inv(s.len() as int, i, Position::Coda, cur),
        spec_step(s, i, Position::Coda, cur, done) is Some,
        concat_texts(done) + cur.text() == s.take(i),
    ensures
        concat_texts(spec_step(s, i, Position::Coda, cur, done)->Some_0) == s,
    decreases s.len() - i, 0int,
{
    let c = s[i];
    let k = cur.coda.len() as int;
    if k == 1 {
        let pushed = syl(cur.onset, cur.nucleus, Seq::<char>::empty());
        let cur2 = syl(cur.coda, seq![c], Seq::<char>::empty());
        assert(pushed.text() + cur2.text() =~= cur.text() + seq![c]);
        lemma_prefix_push(done, pushed, cur2.text(), cur.text(), s, i, seq![c]);
        lemma_step_concat(s, i + 1, Position::Nucleus, cur2, done.push(pushed));
    } else if k == 2 && spec_is_group_pair(cur.coda[0], cur.coda[1]) {
        let pushed = syl(cur.onset, cur.nucleus, Seq::<char>::empty());
        let cur2 = syl(cur.coda, seq![c], Seq::<char>::empty());
        assert(pushed.text() + cur2.text() =~= cur.text() + seq![c]);
        lemma_prefix_push(done, pushed, cur2.text(), cur.text(), s, i, seq![c]);
        lemma_step_concat(s, i + 1, Position::Nucleus, cur2, done.push(pushed));
    } else if k == 2 {
        let pushed = syl(cur.onset, cur.nucleus, seq![cur.coda[0]]);
        let cur2 = syl(seq![cur.coda[1]], seq![c], Seq::<char>::empty());
        assert(pushed.text() + cur2.text() =~= cur.text() + seq![c]);
        lemma_prefix_push(done, pushed, cur2.text(), cur.text(), s, i, seq![c]);
        lemma_step_concat(s, i + 1, Position::Nucleus, cur2, done.push(pushed));
    } else {
        let pushed = syl(cur.onset, cur.nucleus, cur.coda.take(k - 2));
        let cur2 = syl(cur.coda.skip(k - 2), seq![c], Seq::<char>::empty());
        assert(cur.coda.take(k - 2) + cur.coda.skip(k - 2) =~= cur.coda);
        assert(pushed.text() + cur2.text() =~= cur.text() + seq![c]);
        lemma_prefix_push(done, pushed, cur2.text(), cur.text(), s, i, seq![c]);
        lemma_step_concat(s, i + 1, Position::Nucleus, cur2, done.push(pushed));
    }
}

/// Round trip: every word that segmentation accepts is reproduced
/// exactly, case and diacritics included, by concatenating the
/// onset, nucleus and coda of its syllables in order.
pub proof fn lemma_round_trip(s: Seq<char>)
    requires
        spec_syllabify(s) is Some,
    ensures
        concat_texts(spec_syllabify(s)->Some_0) == s,
{
    if s.len() == 0 {
        assert(concat_texts(spec_syllabify(s)->Some_0) =~= s);
    } else if s.len() == 1 {
        let v = spec_syllabify(s)->Some_0;
        assert(v.drop_first() =~= Seq::<SyllableView>::empty());
        assert(concat_texts(Seq::<SyllableView>::empty()) == Seq::<char>::empty());
        assert(concat_texts(v) == v[0].text() + concat_texts(v.drop_first()));
        assert(concat_texts(v) =~= s);
    } else {
        assert(concat_texts(Seq::<SyllableView>::empty()) + empty_syl().text() =~= s.take(0));
        lemma_step_concat(s, 0, Position::Start, empty_syl(), Seq::<SyllableView>::empty());
    }
}

/// A [`Syllable`] holding exactly the given character runs.
fn make_syllable(on: &Vec<char>, nu: &Vec<char>, co: &Vec<char>) -> (r: Syllable)
    ensures
        r@ == syl(on@, nu@, co@),
{
    Syllable {
        onset: string_from_chars(on),
        nucleus: string_from_chars(nu),
        coda: string_from_chars(co),
    }
}

/// Segments a word into syllables, exactly as [`spec_syllabify`]
/// describes; fails exactly when the specification says segmentation
/// fails (a q/g lookahead cut off by the end of the word).
#[verifier::loop_isolation(false)]
#[verifier::rlimit(100)]
pub fn to_syllables(word: &str) -> (r: Result<Vec<Syllable>, InvalidWord>)
    ensures
        match r {
            Ok(v) => spec_syllabify(word@) == Some(views_of(v@)),
            Err(_) => spec_syllabify(word@) is None,
        },
{
    let chars = chars_of(word);
    let n = chars.len();
    if n == 0 {
        let out: Vec<Syllable> = Vec::new();
        proof {
            assert(views_of(out@) =~= Seq::<SyllableView>::empty());
        }
        return Ok(out);
    }
    if n == 1 {
        let empty: Vec<char> = Vec::new();
        let mut nu: Vec<char> = Vec::new();
        nu.push(chars[0]);
        let first = make_syllable(&empty, &nu, &empty);
        let mut out: Vec<Syllable> = Vec::new();
        out.push(first);
        proof {
            assert(nu@ =~= seq![word@[0]]);
            assert(views_of(out@) =~= seq![
                syl(Seq::<char>::empty(), seq![word@[0]], Seq::<char>::empty()),
            ]);
        }
        return Ok(out);
    }
    let mut on: Vec<char> = Vec::new();
    let mut nu: Vec<char> = Vec::new();
    let mut co: Vec<char> = Vec::new();
    let mut done: Vec<Syllable> = Vec::new();
    let mut pos = Position::Start;
    let mut i: usize = 0;
    proof {
        assert(views_of(done@) =~= Seq::<SyllableView>::empty());
        assert(syl(on@, nu@, co@) == empty_syl());
    }
    while i < n
        invariant
            0 <= i <= n,
            spec_step(word@, i as int, pos, syl(on@, nu@, co@), views_of(done@))
                == spec_syllabify(word@),
            state_inv(n as int, i as int, pos, syl(on@, nu@, co@)),
        decreases n - i,
    {
        let ghost prev_i = i as int;
        let ghost prev_pos = pos;
        let ghost prev_cur = syl(on@, nu@, co@);
        let ghost prev_done = views_of(done@);
        let c = chars[i];
        if !is_vowel(c) {
            match pos {
                Position::Start | Position::Onset => {
                    if c == 'y' {
                        if on.len() == 0 {
                            on.push(c);
                            pos = Position::Onset;
                            i = i + 1;
                            proof {
                                assert(spec_step(word@, prev_i, prev_pos, prev_cur, prev_done)
                                    == spec_step(
                                    word@,
                                    i as int,
                                    pos,
                                    syl(on@, nu@, co@),
                                    views_of(done@),
                                ));
                            }
                        } else {
                            nu.push(c);
                            pos = Position::Nucleus;
                            i = i + 1;
                            proof {
                                assert(spec_step(word@, prev_i, prev_pos, prev_cur, prev_done)
                                    == spec_step(
                                    word@,
                                    i as int,
                                    pos,
                                    syl(on@, nu@, co@),
                                    views_of(done@),
                                ));
                            }
                        }
                    } else if c == 'q' || c == 'g' {
                        if i >= n - 1 {
                            proof {
                                assert(spec_step(word@, prev_i, prev_pos, prev_cur, prev_done)
                                    is None);
                            }
                            return Err(InvalidWord);
                        }
                        if chars[i + 1] == 'u' {
                            if i >= n - 2 {
                                proof {
                                    assert(spec_step(
                                        word@,
                                        prev_i,
                                        prev_pos,
                                        prev_cur,
                                        prev_done,
                                    ) is None);
                                }
                                return Err(InvalidWord);
                            }
                            let w = chars[i + 2];
                            if w == 'i' || w == 'e' {
                                on.push(c);
                                on.push('u');
                                nu.push(w);
                                pos = Position::Nucleus;
                                i = i + 3;
                                proof {
                                    assert(spec_step(
                                        word@,
                                        prev_i,
                                        prev_pos,
                                        prev_cur,
                                        prev_done,
                                    ) == spec_step(
                                        word@,
                                        i as int,
                                        pos,
                                        syl(on@, nu@, co@),
                                        views_of(done@),
                                    ));
                                }
                            } else {
                                on.push(c);
                                pos = Position::Onset;
                                i = i + 1;
                                proof {
                                    assert(spec_step(
                                        word@,
                                        prev_i,
                                        prev_pos,
                                        prev_cur,
                                        prev_done,
                                    ) == spec_step(
                                        word@,
                                        i as int,
                                        pos,
                                        syl(on@, nu@, co@),
                                        views_of(done@),
                                    ));
                                }
                            }
                        } else {
                            on.push(c);
                            pos = Position::Onset;
                            i = i + 1;
                            proof {
                                assert(spec_step(word@, prev_i, prev_pos, prev_cur, prev_done)
                                    == spec_step(
                                    word@,
                                    i as int,
                                    pos,
                                    syl(on@, nu@, co@),
                                    views_of(done@),
                                ));
                            }
                        }
                    } else {
                        on.push(c);
                        pos = Position::Onset;
                        i = i + 1;
                        proof {
                            assert(spec_step(word@, prev_i, prev_pos, prev_cur, prev_done)
                                == spec_step(
                                word@,
                                i as int,
                                pos,
                                syl(on@, nu@, co@),
                                views_of(done@),
                            ));
                        }
                    }
                },
                Position::Nucleus => {
                    if c == 'y' && (i == n - 1 || !is_vowel(chars[i + 1])) {
                        nu.push(c);
                        i = i + 1;
                        proof {
                            assert(spec_step(word@, prev_i, prev_pos, prev_cur, prev_done)
                                == spec_step(
                                word@,
                                i as int,
                                pos,
                                syl(on@, nu@, co@),
                                views_of(done@),
                            ));
                        }
                    } else if c == 'h' {
                        if i >= n - 1 {
                            co.push(c);
                            pos = Position::Coda;
                            i = i + 1;
                            proof {
                                assert(spec_step(word@, prev_i, prev_pos, prev_cur, prev_done)
                                    == spec_step(
                                    word@,
                                    i as int,
                                    pos,
                                    syl(on@, nu@, co@),
                                    views_of(done@),
                                ));
                            }
                        } else {
                            let v = chars[i + 1];
                            if is_vowel(v) {
                                if nu.len() == 1 && can_form_hiatus(nu[0], v) {
                                    let newsyl = make_syllable(&on, &nu, &co);
                                    let ghost db = done@;
                                    done.push(newsyl);
                                    on.clear();
                                    on.push('h');
                                    nu.clear();
                                    nu.push(v);
                                    pos = Position::Nucleus;
                                    i = i + 2;
                                    proof {
                                        lemma_views_push(db, newsyl);
                                        assert(co@ =~= Seq::<char>::empty());
                                        assert(on@ =~= seq!['h']);
                                        assert(nu@ =~= seq![v]);
                                        assert(spec_step(
                                            word@,
                                            prev_i,
                                            prev_pos,
                                            prev_cur,
                                            prev_done,
                                        ) == spec_step(
                                            word@,
                                            i as int,
                                            pos,
                                            syl(on@, nu@, co@),
                                            views_of(done@),
                                        ));
                                    }
                                } else if i >= n - 2 {
                                    nu.push(c);
                                    nu.push(v);
                                    pos = Position::Coda;
                                    i = i + 2;
                                    proof {
                                        assert(spec_step(
                                            word@,
                                            prev_i,
                                            prev_pos,
                                            prev_cur,
                                            prev_done,
                                        ) == spec_step(
                                            word@,
                                            i as int,
                                            pos,
                                            syl(on@, nu@, co@),
                                            views_of(done@),
                                        ));
                                    }
                                } else {
                                    let w = chars[i + 2];
                                    if is_vowel(w) {
                                        if can_form_triphthong(nu[0], v, w) {
                                            nu.push(c);
                                            nu.push(v);
                                            nu.push(w);
                                            i = i + 3;
                                            proof {
                                                assert(spec_step(
                                                    word@,
                                                    prev_i,
                                                    prev_pos,
                                                    prev_cur,
                                                    prev_done,
                                                ) == spec_step(
                                                    word@,
                                                    i as int,
                                                    pos,
                                                    syl(on@, nu@, co@),
                                                    views_of(done@),
                                                ));
                                            }
                                        } else {
                                            let newsyl = make_syllable(&on, &nu, &co);
                                            let ghost db = done@;
                                            done.push(newsyl);
                                            on.clear();
                                            on.push('h');
                                            nu.clear();
                                            nu.push(v);
                                            nu.push(w);
                                            pos = Position::Nucleus;
                                            i = i + 3;
                                            proof {
                                                lemma_views_push(db, newsyl);
                                        assert(co@ =~= Seq::<char>::empty());
                                                assert(on@ =~= seq!['h']);
                                                assert(nu@ =~= seq![v, w]);
                                                assert(spec_step(
                                                    word@,
                                                    prev_i,
                                                    prev_pos,
                                                    prev_cur,
                                                    prev_done,
                                                ) == spec_step(
                                                    word@,
                                                    i as int,
                                                    pos,
                                                    syl(on@, nu@, co@),
                                                    views_of(done@),
                                                ));
                                            }
                                        }
                                    } else {
                                        nu.push(c);
                                        nu.push(v);
                                        co.push(w);
                                        pos = Position::Coda;
                                        i = i + 3;
                                        proof {
                                            assert(spec_step(
                                                word@,
                                                prev_i,
                                                prev_pos,
                                                prev_cur,
                                                prev_done,
                                            ) == spec_step(
                                                word@,
                                                i as int,
                                                pos,
                                                syl(on@, nu@, co@),
                                                views_of(done@),
                                            ));
                                        }
                                    }
                                }
                            } else {
                                co.push(c);
                                let newsyl = make_syllable(&on, &nu, &co);
                                let ghost db = done@;
                                done.push(newsyl);
                                on.clear();
                                on.push(v);
                                nu.clear();
                                co.clear();
                                pos = Position::Onset;
                                i = i + 2;
                                proof {
                                    lemma_views_push(db, newsyl);
                                        assert(co@ =~= Seq::<char>::empty());
                                    assert(on@ =~= seq![v]);
                                    assert(spec_step(word@, prev_i, prev_pos, prev_cur, prev_done)
                                        == spec_step(
                                        word@,
                                        i as int,
                                        pos,
                                        syl(on@, nu@, co@),
                                        views_of(done@),
                                    ));
                                }
                            }
                        }
                    } else {
                        co.push(c);
                        pos = Position::Coda;
                        i = i + 1;
                        proof {
                            assert(spec_step(word@, prev_i, prev_pos, prev_cur, prev_done)
                                == spec_step(
                                word@,
                                i as int,
                                pos,
                                syl(on@, nu@, co@),
                                views_of(done@),
                            ));
                        }
                    }
                },
                Position::Coda => {
                    if c == 'y' {
                        if co.len() == 1 {
                            if i < n - 1 && is_vowel(chars[i + 1]) {
                                let newsyl = make_syllable(&on, &nu, &co);
                                let ghost db = done@;
                                done.push(newsyl);
                                on.clear();
                                on.push(c);
                                nu.clear();
                                co.clear();
                                pos = Position::Onset;
                                i = i + 1;
                                proof {
                                    lemma_views_push(db, newsyl);
                                        assert(co@ =~= Seq::<char>::empty());
                                    assert(on@ =~= seq!['y']);
                                    assert(spec_step(word@, prev_i, prev_pos, prev_cur, prev_done)
                                        == spec_step(
                                        word@,
                                        i as int,
                                        pos,
                                        syl(on@, nu@, co@),
                                        views_of(done@),
                                    ));
                                }
                            } else {
                                let c0 = co[0];
                                co.clear();
                                let newsyl = make_syllable(&on, &nu, &co);
                                let ghost db = done@;
                                done.push(newsyl);
                                on.clear();
                                on.push(c0);
                                nu.clear();
                                nu.push(c);
                                pos = Position::Nucleus;
                                i = i + 1;
                                proof {
                                    lemma_views_push(db, newsyl);
                                        assert(co@ =~= Seq::<char>::empty());
                                    assert(on@ =~= prev_cur.coda);
                                    assert(nu@ =~= seq!['y']);
                                    assert(spec_step(word@, prev_i, prev_pos, prev_cur, prev_done)
                                        == spec_step(
                                        word@,
                                        i as int,
                                        pos,
                                        syl(on@, nu@, co@),
                                        views_of(done@),
                                    ));
                                }
                            }
                        } else if co.len() == 2 {
                            if is_group_pair(co[0], co[1]) {
                                let saved = subvec(&co, 0, 2);
                                co.clear();
                                let newsyl = make_syllable(&on, &nu, &co);
                                let ghost db = done@;
                                done.push(newsyl);
                                on = saved;
                                nu.clear();
                                nu.push(c);
                                pos = Position::Nucleus;
                                i = i + 1;
                                proof {
                                    lemma_views_push(db, newsyl);
                                        assert(co@ =~= Seq::<char>::empty());
                                    assert(on@ =~= prev_cur.coda);
                                    assert(nu@ =~= seq!['y']);
                                    assert(spec_step(word@, prev_i, prev_pos, prev_cur, prev_done)
                                        == spec_step(
                                        word@,
                                        i as int,
                                        pos,
                                        syl(on@, nu@, co@),
                                        views_of(done@),
                                    ));
                                }
                            } else {
                                let c0 = co[0];
                                let c1 = co[1];
                                co.clear();
                                co.push(c0);
                                let newsyl = make_syllable(&on, &nu, &co);
                                let ghost db = done@;
                                done.push(newsyl);
                                co.clear();
                                on.clear();
                                on.push(c1);
                                nu.clear();
                                nu.push(c);
                                pos = Position::Nucleus;
                                i = i + 1;
                                proof {
                                    lemma_views_push(db, newsyl);
                                        assert(co@ =~= Seq::<char>::empty());
                                    assert(newsyl@.coda =~= seq![prev_cur.coda[0]]);
                                    assert(on@ =~= seq![prev_cur.coda[1]]);
                                    assert(nu@ =~= seq!['y']);
                                    assert(spec_step(word@, prev_i, prev_pos, prev_cur, prev_done)
                                        == spec_step(
                                        word@,
                                        i as int,
                                        pos,
                                        syl(on@, nu@, co@),
                                        views_of(done@),
                                    ));
                                }
                            }
                        } else {
                            co.push(c);
                            i = i + 1;
                            proof {
                                assert(spec_step(word@, prev_i, prev_pos, prev_cur, prev_done)
                                    == spec_step(
                                    word@,
                                    i as int,
                                    pos,
                                    syl(on@, nu@, co@),
                                    views_of(done@),
                                ));
                            }
                        }
                    } else {
                        co.push(c);
                        i = i + 1;
                        proof {
                            assert(spec_step(word@, prev_i, prev_pos, prev_cur, prev_done)
                                == spec_step(
                                word@,
                                i as int,
                                pos,
                                syl(on@, nu@, co@),
                                views_of(done@),
                            ));
                        }
                    }
                },
            }
        } else {
            match pos {
                Position::Start | Position::Onset => {
                    nu.push(c);
                    pos = Position::Nucleus;
                    i = i + 1;
                    proof {
                        assert(spec_step(word@, prev_i, prev_pos, prev_cur, prev_done)
                            == spec_step(
                            word@,
                            i as int,
                            pos,
                            syl(on@, nu@, co@),
                            views_of(done@),
                        ));
                    }
                },
                Position::Nucleus => {
                    if nu.len() == 1 {
                        if can_form_hiatus(nu[0], c) {
                            let newsyl = make_syllable(&on, &nu, &co);
                            let ghost db = done@;
                            done.push(newsyl);
                            on.clear();
                            nu.clear();
                            nu.push(c);
                            i = i + 1;
                            proof {
                                lemma_views_push(db, newsyl);
                                        assert(co@ =~= Seq::<char>::empty());
                                assert(on@ =~= Seq::<char>::empty());
                                assert(nu@ =~= seq![c]);
                                assert(spec_step(word@, prev_i, prev_pos, prev_cur, prev_done)
                                    == spec_step(
                                    word@,
                                    i as int,
                                    pos,
                                    syl(on@, nu@, co@),
                                    views_of(done@),
                                ));
                            }
                        } else {
                            nu.push(c);
                            i = i + 1;
                            proof {
                                assert(spec_step(word@, prev_i, prev_pos, prev_cur, prev_done)
                                    == spec_step(
                                    word@,
                                    i as int,
                                    pos,
                                    syl(on@, nu@, co@),
                                    views_of(done@),
                                ));
                            }
                        }
                    } else if nu.len() == 2 {
                        if can_form_triphthong(nu[0], nu[1], c) {
                            nu.push(c);
                            i = i + 1;
                            proof {
                                assert(spec_step(word@, prev_i, prev_pos, prev_cur, prev_done)
                                    == spec_step(
                                    word@,
                                    i as int,
                                    pos,
                                    syl(on@, nu@, co@),
                                    views_of(done@),
                                ));
                            }
                        } else if crate::char_util::is_weak_vowel(nu[1]) {
                            let n0 = nu[0];
                            let n1 = nu[1];
                            nu.clear();
                            nu.push(n0);
                            let newsyl = make_syllable(&on, &nu, &co);
                            let ghost db = done@;
                            done.push(newsyl);
                            on.clear();
                            nu.clear();
                            nu.push(n1);
                            nu.push(c);
                            i = i + 1;
                            proof {
                                lemma_views_push(db, newsyl);
                                        assert(co@ =~= Seq::<char>::empty());
                                assert(newsyl@.nucleus =~= seq![prev_cur.nucleus[0]]);
                                assert(on@ =~= Seq::<char>::empty());
                                assert(nu@ =~= seq![prev_cur.nucleus[1], c]);
                                assert(spec_step(word@, prev_i, prev_pos, prev_cur, prev_done)
                                    == spec_step(
                                    word@,
                                    i as int,
                                    pos,
                                    syl(on@, nu@, co@),
                                    views_of(done@),
                                ));
                            }
                        } else {
                            let newsyl = make_syllable(&on, &nu, &co);
                            let ghost db = done@;
                            done.push(newsyl);
                            on.clear();
                            nu.clear();
                            nu.push(c);
                            i = i + 1;
                            proof {
                                lemma_views_push(db, newsyl);
                                        assert(co@ =~= Seq::<char>::empty());
                                assert(on@ =~= Seq::<char>::empty());
                                assert(nu@ =~= seq![c]);
                                assert(spec_step(word@, prev_i, prev_pos, prev_cur, prev_done)
                                    == spec_step(
                                    word@,
                                    i as int,
                                    pos,
                                    syl(on@, nu@, co@),
                                    views_of(done@),
                                ));
                            }
                        }
                    } else {
                        let newsyl = make_syllable(&on, &nu, &co);
                        let ghost db = done@;
                        done.push(newsyl);
                        on.clear();
                        nu.clear();
                        nu.push(c);
                        i = i + 1;
                        proof {
                            lemma_views_push(db, newsyl);
                                        assert(co@ =~= Seq::<char>::empty());
                            assert(on@ =~= Seq::<char>::empty());
                            assert(nu@ =~= seq![c]);
                            assert(spec_step(word@, prev_i, prev_pos, prev_cur, prev_done)
                                == spec_step(
                                word@,
                                i as int,
                                pos,
                                syl(on@, nu@, co@),
                                views_of(done@),
                            ));
                        }
                    }
                },
                Position::Coda => {
                    let k = co.len();
                    if k == 1 {
                        let c0 = co[0];
                        co.clear();
                        let newsyl = make_syllable(&on, &nu, &co);
                        let ghost db = done@;
                        done.push(newsyl);
                        on.clear();
                        on.push(c0);
                        nu.clear();
                        nu.push(c);
                        pos = Position::Nucleus;
                        i = i + 1;
                        proof {
                            lemma_views_push(db, newsyl);
                                        assert(co@ =~= Seq::<char>::empty());
                            assert(on@ =~= prev_cur.coda);
                            assert(nu@ =~= seq![c]);
                            assert(spec_step(word@, prev_i, prev_pos, prev_cur, prev_done)
                                == spec_step(
                                word@,
                                i as int,
                                pos,
                                syl(on@, nu@, co@),
                                views_of(done@),
                            ));
                        }
                    } else if k == 2 && is_group_pair(co[0], co[1]) {
                        let saved = subvec(&co, 0, 2);
                        co.clear();
                        let newsyl = make_syllable(&on, &nu, &co);
                        let ghost db = done@;
                        done.push(newsyl);
                        on = saved;
                        nu.clear();
                        nu.push(c);
                        pos = Position::Nucleus;
                        i = i + 1;
                        proof {
                            lemma_views_push(db, newsyl);
                                        assert(co@ =~= Seq::<char>::empty());
                            assert(on@ =~= prev_cur.coda);
                            assert(nu@ =~= seq![c]);
                            assert(spec_step(word@, prev_i, prev_pos, prev_cur, prev_done)
                                == spec_step(
                                word@,
                                i as int,
                                pos,
                                syl(on@, nu@, co@),
                                views_of(done@),
                            ));
                        }
                    } else if k == 2 {
                        let c0 = co[0];
                        let c1 = co[1];
                        co.clear();
                        co.push(c0);
                        let newsyl = make_syllable(&on, &nu, &co);
                        let ghost db = done@;
                        done.push(newsyl);
                        co.clear();
                        on.clear();
                        on.push(c1);
                        nu.clear();
                        nu.push(c);
                        pos = Position::Nucleus;
                        i = i + 1;
                        proof {
                            lemma_views_push(db, newsyl);
                                        assert(co@ =~= Seq::<char>::empty());
                            assert(newsyl@.coda =~= seq![prev_cur.coda[0]]);
                            assert(on@ =~= seq![prev_cur.coda[1]]);
                            assert(nu@ =~= seq![c]);
                            assert(spec_step(word@, prev_i, prev_pos, prev_cur, prev_done)
                                == spec_step(
                                word@,
                                i as int,
                                pos,
                                syl(on@, nu@, co@),
                                views_of(done@),
                            ));
                        }
                    } else {
                        let keep = subvec(&co, 0, k - 2);
                        let moved = subvec(&co, k - 2, k);
                        co = keep;
                        let newsyl = make_syllable(&on, &nu, &co);
                        let ghost db = done@;
                        done.push(newsyl);
                        co = Vec::new();
                        on = moved;
                        nu.clear();
                        nu.push(c);
                        pos = Position::Nucleus;
                        i = i + 1;
                        proof {
                            lemma_views_push(db, newsyl);
                                        assert(co@ =~= Seq::<char>::empty());
                            assert(newsyl@.coda =~= prev_cur.coda.take(k - 2));
                            assert(on@ =~= prev_cur.coda.skip(k - 2));
                            assert(nu@ =~= seq![c]);
                            assert(spec_step(word@, prev_i, prev_pos, prev_cur, prev_done)
                                == spec_step(
                                word@,
                                i as int,
                                pos,
                                syl(on@, nu@, co@),
                                views_of(done@),
                            ));
                        }
                    }
                },
            }
        }
    }
    proof {
        assert(spec_step(word@, i as int, pos, syl(on@, nu@, co@), views_of(done@))
            == Some(views_of(done@).push(syl(on@, nu@, co@))));
    }
    let last = make_syllable(&on, &nu, &co);
    let ghost done_before = done@;
    done.push(last);
    proof {
        lemma_views_push(done_before, last);
    }
    Ok(done)
}

} // verus!
