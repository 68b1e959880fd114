//! The feedback engine: computing the feedback a guess produces against a
//! known or hypothesized solution, parsing externally observed feedback, and
//! testing whether a candidate word is consistent with a feedback.

use vstd::prelude::*;
use vstd::string::StrSliceExecFns;

use fixedbitset::FixedBitSet;

use crate::bits::bits_of;
use crate::bits::bitset_contains;
use crate::bits::bitset_insert;
use crate::bits::bitset_is_disjoint;
use crate::bits::bitset_is_subset;
use crate::bits::bitset_with_capacity;
use crate::bits::nbits_of;
use crate::errors::SolverError;
use crate::word::Word;

verus! {

/// The mathematical value of a feedback: which letters were observed present
/// or absent, and the (letter, position) pairs classified green or yellow.
#[verifier::ext_equal]
pub struct ScoreV {
    /// Letters that appear somewhere in the solution, observed via the guess.
    pub present: Set<usize>,
    /// Letters confirmed not in the solution.
    pub missing: Set<usize>,
    /// Pairs where the guess matched the solution at that exact position.
    pub good_loc: Seq<(usize, usize)>,
    /// Pairs whose letter is present in the solution but not at that position.
    pub bad_loc: Seq<(usize, usize)>,
}

/// A feedback with nothing observed yet.
pub open spec fn empty_score() -> ScoreV {
    ScoreV {
        present: Set::empty(),
        missing: Set::empty(),
        good_loc: Seq::empty(),
        bad_loc: Seq::empty(),
    }
}

/// The feedback after classifying the first `n` guess positions against a
/// hypothetical solution, in left-to-right order: a guessed letter contained
/// in the solution's letter set is green at an exact positional match and
/// yellow otherwise; a letter not contained at all is absent. Classification
/// goes by the letter set alone, so a repeated guess letter reports present
/// for every occurrence even when the solution holds one instance.
pub open spec fn score_upto(solution: Seq<usize>, guess: Seq<usize>, n: nat) -> ScoreV
    decreases n,
{
    if n == 0 {
        empty_score()
    } else {
        let prev = score_upto(solution, guess, (n - 1) as nat);
        let ch = guess[n - 1];
        let pos = (n - 1) as usize;
        if solution.contains(ch) {
            if solution[n - 1] == ch {
                ScoreV {
                    present: prev.present.insert(ch),
                    good_loc: prev.good_loc.push((ch, pos)),
                    ..prev
                }
            } else {
                ScoreV {
                    present: prev.present.insert(ch),
                    bad_loc: prev.bad_loc.push((ch, pos)),
                    ..prev
                }
            }
        } else {
            ScoreV { missing: prev.missing.insert(ch), ..prev }
        }
    }
}

/// The feedback a full 5-letter guess produces against a hypothetical
/// solution.
pub open spec fn score_of(solution: Seq<usize>, guess: Seq<usize>) -> ScoreV {
    score_upto(solution, guess, guess.len())
}

/// A feedback string as typed by the player: exactly 5 characters from
/// `{g, y, .}`.
pub open spec fn is_feedback_str(s: Seq<char>) -> bool {
    s.len() == 5 && forall|i: int|
        0 <= i < s.len() ==> (#[trigger] s[i] == 'g' || s[i] == 'y' || s[i] == '.')
}

/// The feedback encoded by the first `n` characters of an observed feedback
/// string, paired positionally with the guessed word: `g` is green, `y` is
/// yellow, `.` is absent.
pub open spec fn parse_upto(codes: Seq<char>, guess: Seq<usize>, n: nat) -> ScoreV
    decreases n,
{
    if n == 0 {
        empty_score()
    } else {
        let prev = parse_upto(codes, guess, (n - 1) as nat);
        let ch = guess[n - 1];
        let pos = (n - 1) as usize;
        if codes[n - 1] == 'g' {
            ScoreV {
                present: prev.present.insert(ch),
                good_loc: prev.good_loc.push((ch, pos)),
                ..prev
            }
        } else if codes[n - 1] == 'y' {
            ScoreV {
                present: prev.present.insert(ch),
                bad_loc: prev.bad_loc.push((ch, pos)),
                ..prev
            }
        } else {
            ScoreV { missing: prev.missing.insert(ch), ..prev }
        }
    }
}

/// The feedback encoded by a full observed feedback string.
pub open spec fn parse_score(codes: Seq<char>, guess: Seq<usize>) -> ScoreV {
    parse_upto(codes, guess, codes.len())
}

/// A candidate word is consistent with a feedback exactly when every present
/// letter is in its letter set, no absent letter is, every green pair matches
/// at its position, and no yellow pair matches at its position.
pub open spec fn matches_spec(s: ScoreV, w: Seq<usize>) -> bool {
    &&& s.present.subset_of(w.to_set())
    &&& s.missing.disjoint(w.to_set())
    &&& forall|k: int|
        0 <= k < s.good_loc.len() ==> w[(#[trigger] s.good_loc[k]).1 as int] == s.good_loc[k].0
    &&& forall|k: int|
        0 <= k < s.bad_loc.len() ==> w[(#[trigger] s.bad_loc[k]).1 as int] != s.bad_loc[k].0
}

/// Every pair of a feedback stays inside the 5-position, 26-letter universe.
pub open spec fn wf_score_v(s: ScoreV) -> bool {
    &&& forall|k: int|
        0 <= k < s.good_loc.len() ==> (#[trigger] s.good_loc[k]).0 < 26 && s.good_loc[k].1 < 5
    &&& forall|k: int|
        0 <= k < s.bad_loc.len() ==> (#[trigger] s.bad_loc[k]).0 < 26 && s.bad_loc[k].1 < 5
}

/// The result of comparing a guess against one specific solution, or the
/// canonical encoding of externally observed feedback. Immutable once built;
/// two feedbacks with identical field values are interchangeable.
pub struct Score {
    /// Letters observed present in the solution, as a 26-bit set.
    pub present: FixedBitSet,
    /// Letters confirmed absent from the solution, as a 26-bit set.
    pub missing: FixedBitSet,
    /// Green (letter, position) pairs.
    pub good_loc: Vec<(usize, usize)>,
    /// Yellow (letter, position) pairs.
    pub bad_loc: Vec<(usize, usize)>,
}

impl View for Score {
    type V = ScoreV;

    open spec fn view(&self) -> ScoreV {
        ScoreV {
            present: bits_of(self.present),
            missing: bits_of(self.missing),
            good_loc: self.good_loc@,
            bad_loc: self.bad_loc@,
        }
    }
}

impl Score {
    /// Both bit sets span the 26-letter universe and all pairs are in range.
    pub open spec fn wf(&self) -> bool {
        &&& wf_score_v(self@)
        &&& nbits_of(self.present) == 26
        &&& nbits_of(self.missing) == 26
    }

    /// A feedback with nothing observed yet.
    pub fn empty() -> (r: Score)
        ensures
            r@ == empty_score(),
            r.wf(),
    {
        let r = Score {
            present: bitset_with_capacity(26),
            missing: bitset_with_capacity(26),
            good_loc: Vec::new(),
            bad_loc: Vec::new(),
        };
        proof {
            assert(r@ =~= empty_score());
        }
        r
    }

    /// Computes the feedback `guess` would produce if `solution` were the
    /// true solution.
    pub fn new(solution: &Word, guess: &Word) -> (r: Score)
        requires
            solution.wf(),
            guess.wf(),
        ensures
            r@ == score_of(solution@, guess@),
            r.wf(),
    {
        let mut score = Score::empty();
        let mut pos: usize = 0;
        while pos < 5
            invariant
                solution.wf(),
                guess.wf(),
                pos <= 5,
                score@ == score_upto(solution@, guess@, pos as nat),
                score.wf(),
            decreases 5 - pos,
        {
            let ch = guess.orig[pos];
            if bitset_contains(&solution.letters, ch) {
                assert(solution@.contains(ch));
                if solution.orig[pos] == ch {
                    score.good_loc.push((ch, pos));
                } else {
                    score.bad_loc.push((ch, pos));
                }
                bitset_insert(&mut score.present, ch);
            } else {
                assert(!solution@.contains(ch));
                bitset_insert(&mut score.missing, ch);
            }
            proof {
                assert(score@ =~= score_upto(solution@, guess@, (pos + 1) as nat));
            }
            pos = pos + 1;
        }
        score
    }

    /// Builds a feedback from a player-typed result string, paired
    /// positionally with the guess that was shown. The string must already be
    /// trimmed; a wrong length or any character outside `{g, y, .}` is
    /// rejected.
    pub fn from_str(s: &str, guess: &Word) -> (r: Result<Score, SolverError>)
        requires
            guess.wf(),
        ensures
            r is Ok <==> is_feedback_str(s@),
            r matches Ok(sc) ==> sc@ == parse_score(s@, guess@) && sc.wf(),
            r is Err ==> r == Err::<Score, SolverError>(SolverError::MalformedFeedback),
    {
        let n = s.unicode_len();
        if n != 5 {
            return Err(SolverError::MalformedFeedback);
        }
        let mut score = Score::empty();
        let mut pos: usize = 0;
        while pos < 5
            invariant
                guess.wf(),
                s@.len() == 5,
                pos <= 5,
                forall|j: int| 0 <= j < pos ==> (#[trigger] s@[j] == 'g' || s@[j] == 'y' || s@[j] == '.'),
                score@ == parse_upto(s@, guess@, pos as nat),
                score.wf(),
            decreases 5 - pos,
        {
            let c = s.get_char(pos);
            let ch = guess.orig[pos];
            if c == 'g' {
                score.good_loc.push((ch, pos));
                bitset_insert(&mut score.present, ch);
            } else if c == 'y' {
                score.bad_loc.push((ch, pos));
                bitset_insert(&mut score.present, ch);
            } else if c == '.' {
                bitset_insert(&mut score.missing, ch);
            } else {
                return Err(SolverError::MalformedFeedback);
            }
            proof {
                assert(score@ =~= parse_upto(s@, guess@, (pos + 1) as nat));
            }
            pos = pos + 1;
        }
        Ok(score)
    }

    /// Tests whether a candidate word is consistent with this feedback.
    pub fn matches(&self, w: &Word) -> (r: bool)
        requires
            self.wf(),
            w.wf(),
        ensures
            r == matches_spec(self@, w@),
    {
        if !bitset_is_subset(&self.present, &w.letters) {
            return false;
        }
        if !bitset_is_disjoint(&self.missing, &w.letters) {
            return false;
        }
        let ng = self.good_loc.len();
        let mut k: usize = 0;
        while k < ng
            invariant
                self.wf(),
                w.wf(),
                ng == self.good_loc@.len(),
                k <= ng,
                forall|j: int|
                    0 <= j < k ==> w@[(#[trigger] self.good_loc@[j]).1 as int] == self.good_loc@[j].0,
            decreases ng - k,
        {
            let (ch, pos) = self.good_loc[k];
            assert(self@.good_loc[k as int].0 < 26 && self@.good_loc[k as int].1 < 5);
            if w.orig[pos] != ch {
                return false;
            }
            k = k + 1;
        }
        let nb = self.bad_loc.len();
        let mut k: usize = 0;
        while k < nb
            invariant
                self.wf(),
                w.wf(),
                nb == self.bad_loc@.len(),
                k <= nb,
                forall|j: int|
                    0 <= j < k ==> w@[(#[trigger] self.bad_loc@[j]).1 as int] != self.bad_loc@[j].0,
            decreases nb - k,
        {
            let (ch, pos) = self.bad_loc[k];
            assert(self@.bad_loc[k as int].0 < 26 && self@.bad_loc[k as int].1 < 5);
            if w.orig[pos] == ch {
                return false;
            }
            k = k + 1;
        }
        true
    }
}

/// A guess scored against itself is all green: 5 exact-position pairs, no
/// yellow pair and no absent letter, and the word itself is consistent with
/// that feedback.
pub proof fn lemma_self_feedback(w: Seq<usize>)
    requires
        crate::word::wf_letters(w),
    ensures
        score_of(w, w).good_loc =~= Seq::new(5, |k: int| (w[k], k as usize)),
        score_of(w, w).bad_loc =~= Seq::<(usize, usize)>::empty(),
        score_of(w, w).missing =~= Set::<usize>::empty(),
        matches_spec(score_of(w, w), w),
{
    lemma_self_upto(w, 5);
    lemma_solution_survives(w, w);
}

proof fn lemma_self_upto(w: Seq<usize>, n: nat)
    requires
        crate::word::wf_letters(w),
        n <= 5,
    ensures
        score_upto(w, w, n).good_loc =~= Seq::new(n, |k: int| (w[k], k as usize)),
        score_upto(w, w, n).bad_loc =~= Seq::<(usize, usize)>::empty(),
        score_upto(w, w, n).missing =~= Set::<usize>::empty(),
    decreases n,
{
    if n > 0 {
        lemma_self_upto(w, (n - 1) as nat);
        assert(w.contains(w[n - 1]));
    }
}

/// A feedback is all green — 5 exact-position pairs — exactly when the guess
/// is the solution itself.
pub proof fn lemma_all_green_iff_equal(solution: Seq<usize>, guess: Seq<usize>)
    requires
        crate::word::wf_letters(solution),
        crate::word::wf_letters(guess),
    ensures
        score_of(solution, guess).good_loc.len() == 5 <==> guess == solution,
{
    lemma_green_counts(solution, guess, 5);
    if score_of(solution, guess).good_loc.len() == 5 {
        assert(guess =~= solution);
    }
}

proof fn lemma_green_counts(solution: Seq<usize>, guess: Seq<usize>, n: nat)
    requires
        crate::word::wf_letters(solution),
        crate::word::wf_letters(guess),
        n <= 5,
    ensures
        score_upto(solution, guess, n).good_loc.len() <= n,
        score_upto(solution, guess, n).good_loc.len() == n <==> (forall|i: int|
            0 <= i < n ==> solution[i] == #[trigger] guess[i]),
    decreases n,
{
    if n > 0 {
        lemma_green_counts(solution, guess, (n - 1) as nat);
        assert(solution.contains(solution[n - 1]));
    }
}

/// For feedback computed against a hypothetical solution, the present and
/// absent letter sets are disjoint: each guess position is classified into
/// exactly one category per evaluation.
pub proof fn lemma_present_absent_disjoint(solution: Seq<usize>, guess: Seq<usize>)
    requires
        crate::word::wf_letters(solution),
        crate::word::wf_letters(guess),
    ensures
        score_of(solution, guess).present.disjoint(score_of(solution, guess).missing),
{
    lemma_categories_upto(solution, guess, 5);
    let s = score_of(solution, guess);
    assert forall|l: usize| s.present.contains(l) implies !s.missing.contains(l) by {
        assert(solution.contains(l));
    }
}

proof fn lemma_categories_upto(solution: Seq<usize>, guess: Seq<usize>, n: nat)
    requires
        crate::word::wf_letters(solution),
        crate::word::wf_letters(guess),
        n <= 5,
    ensures
        forall|l: usize|
            score_upto(solution, guess, n).present.contains(l) ==> solution.contains(l),
        forall|l: usize|
            score_upto(solution, guess, n).missing.contains(l) ==> !solution.contains(l),
    decreases n,
{
    if n > 0 {
        lemma_categories_upto(solution, guess, (n - 1) as nat);
    }
}

/// A guessed candidate that is not the true solution is inconsistent with
/// the feedback its own guess produces, so filtering removes the guessed
/// word itself: repeated guessing from the pool makes progress.
pub proof fn lemma_wrong_guess_eliminated(solution: Seq<usize>, guess: Seq<usize>)
    requires
        crate::word::wf_letters(solution),
        crate::word::wf_letters(guess),
        guess != solution,
    ensures
        !matches_spec(score_of(solution, guess), guess),
{
    lemma_score_records(solution, guess, 5);
    assert(exists|i: int| 0 <= i < 5 && solution[i] != guess[i]) by {
        if forall|i: int| 0 <= i < 5 ==> solution[i] == #[trigger] guess[i] {
            assert(guess =~= solution);
        }
    }
    let i = choose|i: int| 0 <= i < 5 && solution[i] != guess[i];
    let s = score_of(solution, guess);
    if solution.contains(guess[i]) {
        let p = (guess[i], i as usize);
        assert(s.bad_loc.contains(p));
        let k = choose|k: int| 0 <= k < s.bad_loc.len() && s.bad_loc[k] == p;
        assert(guess[s.bad_loc[k].1 as int] == s.bad_loc[k].0);
    } else {
        assert(s.missing.contains(guess[i]));
        assert(guess.to_set().contains(guess[i]));
    }
}

proof fn lemma_score_records(solution: Seq<usize>, guess: Seq<usize>, n: nat)
    requires
        crate::word::wf_letters(solution),
        crate::word::wf_letters(guess),
        n <= 5,
    ensures
        forall|i: int|
            0 <= i < n && solution.contains(#[trigger] guess[i]) && solution[i] != guess[i]
                ==> score_upto(solution, guess, n).bad_loc.contains((guess[i], i as usize)),
        forall|i: int|
            0 <= i < n && !solution.contains(#[trigger] guess[i]) ==> score_upto(
                solution,
                guess,
                n,
            ).missing.contains(guess[i]),
    decreases n,
{
    broadcast use vstd::seq_lib::lemma_seq_contains_after_push;

    if n > 0 {
        lemma_score_records(solution, guess, (n - 1) as nat);
    }
}

/// The true solution is always consistent with the feedback any guess
/// produces against it: filtering by that feedback never removes it.
pub proof fn lemma_solution_survives(solution: Seq<usize>, guess: Seq<usize>)
    requires
        crate::word::wf_letters(solution),
        crate::word::wf_letters(guess),
    ensures
        matches_spec(score_of(solution, guess), solution),
{
    lemma_solution_survives_upto(solution, guess, 5);
}

proof fn lemma_solution_survives_upto(solution: Seq<usize>, guess: Seq<usize>, n: nat)
    requires
        crate::word::wf_letters(solution),
        crate::word::wf_letters(guess),
        n <= 5,
    ensures
        matches_spec(score_upto(solution, guess, n), solution),
    decreases n,
{
    if n > 0 {
        lemma_solution_survives_upto(solution, guess, (n - 1) as nat);
    }
}

} // verus!
