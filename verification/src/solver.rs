//! The guess selector and the round logic around it: filtering a candidate
//! pool by observed feedback and the minimax search over a guess pool that
//! minimizes the worst-case number of surviving candidates.

use vstd::prelude::*;

use crate::errors::SolverError;
use crate::score::Score;
use crate::score::ScoreV;
use crate::score::is_feedback_str;
use crate::score::lemma_solution_survives;
use crate::score::matches_spec;
use crate::score::parse_score;
use crate::score::score_of;
use crate::word::Word;
use crate::word::is_valid_word;
use crate::word::is_word_str;
use crate::word::word_indices;

verus! {

/// The mathematical value of a pool: each word as its sequence of letters.
pub open spec fn pool_view(pool: Seq<Word>) -> Seq<Seq<usize>> {
    Seq::new(pool.len(), |i: int| pool[i]@)
}

/// The words of a pool that are consistent with a feedback, in pool order.
pub open spec fn filtered(s: ScoreV, pool: Seq<Seq<usize>>) -> Seq<Seq<usize>>
    decreases pool.len(),
{
    if pool.len() == 0 {
        Seq::empty()
    } else {
        let rest = filtered(s, pool.drop_last());
        if matches_spec(s, pool.last()) {
            rest.push(pool.last())
        } else {
            rest
        }
    }
}

/// Filtering never grows a pool, and a word survives exactly when it is in
/// the pool and consistent with the feedback: every removed word fails at
/// least one of the four matching conditions.
pub proof fn lemma_filter_monotone(s: ScoreV, pool: Seq<Seq<usize>>)
    ensures
        filtered(s, pool).len() <= pool.len(),
        forall|v: Seq<usize>|
            #[trigger] filtered(s, pool).contains(v) <==> pool.contains(v) && matches_spec(s, v),
    decreases pool.len(),
{
    broadcast use vstd::seq_lib::lemma_seq_contains_after_push;

    if pool.len() > 0 {
        lemma_filter_monotone(s, pool.drop_last());
        assert(pool =~= pool.drop_last().push(pool.last()));
    }
}

/// Filtering by a feedback that some pool word fails strictly shrinks the
/// pool.
pub proof fn lemma_filter_strict(s: ScoreV, pool: Seq<Seq<usize>>, v: Seq<usize>)
    requires
        pool.contains(v),
        !matches_spec(s, v),
    ensures
        filtered(s, pool).len() < pool.len(),
    decreases pool.len(),
{
    broadcast use vstd::seq_lib::lemma_seq_contains_after_push;

    lemma_filter_monotone(s, pool.drop_last());
    assert(pool =~= pool.drop_last().push(pool.last()));
    if pool.last() != v {
        lemma_filter_strict(s, pool.drop_last(), v);
    }
}

/// One simulated round over a pool that still holds the guessed word and the
/// true solution, the two distinct, makes strict progress: the true solution
/// survives, the wrong guess is removed, and the pool shrinks. Iterating
/// rounds with guesses drawn from the pool therefore drives the pool down
/// toward the lone true solution.
pub proof fn lemma_round_progress(solution: Seq<usize>, guess: Seq<usize>, pool: Seq<Seq<usize>>)
    requires
        crate::word::wf_letters(solution),
        crate::word::wf_letters(guess),
        guess != solution,
        pool.contains(solution),
        pool.contains(guess),
    ensures
        filtered(score_of(solution, guess), pool).contains(solution),
        !filtered(score_of(solution, guess), pool).contains(guess),
        filtered(score_of(solution, guess), pool).len() < pool.len(),
{
    lemma_solution_survives(solution, guess);
    crate::score::lemma_wrong_guess_eliminated(solution, guess);
    lemma_filter_monotone(score_of(solution, guess), pool);
    lemma_filter_strict(score_of(solution, guess), pool, guess);
}

/// The worst-case remaining-ambiguity of a guess over the first `n`
/// hypothetical solutions: the maximum count of pool words consistent with
/// the feedback the guess would produce against one of them.
pub open spec fn worst_upto(guess: Seq<usize>, solutions: Seq<Seq<usize>>, n: nat) -> nat
    decreases n,
{
    if n == 0 {
        0
    } else {
        let prev = worst_upto(guess, solutions, (n - 1) as nat);
        let c = filtered(score_of(solutions[n - 1], guess), solutions).len();
        if c > prev {
            c
        } else {
            prev
        }
    }
}

/// The worst-case remaining-ambiguity of a guess: the maximum, over all
/// hypothetical true solutions in the pool, of the surviving candidate count.
pub open spec fn worst_case(guess: Seq<usize>, solutions: Seq<Seq<usize>>) -> nat {
    worst_upto(guess, solutions, solutions.len())
}

/// The index of the first guess among the first `n` whose worst-case
/// remaining-ambiguity is minimal: a later guess replaces the running best
/// only when strictly better, so ties break to pool order.
pub open spec fn best_upto(solutions: Seq<Seq<usize>>, guesses: Seq<Seq<usize>>, n: nat) -> int
    decreases n,
{
    if n <= 1 {
        0
    } else {
        let p = best_upto(solutions, guesses, (n - 1) as nat);
        if worst_case(guesses[n - 1], solutions) < worst_case(guesses[p], solutions) {
            n - 1
        } else {
            p
        }
    }
}

/// The index of the guess the selector returns: the first guess of the pool
/// with minimal worst-case remaining-ambiguity.
pub open spec fn best_index(solutions: Seq<Seq<usize>>, guesses: Seq<Seq<usize>>) -> int {
    best_upto(solutions, guesses, guesses.len())
}

/// The selected guess is minimal: its worst-case remaining-ambiguity is no
/// greater than that of every other guess in the pool, and every earlier
/// guess is strictly worse.
pub proof fn lemma_selector_minimal(solutions: Seq<Seq<usize>>, guesses: Seq<Seq<usize>>)
    requires
        guesses.len() > 0,
    ensures
        0 <= best_index(solutions, guesses) < guesses.len(),
        forall|i: int|
            0 <= i < guesses.len() ==> worst_case(
                guesses[best_index(solutions, guesses)],
                solutions,
            ) <= worst_case(#[trigger] guesses[i], solutions),
        forall|i: int|
            0 <= i < best_index(solutions, guesses) ==> worst_case(
                #[trigger] guesses[i],
                solutions,
            ) > worst_case(guesses[best_index(solutions, guesses)], solutions),
{
    lemma_selector_minimal_upto(solutions, guesses, guesses.len());
}

proof fn lemma_selector_minimal_upto(solutions: Seq<Seq<usize>>, guesses: Seq<Seq<usize>>, n: nat)
    requires
        1 <= n <= guesses.len(),
    ensures
        0 <= best_upto(solutions, guesses, n) < n,
        forall|i: int|
            0 <= i < n ==> worst_case(guesses[best_upto(solutions, guesses, n)], solutions)
                <= worst_case(#[trigger] guesses[i], solutions),
        forall|i: int|
            0 <= i < best_upto(solutions, guesses, n) ==> worst_case(
                #[trigger] guesses[i],
                solutions,
            ) > worst_case(guesses[best_upto(solutions, guesses, n)], solutions),
    decreases n,
{
    if n > 1 {
        lemma_selector_minimal_upto(solutions, guesses, (n - 1) as nat);
    }
}

/// Produces the new pool of candidates consistent with a feedback. The pool
/// it returns replaces the old one; the old pool is not mutated.
pub fn filter_pool(score: &Score, pool: &Vec<Word>) -> (r: Vec<Word>)
    requires
        score.wf(),
        forall|i: int| 0 <= i < pool@.len() ==> (#[trigger] pool@[i]).wf(),
    ensures
        pool_view(r@) == filtered(score@, pool_view(pool@)),
        forall|i: int| 0 <= i < r@.len() ==> (#[trigger] r@[i]).wf(),
{
    let mut r: Vec<Word> = Vec::new();
    let n = pool.len();
    let mut i: usize = 0;
    while i < n
        invariant
            score.wf(),
            forall|j: int| 0 <= j < pool@.len() ==> (#[trigger] pool@[j]).wf(),
            n == pool@.len(),
            i <= n,
            pool_view(r@) == filtered(score@, pool_view(pool@).take(i as int)),
            forall|j: int| 0 <= j < r@.len() ==> (#[trigger] r@[j]).wf(),
        decreases n - i,
    {
        let ghost prefix = pool_view(pool@).take(i as int);
        proof {
            assert(pool_view(pool@).take(i + 1).drop_last() =~= prefix);
            assert(pool_view(pool@).take(i + 1).last() == pool@[i as int]@);
        }
        let w = &pool[i];
        if score.matches(w) {
            r.push(w.clone());
        }
        proof {
            assert(pool_view(r@) =~= filtered(score@, pool_view(pool@).take(i + 1)));
        }
        i = i + 1;
    }
    proof {
        assert(pool_view(pool@).take(n as int) =~= pool_view(pool@));
    }
    r
}

/// Counts the pool words consistent with a feedback.
fn count_matches(score: &Score, pool: &Vec<Word>) -> (r: usize)
    requires
        score.wf(),
        forall|i: int| 0 <= i < pool@.len() ==> (#[trigger] pool@[i]).wf(),
    ensures
        r == filtered(score@, pool_view(pool@)).len(),
{
    let mut count: usize = 0;
    let n = pool.len();
    let mut i: usize = 0;
    while i < n
        invariant
            score.wf(),
            forall|j: int| 0 <= j < pool@.len() ==> (#[trigger] pool@[j]).wf(),
            n == pool@.len(),
            i <= n,
            count <= i,
            count == filtered(score@, pool_view(pool@).take(i as int)).len(),
        decreases n - i,
    {
        let ghost prefix = pool_view(pool@).take(i as int);
        proof {
            assert(pool_view(pool@).take(i + 1).drop_last() =~= prefix);
            assert(pool_view(pool@).take(i + 1).last() == pool@[i as int]@);
        }
        if score.matches(&pool[i]) {
            count = count + 1;
        }
        i = i + 1;
    }
    proof {
        assert(pool_view(pool@).take(n as int) =~= pool_view(pool@));
    }
    count
}

/// Computes the worst-case remaining-ambiguity of one candidate guess over a
/// non-empty solution pool.
pub fn worst_case_count(guess: &Word, solutions: &Vec<Word>) -> (r: usize)
    requires
        guess.wf(),
        forall|i: int| 0 <= i < solutions@.len() ==> (#[trigger] solutions@[i]).wf(),
    ensures
        r == worst_case(guess@, pool_view(solutions@)),
{
    let mut worst: usize = 0;
    let n = solutions.len();
    let mut j: usize = 0;
    while j < n
        invariant
            guess.wf(),
            forall|k: int| 0 <= k < solutions@.len() ==> (#[trigger] solutions@[k]).wf(),
            n == solutions@.len(),
            j <= n,
            worst == worst_upto(guess@, pool_view(solutions@), j as nat),
        decreases n - j,
    {
        let score = Score::new(&solutions[j], guess);
        let c = count_matches(&score, solutions);
        proof {
            lemma_filter_monotone(score@, pool_view(solutions@));
        }
        if c > worst {
            worst = c;
        }
        j = j + 1;
    }
    worst
}

/// Returns the guess from `guesses` that minimizes the maximum number of
/// `solutions` words remaining consistent after its feedback against the
/// worst-case true solution; ties break to the first such guess in pool
/// order. Fails with `EmptyPool` exactly when either pool is empty.
pub fn best_guess(solutions: &Vec<Word>, guesses: &Vec<Word>) -> (r: Result<Word, SolverError>)
    requires
        forall|i: int| 0 <= i < solutions@.len() ==> (#[trigger] solutions@[i]).wf(),
        forall|i: int| 0 <= i < guesses@.len() ==> (#[trigger] guesses@[i]).wf(),
    ensures
        r is Err <==> (solutions@.len() == 0 || guesses@.len() == 0),
        r is Err ==> r == Err::<Word, SolverError>(SolverError::EmptyPool),
        r matches Ok(g) ==> g.wf() && g@ == pool_view(guesses@)[best_index(
            pool_view(solutions@),
            pool_view(guesses@),
        )],
{
    if solutions.len() == 0 || guesses.len() == 0 {
        return Err(SolverError::EmptyPool);
    }
    let n = guesses.len();
    let mut best_i: usize = 0;
    let mut best_w = worst_case_count(&guesses[0], solutions);
    let mut i: usize = 1;
    while i < n
        invariant
            forall|k: int| 0 <= k < solutions@.len() ==> (#[trigger] solutions@[k]).wf(),
            forall|k: int| 0 <= k < guesses@.len() ==> (#[trigger] guesses@[k]).wf(),
            n == guesses@.len(),
            1 <= i <= n,
            best_i < i,
            best_i as int == best_upto(pool_view(solutions@), pool_view(guesses@), i as nat),
            best_w == worst_case(pool_view(guesses@)[best_i as int], pool_view(solutions@)),
        decreases n - i,
    {
        let w = worst_case_count(&guesses[i], solutions);
        if w < best_w {
            best_i = i;
            best_w = w;
        }
        i = i + 1;
    }
    let g = guesses[best_i].clone();
    Ok(g)
}

/// One round of the assistant: encode the player's feedback for the guess
/// just shown, narrow the candidate pool, and either report the lone
/// remaining solution or propose the next guess. Once the pool is small the
/// guess search is restricted to the remaining candidates themselves.
pub enum RoundOutcome {
    /// Exactly one candidate remains: the solution itself.
    Solved(Word),
    /// The narrowed candidate pool, and the next guess to propose.
    Continue(Vec<Word>, Word),
}

/// The candidates that survive a round's observed feedback.
pub open spec fn round_filtered(
    feedback: Seq<char>,
    guess: Seq<usize>,
    solutions: Seq<Seq<usize>>,
) -> Seq<Seq<usize>> {
    filtered(parse_score(feedback, guess), solutions)
}

/// The pool the selector searches after a round: the full guess vocabulary
/// while more than 3 candidates remain, then the candidates themselves.
pub open spec fn round_guess_pool(
    remaining: Seq<Seq<usize>>,
    guesses: Seq<Seq<usize>>,
) -> Seq<Seq<usize>> {
    if remaining.len() > 3 {
        guesses
    } else {
        remaining
    }
}

/// Runs one round of the interactive assistant. Malformed feedback fails the
/// round without touching the pool; a pool filtered down to nothing is the
/// fatal `EmptyPool` condition; a pool of one is the solved terminal state.
pub fn cheat_round(
    feedback: &str,
    last_guess: &Word,
    solutions: &Vec<Word>,
    guesses: &Vec<Word>,
) -> (r: Result<RoundOutcome, SolverError>)
    requires
        last_guess.wf(),
        forall|i: int| 0 <= i < solutions@.len() ==> (#[trigger] solutions@[i]).wf(),
        forall|i: int| 0 <= i < guesses@.len() ==> (#[trigger] guesses@[i]).wf(),
        guesses@.len() > 0,
    ensures
        r == Err::<RoundOutcome, SolverError>(SolverError::MalformedFeedback) <==> !is_feedback_str(
            feedback@,
        ),
        is_feedback_str(feedback@) ==> (r == Err::<RoundOutcome, SolverError>(
            SolverError::EmptyPool,
        ) <==> round_filtered(feedback@, last_guess@, pool_view(solutions@)).len() == 0),
        (is_feedback_str(feedback@) && round_filtered(
            feedback@,
            last_guess@,
            pool_view(solutions@),
        ).len() == 1) ==> (r matches Ok(RoundOutcome::Solved(w)) && w.wf() && w@ == round_filtered(
            feedback@,
            last_guess@,
            pool_view(solutions@),
        )[0]),
        (is_feedback_str(feedback@) && round_filtered(
            feedback@,
            last_guess@,
            pool_view(solutions@),
        ).len() > 1) ==> (r matches Ok(RoundOutcome::Continue(pool, g)) && {
            let fv = round_filtered(feedback@, last_guess@, pool_view(solutions@));
            let gv = round_guess_pool(fv, pool_view(guesses@));
            &&& pool_view(pool@) == fv
            &&& forall|i: int| 0 <= i < pool@.len() ==> (#[trigger] pool@[i]).wf()
            &&& g.wf()
            &&& g@ == gv[best_index(fv, gv)]
        }),
{
    let score = match Score::from_str(feedback, last_guess) {
        Ok(sc) => sc,
        Err(e) => {
            return Err(e);
        },
    };
    let remaining = filter_pool(&score, solutions);
    if remaining.len() == 0 {
        return Err(SolverError::EmptyPool);
    }
    if remaining.len() == 1 {
        let w = remaining[0].clone();
        return Ok(RoundOutcome::Solved(w));
    }
    let pool: &Vec<Word> = if remaining.len() > 3 {
        guesses
    } else {
        &remaining
    };
    match best_guess(&remaining, pool) {
        Ok(g) => Ok(RoundOutcome::Continue(remaining, g)),
        Err(_) => {
            proof {
                assert(false);
            }
            Err(SolverError::EmptyPool)
        },
    }
}

/// Simulates a game against a known target for at most `max_rounds` rounds:
/// score the current guess against the target, stop when it is all green,
/// otherwise narrow the pool and select the next guess — from the full
/// vocabulary while more than 5 candidates remain, then from the candidates
/// themselves. Returns how many guesses were used, or `None` when the game
/// did not converge within the bound.
pub fn sim_game(
    target: &Word,
    solutions: Vec<Word>,
    guesses: &Vec<Word>,
    first_guess: &Word,
    max_rounds: u32,
) -> (r: Option<u32>)
    requires
        target.wf(),
        first_guess.wf(),
        forall|i: int| 0 <= i < solutions@.len() ==> (#[trigger] solutions@[i]).wf(),
        forall|i: int| 0 <= i < guesses@.len() ==> (#[trigger] guesses@[i]).wf(),
        guesses@.len() > 0,
        exists|i: int| 0 <= i < solutions@.len() && (#[trigger] solutions@[i])@ == target@,
    ensures
        r matches Some(n) ==> 1 <= n,
        r == Some::<u32>(1) <==> first_guess@ == target@,
{
    let mut solutions = solutions;
    let mut guess = first_guess.clone();
    let mut count: u32 = 1;
    let mut rounds_left = max_rounds;
    loop
        invariant
            target.wf(),
            guess.wf(),
            first_guess.wf(),
            forall|i: int| 0 <= i < solutions@.len() ==> (#[trigger] solutions@[i]).wf(),
            forall|i: int| 0 <= i < guesses@.len() ==> (#[trigger] guesses@[i]).wf(),
            guesses@.len() > 0,
            exists|i: int| 0 <= i < solutions@.len() && (#[trigger] solutions@[i])@ == target@,
            count >= 1,
            count == 1 ==> guess@ == first_guess@,
            first_guess@ == target@ ==> guess@ == target@ && count == 1,
        decreases rounds_left,
    {
        let score = Score::new(target, &guess);
        proof {
            crate::score::lemma_all_green_iff_equal(target@, guess@);
        }
        if score.good_loc.len() == 5 {
            return Some(count);
        }
        if rounds_left == 0 {
            return None;
        }
        rounds_left = rounds_left - 1;
        let ghost old_pool = solutions@;
        solutions = filter_pool(&score, &solutions);
        proof {
            lemma_solution_survives(target@, guess@);
            lemma_filter_monotone(score@, pool_view(old_pool));
            let i = choose|i: int| 0 <= i < old_pool.len() && (#[trigger] old_pool[i])@ == target@;
            assert(pool_view(old_pool)[i] == target@);
            assert(pool_view(old_pool).contains(target@));
            assert(filtered(score@, pool_view(old_pool)).contains(target@));
            let k = choose|k: int|
                0 <= k < pool_view(solutions@).len() && pool_view(solutions@)[k] == target@;
            assert((solutions@[k])@ == target@);
        }
        if count < u32::MAX {
            count = count + 1;
        }
        let pool: &Vec<Word> = if solutions.len() > 5 {
            guesses
        } else {
            &solutions
        };
        match best_guess(&solutions, pool) {
            Ok(g) => {
                guess = g;
            },
            Err(_) => {
                proof {
                    assert(false);
                }
            },
        }
    }
}

/// Builds the word pool from already-split vocabulary lines, rejecting any
/// line that is not a 5-letter lowercase word before it can reach the word
/// constructor.
pub fn words(lines: &Vec<String>) -> (r: Result<Vec<Word>, SolverError>)
    ensures
        r is Ok <==> (forall|i: int| 0 <= i < lines@.len() ==> is_word_str(#[trigger] lines@[i]@)),
        r matches Ok(ws) ==> ws@.len() == lines@.len() && (forall|i: int|
            0 <= i < ws@.len() ==> (#[trigger] ws@[i])@ == word_indices(lines@[i]@)
                && ws@[i].wf()),
        r is Err ==> r == Err::<Vec<Word>, SolverError>(SolverError::VocabularyFormat),
{
    let mut ws: Vec<Word> = Vec::new();
    let n = lines.len();
    let mut i: usize = 0;
    while i < n
        invariant
            n == lines@.len(),
            i <= n,
            ws@.len() == i,
            forall|j: int| 0 <= j < i ==> is_word_str(#[trigger] lines@[j]@),
            forall|j: int|
                0 <= j < i ==> (#[trigger] ws@[j])@ == word_indices(lines@[j]@) && ws@[j].wf(),
        decreases n - i,
    {
        let line = &lines[i];
        if !is_valid_word(line.as_str()) {
            return Err(SolverError::VocabularyFormat);
        }
        ws.push(Word::new(line.as_str()));
        i = i + 1;
    }
    Ok(ws)
}

} // verus!
