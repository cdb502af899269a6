//! Scoring of a guess against the secret word.
//!
//! A position whose letter equals the secret's letter there is `CORRECT`.
//! Every other guessed letter may claim one secret position that holds the
//! same letter and was not matched exactly; claims are handed out from left
//! to right, so a letter never earns more hints than the secret holds of it.

use vstd::prelude::*;

use crate::words::chars_of;

verus! {

/// What one position of a guess tells about the secret word.
#[derive(Clone, Copy, PartialEq, Eq, Debug, Structural)]
pub enum LetterFeedback {
    /// The letter stands at this position of the secret.
    CORRECT,
    /// The letter occurs elsewhere in the secret, at a position not yet
    /// accounted for.
    PRESENT,
    /// The secret holds no further occurrence of the letter.
    ABSENT,
}

/// Number of indices `i` in `0..k` for which `p(i)` holds.
pub open spec fn count_upto(k: int, p: spec_fn(int) -> bool) -> nat
    decreases k,
{
    if k <= 0 {
        0
    } else {
        count_upto(k - 1, p) + if p(k - 1) {
            1nat
        } else {
            0nat
        }
    }
}

/// Holds at the positions where the guess has `c` and does not match the
/// secret exactly.
pub open spec fn misplaced_at(guess: Seq<char>, secret: Seq<char>, c: char) -> spec_fn(int) -> bool {
    |k: int| guess[k] == c && guess[k] != secret[k]
}

/// Holds at the positions where the secret has `c` and the guess does not
/// match it exactly.
pub open spec fn unmatched_at(guess: Seq<char>, secret: Seq<char>, c: char) -> spec_fn(int) -> bool {
    |k: int| secret[k] == c && guess[k] != secret[k]
}

/// Guessed occurrences of `c` among the first `i` positions that are not
/// exact matches.
pub open spec fn misplaced_before(guess: Seq<char>, secret: Seq<char>, c: char, i: int) -> nat {
    count_upto(i, misplaced_at(guess, secret, c))
}

/// Occurrences of `c` in the secret at positions the guess does not match
/// exactly: the ones a misplaced guessed `c` may claim.
pub open spec fn unmatched_in_secret(guess: Seq<char>, secret: Seq<char>, c: char) -> nat {
    count_upto(secret.len() as int, unmatched_at(guess, secret, c))
}

/// The feedback at position `i` of `guess` against `secret`.
pub open spec fn feedback_at(guess: Seq<char>, secret: Seq<char>, i: int) -> LetterFeedback {
    if guess[i] == secret[i] {
        LetterFeedback::CORRECT
    } else if misplaced_before(guess, secret, guess[i], i) < unmatched_in_secret(
        guess,
        secret,
        guess[i],
    ) {
        LetterFeedback::PRESENT
    } else {
        LetterFeedback::ABSENT
    }
}

/// The feedback for every position of `guess` against `secret`.
pub open spec fn feedback_of(guess: Seq<char>, secret: Seq<char>) -> Seq<LetterFeedback> {
    Seq::new(guess.len(), |i: int| feedback_at(guess, secret, i))
}

/// Counting depends only on the predicate's values below the bound.
proof fn lemma_count_ext(k: int, p: spec_fn(int) -> bool, q: spec_fn(int) -> bool)
    requires
        forall|i: int| #![trigger p(i)] #![trigger q(i)] 0 <= i < k ==> p(i) == q(i),
    ensures
        count_upto(k, p) == count_upto(k, q),
    decreases k,
{
    if k > 0 {
        lemma_count_ext(k - 1, p, q);
    }
}

/// Counting a disjoint union adds the counts.
proof fn lemma_count_split(
    k: int,
    p: spec_fn(int) -> bool,
    q: spec_fn(int) -> bool,
    r: spec_fn(int) -> bool,
)
    requires
        forall|i: int| #![trigger p(i)] 0 <= i < k ==> p(i) == (q(i) || r(i)),
        forall|i: int| #![trigger q(i)] #![trigger r(i)] 0 <= i < k ==> !(q(i) && r(i)),
    ensures
        count_upto(k, p) == count_upto(k, q) + count_upto(k, r),
    decreases k,
{
    if k > 0 {
        lemma_count_split(k - 1, p, q, r);
    }
}

/// A positive count has a witness below the bound.
proof fn lemma_count_witness(k: int, p: spec_fn(int) -> bool)
    ensures
        count_upto(k, p) > 0 <==> exists|i: int| 0 <= i < k && #[trigger] p(i),
    decreases k,
{
    if k > 0 {
        lemma_count_witness(k - 1, p);
        if p(k - 1) {
            assert(0 <= k - 1 < k && p(k - 1));
        } else {
            if exists|i: int| 0 <= i < k && #[trigger] p(i) {
                let i = choose|i: int| 0 <= i < k && #[trigger] p(i);
                assert(0 <= i < k - 1 && p(i));
            }
        }
    }
}

/// Turning one index from false to true adds one to the count.
proof fn lemma_count_bump(k: int, p: spec_fn(int) -> bool, q: spec_fn(int) -> bool, j: int)
    requires
        0 <= j < k,
        !p(j),
        q(j),
        forall|i: int| #![trigger p(i)] #![trigger q(i)] 0 <= i < k && i != j ==> p(i) == q(i),
    ensures
        count_upto(k, q) == count_upto(k, p) + 1,
    decreases k,
{
    if k - 1 == j {
        lemma_count_ext(k - 1, p, q);
    } else {
        lemma_count_bump(k - 1, p, q, j);
    }
}


/// Holds at the positions where the guess matches the secret exactly.
pub open spec fn exact_at(guess: Seq<char>, secret: Seq<char>) -> spec_fn(int) -> bool {
    |i: int| guess[i] == secret[i]
}

/// Holds at the positions whose feedback is `CORRECT`.
pub open spec fn scored_correct_at(feedback: Seq<LetterFeedback>) -> spec_fn(int) -> bool {
    |i: int| feedback[i] == LetterFeedback::CORRECT
}

/// Holds at the positions where the guess has `c` and is scored `CORRECT` or
/// `PRESENT`.
pub open spec fn credited_at(guess: Seq<char>, secret: Seq<char>, c: char) -> spec_fn(
    int,
) -> bool {
    |i: int| guess[i] == c && feedback_of(guess, secret)[i] != LetterFeedback::ABSENT
}

/// Holds at the positions where `word` has `c`.
pub open spec fn occurs_at(word: Seq<char>, c: char) -> spec_fn(int) -> bool {
    |i: int| word[i] == c
}

/// For a guess and a secret of equal length, the feedback has exactly as
/// many `CORRECT` entries as there are positions where the two agree, and no
/// letter of the guess is credited (`CORRECT` or `PRESENT`) more often than
/// it occurs in the secret.
pub proof fn lemma_feedback_counts(guess: Seq<char>, secret: Seq<char>)
    requires
        guess.len() == secret.len(),
    ensures
        count_upto(guess.len() as int, scored_correct_at(feedback_of(guess, secret)))
            == count_upto(guess.len() as int, exact_at(guess, secret)),
        forall|c: char|
            count_upto(guess.len() as int, #[trigger] credited_at(guess, secret, c)) <= count_upto(
                secret.len() as int,
                occurs_at(secret, c),
            ),
{
    let n = guess.len() as int;
    lemma_count_ext(n, scored_correct_at(feedback_of(guess, secret)), exact_at(guess, secret));
    assert forall|c: char|
        count_upto(n, #[trigger] credited_at(guess, secret, c)) <= count_upto(
            n,
            occurs_at(secret, c),
        ) by {
        let exact_c = |i: int| guess[i] == c && guess[i] == secret[i];
        lemma_present_count(guess, secret, c, n);
        lemma_count_split(n, credited_at(guess, secret, c), exact_c, present_at(guess, secret, c));
        lemma_count_split(n, occurs_at(secret, c), exact_c, unmatched_at(guess, secret, c));
    }
}

/// Holds at the positions where the guess has `c` and is scored `PRESENT`.
spec fn present_at(guess: Seq<char>, secret: Seq<char>, c: char) -> spec_fn(int) -> bool {
    |i: int| guess[i] == c && feedback_of(guess, secret)[i] == LetterFeedback::PRESENT
}

/// Among the first `i` positions, `c` is scored `PRESENT` as often as it is
/// misplaced there, up to its unmatched occurrences in the secret.
proof fn lemma_present_count(guess: Seq<char>, secret: Seq<char>, c: char, i: int)
    requires
        guess.len() == secret.len(),
        0 <= i <= guess.len(),
    ensures
        count_upto(i, present_at(guess, secret, c)) == min_nat(
            misplaced_before(guess, secret, c, i),
            unmatched_in_secret(guess, secret, c),
        ),
    decreases i,
{
    if i > 0 {
        lemma_present_count(guess, secret, c, i - 1);
    }
}

/// Secret positions holding `c` that a misplaced guessed letter has claimed,
/// as recorded in `used`.
spec fn claimed_at(used: Seq<bool>, guess: Seq<char>, secret: Seq<char>, c: char) -> spec_fn(
    int,
) -> bool {
    |k: int| used[k] && secret[k] == c && guess[k] != secret[k]
}

/// Secret positions holding `c` that are still free to be claimed.
spec fn free_at(used: Seq<bool>, guess: Seq<char>, secret: Seq<char>, c: char) -> spec_fn(
    int,
) -> bool {
    |k: int| !used[k] && secret[k] == c && guess[k] != secret[k]
}

spec fn min_nat(a: nat, b: nat) -> nat {
    if a <= b {
        a
    } else {
        b
    }
}

/// Scores `guess` against `secret` with the two-pass rule: exact matches
/// first, then each remaining guessed letter claims the leftmost unclaimed
/// secret position holding the same letter.
pub fn evaluate_guess(secret: &str, guess: &str) -> (r: Vec<LetterFeedback>)
    requires
        guess@.len() == secret@.len(),
    ensures
        r@ == feedback_of(guess@, secret@),
{
    let s = chars_of(secret);
    let g = chars_of(guess);
    let n = g.len();
    let mut used: Vec<bool> = Vec::new();
    let mut fb: Vec<LetterFeedback> = Vec::new();
    let mut i: usize = 0;
    while i < n
        invariant
            n == g@.len(),
            n == s@.len(),
            i <= n,
            used@.len() == i,
            fb@.len() == i,
            forall|j: int| 0 <= j < i ==> used@[j] == (g@[j] == s@[j]),
            forall|j: int|
                0 <= j < i ==> fb@[j] == (if g@[j] == s@[j] {
                    LetterFeedback::CORRECT
                } else {
                    LetterFeedback::ABSENT
                }),
        decreases n - i,
    {
        if g[i] == s[i] {
            used.push(true);
            fb.push(LetterFeedback::CORRECT);
        } else {
            used.push(false);
            fb.push(LetterFeedback::ABSENT);
        }
        i += 1;
    }
    proof {
        assert forall|c: char|
            count_upto(n as int, #[trigger] claimed_at(used@, g@, s@, c)) == 0 by {
            lemma_count_witness(n as int, claimed_at(used@, g@, s@, c));
        }
    }
    i = 0;
    while i < n
        invariant
            n == g@.len(),
            n == s@.len(),
            i <= n,
            used@.len() == n,
            fb@.len() == n,
            forall|j: int| 0 <= j < n && g@[j] == s@[j] ==> used@[j],
            forall|j: int|
                i <= j < n ==> fb@[j] == (if g@[j] == s@[j] {
                    LetterFeedback::CORRECT
                } else {
                    LetterFeedback::ABSENT
                }),
            forall|j: int| 0 <= j < i ==> fb@[j] == feedback_at(g@, s@, j),
            forall|c: char|
                count_upto(n as int, #[trigger] claimed_at(used@, g@, s@, c)) == min_nat(
                    misplaced_before(g@, s@, c, i as int),
                    unmatched_in_secret(g@, s@, c),
                ),
        decreases n - i,
    {
        let ghost used0 = used@;
        if g[i] != s[i] {
            let c = g[i];
            let mut j: usize = 0;
            let mut found = false;
            while j < n
                invariant_except_break
                    n == s@.len(),
                    used@.len() == n,
                    j <= n,
                    !found,
                    forall|k: int| 0 <= k < j ==> !(!used@[k] && s@[k] == c),
                ensures
                    found ==> j < n && !used@[j as int] && s@[j as int] == c,
                    !found ==> forall|k: int| 0 <= k < n ==> !(!used@[k] && s@[k] == c),
                decreases n - j,
            {
                if !used[j] && s[j] == c {
                    found = true;
                    break;
                }
                j += 1;
            }
            proof {
                lemma_count_split(
                    n as int,
                    unmatched_at(g@, s@, c),
                    claimed_at(used0, g@, s@, c),
                    free_at(used0, g@, s@, c),
                );
                lemma_count_witness(n as int, free_at(used0, g@, s@, c));
                if found {
                    assert(free_at(used0, g@, s@, c)(j as int));
                }
            }
            if found {
                used.set(j, true);
                fb.set(i, LetterFeedback::PRESENT);
            }
            proof {
                assert forall|d: char|
                    count_upto(n as int, #[trigger] claimed_at(used@, g@, s@, d)) == min_nat(
                        misplaced_before(g@, s@, d, i + 1),
                        unmatched_in_secret(g@, s@, d),
                    ) by {
                    if found && d == c {
                        lemma_count_bump(
                            n as int,
                            claimed_at(used0, g@, s@, d),
                            claimed_at(used@, g@, s@, d),
                            j as int,
                        );
                    } else {
                        lemma_count_ext(
                            n as int,
                            claimed_at(used0, g@, s@, d),
                            claimed_at(used@, g@, s@, d),
                        );
                    }
                }
            }
        } else {
            proof {
                assert forall|d: char|
                    count_upto(n as int, #[trigger] claimed_at(used@, g@, s@, d)) == min_nat(
                        misplaced_before(g@, s@, d, i + 1),
                        unmatched_in_secret(g@, s@, d),
                    ) by {
                    assert(misplaced_before(g@, s@, d, i + 1) == misplaced_before(
                        g@,
                        s@,
                        d,
                        i as int,
                    ));
                }
            }
        }
        i += 1;
    }
    assert(fb@ =~= feedback_of(g@, s@));
    fb
}

} // verus!
