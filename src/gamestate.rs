//! The game engine: the secret word, the guesses so far, the outcome, and
//! the on-screen keyboard's per-letter hints.

use vstd::prelude::*;

use crate::scoring::{evaluate_guess, feedback_of, LetterFeedback};
use crate::words::{chars_of, is_word};

verus! {

/// Guesses a game allows before it is lost.
pub const MAX_GUESSES: usize = 6;

/// Letters on the keyboard, `'a'` to `'z'`.
pub const ALPHABET_SIZE: usize = 26;

/// Where a game stands.
#[derive(Clone, Copy, PartialEq, Eq, Debug, Structural)]
pub enum GameStatus {
    PLAYING,
    WON,
    LOST,
}

/// What the keyboard shows for a letter: the best feedback any guess has
/// earned it so far.
#[derive(Clone, Copy, PartialEq, Eq, Debug, Structural)]
pub enum KeyBoardHelperState {
    /// Not guessed yet.
    NONE,
    /// Guessed, and the secret holds no further occurrence.
    GRAY,
    /// Guessed, and present in the secret elsewhere.
    AMBER,
    /// Guessed at a position where the secret has it.
    GREEN,
}

/// The order of hints: `NONE < GRAY < AMBER < GREEN`.
pub open spec fn rank(h: KeyBoardHelperState) -> int {
    match h {
        KeyBoardHelperState::NONE => 0,
        KeyBoardHelperState::GRAY => 1,
        KeyBoardHelperState::AMBER => 2,
        KeyBoardHelperState::GREEN => 3,
    }
}

/// The keyboard hint that one position's feedback gives its letter.
pub open spec fn hint_of(f: LetterFeedback) -> KeyBoardHelperState {
    match f {
        LetterFeedback::CORRECT => KeyBoardHelperState::GREEN,
        LetterFeedback::PRESENT => KeyBoardHelperState::AMBER,
        LetterFeedback::ABSENT => KeyBoardHelperState::GRAY,
    }
}

/// The higher ranked of two hints, `a` when they tie.
pub open spec fn stronger(a: KeyBoardHelperState, b: KeyBoardHelperState) -> KeyBoardHelperState {
    if rank(b) > rank(a) {
        b
    } else {
        a
    }
}

/// Keyboard slot of a lowercase letter.
pub open spec fn letter_index(c: char) -> int {
    c as int - 'a' as int
}

/// The strongest hint the first `i` positions of `guess`, scored `feedback`,
/// give the letter in keyboard slot `l`; `NONE` if none of them holds it.
pub open spec fn letter_hint(
    l: int,
    guess: Seq<char>,
    feedback: Seq<LetterFeedback>,
    i: int,
) -> KeyBoardHelperState
    decreases i,
{
    if i <= 0 {
        KeyBoardHelperState::NONE
    } else {
        let prev = letter_hint(l, guess, feedback, i - 1);
        if letter_index(guess[i - 1]) == l {
            stronger(prev, hint_of(feedback[i - 1]))
        } else {
            prev
        }
    }
}

/// The keyboard after a guess: each letter keeps its hint unless the guess
/// earned it a higher ranked one.
pub open spec fn updated_hints(
    hints: Seq<KeyBoardHelperState>,
    guess: Seq<char>,
    feedback: Seq<LetterFeedback>,
) -> Seq<KeyBoardHelperState> {
    Seq::new(
        hints.len(),
        |l: int| stronger(hints[l], letter_hint(l, guess, feedback, guess.len() as int)),
    )
}

/// The abstract state of a game.
pub struct GameModel {
    /// The word to find.
    pub secret: Seq<char>,
    /// The guesses that did not win, in order.
    pub guesses: Seq<Seq<char>>,
    /// The number of guesses that did not win.
    pub attempts: nat,
    pub status: GameStatus,
    /// One hint per letter, `'a'` first.
    pub hints: Seq<KeyBoardHelperState>,
}

impl GameModel {
    /// A fresh game on `secret`: no guesses, every hint `NONE`, playing.
    pub open spec fn initial(secret: Seq<char>) -> GameModel {
        GameModel {
            secret,
            guesses: Seq::empty(),
            attempts: 0,
            status: GameStatus::PLAYING,
            hints: Seq::new(ALPHABET_SIZE as nat, |l: int| KeyBoardHelperState::NONE),
        }
    }

    /// The game after `guess`: the secret wins at once and is not recorded;
    /// any other word is recorded and counted, and the last allowed one loses.
    /// The keyboard takes the guess's feedback either way.
    pub open spec fn after_guess(self, guess: Seq<char>) -> GameModel {
        let hints = updated_hints(self.hints, guess, feedback_of(guess, self.secret));
        if guess == self.secret {
            GameModel { status: GameStatus::WON, hints, ..self }
        } else {
            GameModel {
                guesses: self.guesses.push(guess),
                attempts: self.attempts + 1,
                status: if self.attempts + 1 >= MAX_GUESSES {
                    GameStatus::LOST
                } else {
                    GameStatus::PLAYING
                },
                hints,
                ..self
            }
        }
    }

    /// The game reached from this one by playing `guesses` in order.
    pub open spec fn play(self, guesses: Seq<Seq<char>>) -> GameModel
        decreases guesses.len(),
    {
        if guesses.len() == 0 {
            self
        } else {
            self.play(guesses.drop_last()).after_guess(guesses.last())
        }
    }

    /// The states a game can be in.
    pub open spec fn wf(self) -> bool {
        &&& is_word(self.secret)
        &&& self.attempts == self.guesses.len()
        &&& self.attempts <= MAX_GUESSES
        &&& self.hints.len() == ALPHABET_SIZE
        &&& forall|i: int| 0 <= i < self.guesses.len() ==> is_word(#[trigger] self.guesses[i])
        &&& self.status == GameStatus::PLAYING ==> self.attempts < MAX_GUESSES
        &&& self.status == GameStatus::LOST <==> self.attempts == MAX_GUESSES
    }
}

/// One game: the secret word, the guesses that did not win, the outcome so
/// far, and the keyboard hints.
pub struct GameData {
    winning_word: String,
    guess_count: usize,
    words_guessed: Vec<String>,
    game_state: GameStatus,
    keyboard_helper: [KeyBoardHelperState; 26],
}

impl View for GameData {
    type V = GameModel;

    closed spec fn view(&self) -> GameModel {
        GameModel {
            secret: self.winning_word@,
            guesses: self.words_guessed@.map_values(|w: String| w@),
            attempts: self.guess_count as nat,
            status: self.game_state,
            hints: self.keyboard_helper@,
        }
    }
}

/// The higher ranked of two hints.
fn upgrade(current: KeyBoardHelperState, new: KeyBoardHelperState) -> (r: KeyBoardHelperState)
    ensures
        r == stronger(current, new),
{
    if rank_of(new) > rank_of(current) {
        new
    } else {
        current
    }
}

fn rank_of(h: KeyBoardHelperState) -> (r: u8)
    ensures
        r == rank(h),
{
    match h {
        KeyBoardHelperState::NONE => 0,
        KeyBoardHelperState::GRAY => 1,
        KeyBoardHelperState::AMBER => 2,
        KeyBoardHelperState::GREEN => 3,
    }
}

fn hint_for(f: LetterFeedback) -> (r: KeyBoardHelperState)
    ensures
        r == hint_of(f),
{
    match f {
        LetterFeedback::CORRECT => KeyBoardHelperState::GREEN,
        LetterFeedback::PRESENT => KeyBoardHelperState::AMBER,
        LetterFeedback::ABSENT => KeyBoardHelperState::GRAY,
    }
}

/// Whether two character sequences are equal.
fn same_word(a: &Vec<char>, b: &Vec<char>) -> (r: bool)
    ensures
        r == (a@ == b@),
{
    if a.len() != b.len() {
        return false;
    }
    let mut i: usize = 0;
    while i < a.len()
        invariant
            a@.len() == b@.len(),
            i <= a@.len(),
            forall|k: int| 0 <= k < i ==> a@[k] == b@[k],
        decreases a@.len() - i,
    {
        if a[i] != b[i] {
            return false;
        }
        i += 1;
    }
    assert(a@ =~= b@);
    true
}

impl GameData {
    /// The invariant every game keeps.
    pub closed spec fn wf(&self) -> bool {
        self@.wf()
    }

    /// Starts a game on `secret`.
    pub fn new(secret: &str) -> (r: GameData)
        requires
            is_word(secret@),
        ensures
            r.wf(),
            r@ == GameModel::initial(secret@),
    {
        let r = GameData {
            winning_word: secret.to_owned(),
            guess_count: 0,
            words_guessed: Vec::new(),
            game_state: GameStatus::PLAYING,
            keyboard_helper: [KeyBoardHelperState::NONE; 26],
        };
        assert(r@.guesses =~= Seq::<Seq<char>>::empty());
        assert(r@.hints =~= GameModel::initial(secret@).hints);
        r
    }

    /// Plays `guess` and returns the new status. The secret wins; any other
    /// word is recorded and counted, and the sixth such guess loses. The
    /// keyboard hints take the guess's feedback, never moving down.
    pub fn new_guess(&mut self, guess: &str) -> (r: GameStatus)
        requires
            old(self).wf(),
            old(self)@.status == GameStatus::PLAYING,
            is_word(guess@),
        ensures
            final(self).wf(),
            final(self)@ == old(self)@.after_guess(guess@),
            r == final(self)@.status,
    {
        let feedback = evaluate_guess(self.winning_word.as_str(), guess);
        let g = chars_of(guess);
        let secret = chars_of(self.winning_word.as_str());
        if same_word(&g, &secret) {
            self.game_state = GameStatus::WON;
        } else {
            self.words_guessed.push(guess.to_owned());
            self.guess_count += 1;
            if self.guess_count >= MAX_GUESSES {
                self.game_state = GameStatus::LOST;
            }
        }
        self.update_keyboard_helper(&g, &feedback);
        proof {
            let m = old(self)@.after_guess(guess@);
            if guess@ != old(self)@.secret {
                assert(self@.guesses =~= m.guesses);
            }
            assert(self@.hints =~= m.hints);
        }
        self.game_state
    }

    /// Raises each guessed letter's hint to what its positions' feedback
    /// earned, keeping any higher hint it already had.
    fn update_keyboard_helper(&mut self, guess: &Vec<char>, feedback: &Vec<LetterFeedback>)
        requires
            is_word(guess@),
            feedback@.len() == guess@.len(),
        ensures
            final(self).winning_word == old(self).winning_word,
            final(self).guess_count == old(self).guess_count,
            final(self).words_guessed == old(self).words_guessed,
            final(self).game_state == old(self).game_state,
            final(self).keyboard_helper@ == updated_hints(
                old(self).keyboard_helper@,
                guess@,
                feedback@,
            ),
    {
        let ghost start = self.keyboard_helper@;
        let mut i: usize = 0;
        while i < guess.len()
            invariant
                is_word(guess@),
                feedback@.len() == guess@.len(),
                i <= guess@.len(),
                self.winning_word == old(self).winning_word,
                self.guess_count == old(self).guess_count,
                self.words_guessed == old(self).words_guessed,
                self.game_state == old(self).game_state,
                start == old(self).keyboard_helper@,
                self.keyboard_helper@ == Seq::new(
                    ALPHABET_SIZE as nat,
                    |l: int| stronger(start[l], letter_hint(l, guess@, feedback@, i as int)),
                ),
            decreases guess@.len() - i,
        {
            let c = guess[i];
            let slot = (c as u32 - 'a' as u32) as usize;
            let h = upgrade(self.keyboard_helper[slot], hint_for(feedback[i]));
            self.keyboard_helper[slot] = h;
            i += 1;
        }
        assert(self.keyboard_helper@ =~= updated_hints(start, guess@, feedback@));
    }

    /// Where the game stands.
    pub fn status(&self) -> (r: GameStatus)
        ensures
            r == self@.status,
    {
        self.game_state
    }

    /// The secret word.
    pub fn winning_word(&self) -> (r: String)
        ensures
            r@ == self@.secret,
    {
        self.winning_word.clone()
    }

    /// The number of guesses that did not win.
    pub fn guess_count(&self) -> (r: usize)
        ensures
            r == self@.attempts,
    {
        self.guess_count
    }

    /// The hint of every letter, `'a'` first.
    pub fn keyboard_helper(&self) -> (r: [KeyBoardHelperState; 26])
        ensures
            r@ == self@.hints,
    {
        self.keyboard_helper
    }

    /// The guesses that did not win, in order.
    pub fn guessed_words(&self) -> (r: &[String])
        ensures
            r@.map_values(|w: String| w@) == self@.guesses,
    {
        self.words_guessed.as_slice()
    }
}

/// A fresh game guessed with its own secret is won at once, every position
/// scores `CORRECT`, and no attempt is counted.
pub proof fn lemma_secret_wins(secret: Seq<char>)
    requires
        is_word(secret),
    ensures
        GameModel::initial(secret).after_guess(secret).status == GameStatus::WON,
        GameModel::initial(secret).after_guess(secret).attempts == 0,
        feedback_of(secret, secret) == Seq::new(secret.len(), |i: int| LetterFeedback::CORRECT),
{
    assert(feedback_of(secret, secret) =~= Seq::new(
        secret.len(),
        |i: int| LetterFeedback::CORRECT,
    ));
}

/// Playing `guesses`, none of them the secret, from a fresh game: after the
/// `k`-th guess `k` attempts are counted, and the game is still playing
/// before the sixth and lost with it.
proof fn lemma_misses_counted(secret: Seq<char>, guesses: Seq<Seq<char>>, k: int)
    requires
        is_word(secret),
        0 <= k <= guesses.len() <= MAX_GUESSES,
        forall|i: int| 0 <= i < guesses.len() ==> #[trigger] guesses[i] != secret,
    ensures
        GameModel::initial(secret).play(guesses.take(k)).secret == secret,
        GameModel::initial(secret).play(guesses.take(k)).attempts == k,
        GameModel::initial(secret).play(guesses.take(k)).status == if k < MAX_GUESSES {
            GameStatus::PLAYING
        } else {
            GameStatus::LOST
        },
    decreases k,
{
    if k > 0 {
        lemma_misses_counted(secret, guesses, k - 1);
        assert(guesses.take(k).drop_last() =~= guesses.take(k - 1));
        assert(guesses.take(k).last() == guesses[k - 1]);
        assert(guesses[k - 1] != secret);
    } else {
        assert(guesses.take(0) =~= Seq::<Seq<char>>::empty());
    }
}

/// Six guesses, none of them the secret, played from a fresh game leave it
/// playing after each of the first five and lost after the sixth.
pub proof fn lemma_six_misses_lose(secret: Seq<char>, guesses: Seq<Seq<char>>)
    requires
        is_word(secret),
        guesses.len() == MAX_GUESSES,
        forall|i: int| 0 <= i < guesses.len() ==> #[trigger] guesses[i] != secret,
    ensures
        forall|k: int|
            1 <= k < MAX_GUESSES ==> (#[trigger] GameModel::initial(secret).play(
                guesses.take(k),
            )).status == GameStatus::PLAYING,
        GameModel::initial(secret).play(guesses).status == GameStatus::LOST,
{
    assert forall|k: int| 1 <= k < MAX_GUESSES implies (#[trigger] GameModel::initial(secret).play(
        guesses.take(k),
    )).status == GameStatus::PLAYING by {
        lemma_misses_counted(secret, guesses, k);
    }
    lemma_misses_counted(secret, guesses, MAX_GUESSES as int);
    assert(guesses.take(MAX_GUESSES as int) =~= guesses);
}

/// No guess lowers the hint of any letter.
pub proof fn lemma_hints_never_decrease(game: GameModel, guess: Seq<char>)
    ensures
        game.after_guess(guess).hints.len() == game.hints.len(),
        forall|l: int|
            0 <= l < game.hints.len() ==> rank(game.hints[l]) <= rank(
                #[trigger] game.after_guess(guess).hints[l],
            ),
{
}

/// Along any sequence of guesses, each letter's hint rank is non-decreasing
/// from one turn to the next.
pub proof fn lemma_hints_monotone_over_play(game: GameModel, guesses: Seq<Seq<char>>)
    ensures
        forall|k: int, l: int|
            0 <= k < guesses.len() && 0 <= l < game.hints.len() ==> rank(
                game.play(guesses.take(k)).hints[l],
            ) <= rank(#[trigger] game.play(guesses.take(k + 1)).hints[l]),
{
    assert forall|k: int, l: int|
        0 <= k < guesses.len() && 0 <= l < game.hints.len() implies rank(
        game.play(guesses.take(k)).hints[l],
    ) <= rank(#[trigger] game.play(guesses.take(k + 1)).hints[l]) by {
        assert(guesses.take(k + 1).drop_last() =~= guesses.take(k));
        lemma_play_keeps_hint_count(game, guesses.take(k));
        lemma_hints_never_decrease(game.play(guesses.take(k)), guesses[k]);
    }
}

/// Playing guesses keeps the keyboard's size.
proof fn lemma_play_keeps_hint_count(game: GameModel, guesses: Seq<Seq<char>>)
    ensures
        game.play(guesses).hints.len() == game.hints.len(),
    decreases guesses.len(),
{
    if guesses.len() > 0 {
        lemma_play_keeps_hint_count(game, guesses.drop_last());
    }
}

} // verus!
