//! The dictionary: a text of fixed-width records, one lowercase word and a
//! line separator each, from which the secret is drawn and against which
//! guesses are checked.

use rand::Rng;
use vstd::prelude::*;

verus! {

broadcast use vstd::string::is_ascii_spec_bytes;

/// Letters in a word.
pub const WORD_LENGTH: usize = 5;

/// Bytes in a record of the dictionary text: a word and its line separator.
pub const LINE_LENGTH: usize = 6;

/// `c` is a lowercase ASCII letter.
pub open spec fn is_lower(c: char) -> bool {
    'a' <= c <= 'z'
}

/// `w` has the shape of a word: `WORD_LENGTH` lowercase ASCII letters.
pub open spec fn is_word(w: Seq<char>) -> bool {
    &&& w.len() == WORD_LENGTH
    &&& forall|i: int| 0 <= i < w.len() ==> is_lower(#[trigger] w[i])
}

/// `t` is a well-formed dictionary text: at least one record, each record a
/// word followed by `'\n'`.
pub open spec fn is_word_list_text(t: Seq<char>) -> bool {
    &&& t.len() > 0
    &&& t.len() % (LINE_LENGTH as nat) == 0
    &&& forall|i: int|
        0 <= i < t.len() ==> if i % LINE_LENGTH as int == WORD_LENGTH as int {
            #[trigger] t[i] == '\n'
        } else {
            is_lower(t[i])
        }
}

/// The words of a dictionary text: the record count is the text's length
/// divided by the record length, and record `k` holds its word at offset
/// `k * LINE_LENGTH`.
pub open spec fn records_of(t: Seq<char>) -> Seq<Seq<char>> {
    Seq::new(
        t.len() / (LINE_LENGTH as nat),
        |k: int| t.subrange(k * LINE_LENGTH as int, k * LINE_LENGTH as int + WORD_LENGTH as int),
    )
}

/// `w` is accepted as a guess against `list`: it has the shape of a word and
/// is one of the list's records.
pub open spec fn accepts(list: Seq<Seq<char>>, w: Seq<char>) -> bool {
    is_word(w) && list.contains(w)
}

/// A non-empty dictionary of words, kept as its text.
pub struct WordList {
    text: String,
}

impl WordList {
    #[verifier::type_invariant]
    spec fn inv(self) -> bool {
        is_word_list_text(self.text@)
    }
}

impl View for WordList {
    type V = Seq<Seq<char>>;

    closed spec fn view(&self) -> Seq<Seq<char>> {
        records_of(self.text@)
    }
}

/// A well-formed dictionary text is ASCII.
proof fn lemma_word_list_text_is_ascii(t: Seq<char>)
    requires
        is_word_list_text(t),
    ensures
        vstd::utf8::is_ascii_chars(t),
{
    assert forall|i: int| 0 <= i < t.len() implies '\0' <= #[trigger] t[i] <= '\u{7f}' by {
        if i % LINE_LENGTH as int == WORD_LENGTH as int {
            assert(t[i] == '\n');
        } else {
            assert(is_lower(t[i]));
        }
    }
}

/// The characters of `s`, in order.
pub(crate) fn chars_of(s: &str) -> (r: Vec<char>)
    ensures
        r@ == s@,
{
    let n = s.unicode_len();
    let mut r: Vec<char> = Vec::new();
    let mut i: usize = 0;
    while i < n
        invariant
            n == s@.len(),
            i <= n,
            r@ == s@.subrange(0, i as int),
        decreases n - i,
    {
        r.push(s.get_char(i));
        i += 1;
    }
    assert(r@ =~= s@);
    r
}

/// Relies on rand::thread_rng and Rng::gen_range: an index drawn from
/// `0..bound`; gen_range panics only on an empty range.
#[verifier::external_body]
fn random_index(bound: usize) -> (r: usize)
    requires
        bound > 0,
    ensures
        r < bound,
{
    rand::thread_rng().gen_range(0..bound)
}

impl WordList {
    /// Reads a dictionary text. Returns `None` exactly when the text is empty
    /// or malformed: a length that is not a whole number of records, or a
    /// record that is not five lowercase letters and a `'\n'`.
    pub fn new(text: &str) -> (r: Option<WordList>)
        ensures
            r is Some <==> is_word_list_text(text@),
            r matches Some(list) ==> list@ == records_of(text@),
    {
        if !text.is_ascii() {
            proof {
                let i = choose|i: int| 0 <= i < text@.len() && !('\0' <= #[trigger] text@[i] <= '\u{7f}');
                if is_word_list_text(text@) {
                    assert(text@[i] == '\n' || is_lower(text@[i]));
                }
            }
            return None;
        }
        let bytes = text.as_bytes();
        let n = bytes.len();
        assert(n == text@.len());
        assert forall|k: int| 0 <= k < n implies #[trigger] bytes@[k] as int == text@[k] as int by {
            assert((text@[k] as int) < 128);
        }
        if n == 0 || n % LINE_LENGTH != 0 {
            return None;
        }
        let mut i: usize = 0;
        while i < n
            invariant
                n == text@.len(),
                n == bytes@.len(),
                i <= n,
                forall|k: int| 0 <= k < n ==> #[trigger] bytes@[k] as int == text@[k] as int,
                forall|k: int| 0 <= k < n ==> (text@[k] as int) < 128,
                forall|k: int|
                    0 <= k < i ==> if k % LINE_LENGTH as int == WORD_LENGTH as int {
                        #[trigger] text@[k] == '\n'
                    } else {
                        is_lower(text@[k])
                    },
            decreases n - i,
        {
            let b = bytes[i];
            assert(b as int == text@[i as int] as int);
            if i % LINE_LENGTH == WORD_LENGTH {
                if b != 10 {
                    return None;
                }
            } else if !(97 <= b && b <= 122) {
                return None;
            }
            i += 1;
        }
        Some(WordList { text: text.to_owned() })
    }

    /// Number of words in the list.
    pub fn word_count(&self) -> (r: usize)
        ensures
            r == self@.len(),
            r > 0,
    {
        let text = self.text.as_str();
        proof {
            use_type_invariant(self);
            lemma_word_list_text_is_ascii(text@);
            assert(vstd::string::is_ascii(text));
        }
        text.as_bytes().len() / LINE_LENGTH
    }

    /// The word at position `index` of the list.
    pub fn word(&self, index: usize) -> (r: String)
        requires
            index < self@.len(),
        ensures
            r@ == self@[index as int],
            is_word(r@),
    {
        let text = self.text.as_str();
        proof {
            use_type_invariant(self);
            lemma_word_list_text_is_ascii(text@);
            lemma_records_are_words(text@, index as int);
            assert(vstd::string::is_ascii(text));
        }
        let n = text.as_bytes().len();
        proof {
            lemma_record_in_bounds(n as int, index as int);
        }
        let start = index * LINE_LENGTH;
        text.substring_ascii(start, start + WORD_LENGTH).to_owned()
    }

    /// Whether the word `w` is one of the list's records.
    fn contains(&self, w: &Vec<char>) -> (r: bool)
        requires
            is_word(w@),
        ensures
            r == self@.contains(w@),
    {
        let text = self.text.as_str();
        proof {
            use_type_invariant(self);
            lemma_word_list_text_is_ascii(text@);
            assert(vstd::string::is_ascii(text));
        }
        let bytes = text.as_bytes();
        assert forall|i: int| 0 <= i < bytes@.len() implies #[trigger] bytes@[i] as int
            == text@[i] as int by {
            assert((text@[i] as int) < 128);
        }
        let n = bytes.len();
        let count = n / LINE_LENGTH;
        let mut k: usize = 0;
        while k < count
            invariant
                self@ == records_of(text@),
                bytes@.len() == text@.len(),
                n == text@.len(),
                count == self@.len(),
                k <= count,
                is_word(w@),
                forall|i: int| 0 <= i < bytes@.len() ==> #[trigger] bytes@[i] as int == text@[i] as int,
                forall|i: int| 0 <= i < k ==> self@[i] != w@,
            decreases count - k,
        {
            proof {
                lemma_record_in_bounds(text@.len() as int, k as int);
            }
            let start = k * LINE_LENGTH;
            let mut j: usize = 0;
            let mut same = true;
            while j < WORD_LENGTH
                invariant_except_break
                    start == k * LINE_LENGTH,
                    start + LINE_LENGTH <= n,
                    n == bytes@.len(),
                    bytes@.len() == text@.len(),
                    forall|i: int|
                        0 <= i < bytes@.len() ==> #[trigger] bytes@[i] as int == text@[i] as int,
                    is_word(w@),
                    j <= WORD_LENGTH,
                    same,
                    forall|i: int| 0 <= i < j ==> text@[start + i] == w@[i],
                ensures
                    same ==> forall|i: int| 0 <= i < WORD_LENGTH ==> text@[start + i] == w@[i],
                    !same ==> j < WORD_LENGTH && text@[start + j] != w@[j as int],
                decreases WORD_LENGTH - j,
            {
                assert((w@[j as int] as int) < 128);
                if bytes[start + j] != w[j] as u8 {
                    same = false;
                    break;
                }
                j += 1;
            }
            if same {
                assert(self@[k as int] =~= w@);
                return true;
            }
            assert(self@[k as int][j as int] != w@[j as int]);
            k += 1;
        }
        false
    }
}

/// Record `k` of a text of length `n` lies inside the text.
proof fn lemma_record_in_bounds(n: int, k: int)
    requires
        0 <= k < n / (LINE_LENGTH as int),
    ensures
        k * LINE_LENGTH as int + LINE_LENGTH as int <= n,
{
    assert(k * 6 + 6 <= n) by (nonlinear_arith)
        requires
            0 <= k < n / 6,
    ;
}

/// Each record of a well-formed dictionary text is a word.
proof fn lemma_records_are_words(t: Seq<char>, k: int)
    requires
        is_word_list_text(t),
        0 <= k < records_of(t).len(),
    ensures
        is_word(records_of(t)[k]),
{
    let w = records_of(t)[k];
    assert forall|i: int| 0 <= i < w.len() implies is_lower(#[trigger] w[i]) by {
        let p = k * LINE_LENGTH as int + i;
        assert(p % LINE_LENGTH as int == i);
        assert(is_lower(t[p]));
    }
}

/// Draws a word of the list uniformly at random.
pub fn choose_word(words: &WordList) -> (r: String)
    ensures
        words@.contains(r@),
        is_word(r@),
{
    let index = random_index(words.word_count());
    let r = words.word(index);
    assert(words@[index as int] == r@);
    r
}

/// Whether `word` may be played: it is five lowercase letters and one of the
/// list's records, matched whole and at a record boundary.
pub fn word_isvalid(words: &WordList, word: &str) -> (r: bool)
    ensures
        r == accepts(words@, word@),
{
    if word.unicode_len() != WORD_LENGTH {
        return false;
    }
    let w = chars_of(word);
    let mut j: usize = 0;
    while j < WORD_LENGTH
        invariant
            w@ == word@,
            w@.len() == WORD_LENGTH,
            j <= WORD_LENGTH,
            forall|i: int| 0 <= i < j ==> is_lower(#[trigger] w@[i]),
        decreases WORD_LENGTH - j,
    {
        let c = w[j];
        if !('a' <= c && c <= 'z') {
            return false;
        }
        j += 1;
    }
    words.contains(&w)
}

/// The candidates `word_isvalid` turns down whatever the list: any whose
/// length is not that of a word (the empty string, the three-letter prefix
/// of a word), and any holding a character that is not a lowercase letter.
pub proof fn lemma_rejected_candidates(list: Seq<Seq<char>>, w: Seq<char>)
    ensures
        w.len() != WORD_LENGTH ==> !accepts(list, w),
        (exists|i: int| 0 <= i < w.len() && !is_lower(#[trigger] w[i])) ==> !accepts(list, w),
        is_word(w) ==> !accepts(list, w.subrange(0, 3)),
{
}

} // verus!
