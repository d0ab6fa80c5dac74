//! Word segmentation by longest match against a word list.

use vstd::prelude::*;
use crate::strings::{chars_of, string_of};
use crate::thai::dictionary::{lines_of, read_lines, Dictionary, EMBEDDED_DICT};
use crate::thai::ThaiTextError;

verus! {

/// Cuts Thai text into words.
pub struct ThaiWordcut {
    pub(crate) dict: Dictionary,
}

/// The length of the longest word among `words` that starts at place
/// `pos` of `chars` and is no longer than `len`; zero where there is none.
pub open spec fn match_len(words: Seq<Seq<char>>, chars: Seq<char>, pos: int, len: int) -> int
    decreases len,
{
    if len <= 0 {
        0
    } else if words.contains(chars.subrange(pos, pos + len)) {
        len
    } else {
        match_len(words, chars, pos, len - 1)
    }
}

/// The smaller of two numbers.
pub open spec fn smaller(a: int, b: int) -> int {
    if a < b {
        a
    } else {
        b
    }
}

/// How many characters the piece that starts at place `pos` takes: those
/// of the longest word that starts there, one where no word does.
pub open spec fn piece_len(words: Seq<Seq<char>>, longest: int, chars: Seq<char>, pos: int) -> int {
    let found = match_len(words, chars, pos, smaller(longest, chars.len() - pos));
    if 0 < found <= chars.len() - pos {
        found
    } else {
        1
    }
}

/// The pieces that `chars` is cut into from place `pos` on: at each place
/// the longest word of the list that starts there, and a single character
/// where none does.
pub open spec fn pieces(words: Seq<Seq<char>>, longest: int, chars: Seq<char>, pos: int) -> Seq<
    Seq<char>,
>
    decreases chars.len() - pos,
{
    if pos < 0 || pos >= chars.len() {
        Seq::empty()
    } else {
        let step = piece_len(words, longest, chars, pos);
        seq![chars.subrange(pos, pos + step)] + pieces(words, longest, chars, pos + step)
    }
}

/// The lines filled so far and the line being filled, after the first `n`
/// pieces: a piece joins the line while the line stays within `max`
/// characters, else it starts the next line.
pub open spec fn fill_pieces(words: Seq<Seq<char>>, n: int, max: int) -> (Seq<Seq<char>>, Seq<char>)
    decreases n,
{
    if n <= 0 {
        (Seq::empty(), Seq::empty())
    } else {
        let (lines, cur) = fill_pieces(words, n - 1, max);
        let word = words[n - 1];
        if cur.len() == 0 {
            (lines, word)
        } else if cur.len() + word.len() <= max {
            (lines, cur + word)
        } else {
            (lines.push(cur), word)
        }
    }
}

/// The lines that pieces are wrapped into for lines of at most `max`
/// characters; with `max` zero the text is one line.
pub open spec fn wrapped_pieces(text: Seq<char>, words: Seq<Seq<char>>, max: int) -> Seq<Seq<char>> {
    if max == 0 {
        seq![text]
    } else {
        let (lines, cur) = fill_pieces(words, words.len() as int, max);
        let all = if cur.len() > 0 {
            lines.push(cur)
        } else {
            lines
        };
        if all.len() == 0 {
            seq![Seq::empty()]
        } else {
            all
        }
    }
}

/// The texts as mathematical values.
pub open spec fn texts_view(texts: Seq<String>) -> Seq<Seq<char>> {
    Seq::new(texts.len(), |i: int| texts[i]@)
}

impl ThaiWordcut {
    /// The word list.
    pub open(crate) spec fn spec_dictionary(&self) -> Dictionary {
        self.dict
    }

    /// The pieces that a text is cut into.
    pub open(crate) spec fn spec_segment(&self, text: Seq<char>) -> Seq<Seq<char>> {
        pieces(self.dict.spec_words(), self.dict.spec_max_word_len(), text, 0)
    }

    /// A word cutter over a word list.
    pub fn new(dict: Dictionary) -> (w: ThaiWordcut)
        ensures
            w.spec_dictionary() == dict,
    {
        ThaiWordcut { dict }
    }

    /// A word cutter over the built-in word list: its words are those of
    /// the list, read as `from_str_content` reads them. Fails where the
    /// list holds no word.
    pub fn embedded() -> (r: Result<ThaiWordcut, ThaiTextError>)
        ensures
            ({
                let lines = lines_of(EMBEDDED_DICT@);
                let (words, longest) = read_lines(Seq::empty(), 0, lines, lines.len() as int);
                match r {
                    Ok(w) => words.len() > 0 && w.spec_dictionary().spec_words() == words
                        && w.spec_dictionary().spec_max_word_len() == longest,
                    Err(e) => words.len() == 0 && e is DictionaryLoadError,
                }
            }),
    {
        match Dictionary::embedded() {
            Ok(dict) => Ok(ThaiWordcut { dict }),
            Err(e) => Err(e),
        }
    }

    /// A word cutter over the word list that a text holds, one word per line.
    pub fn from_str_content(content: &str) -> (r: Result<ThaiWordcut, ThaiTextError>)
        ensures
            ({
                let lines = lines_of(content@);
                let (words, longest) = read_lines(Seq::empty(), 0, lines, lines.len() as int);
                match r {
                    Ok(w) => words.len() > 0 && w.spec_dictionary().spec_words() == words
                        && w.spec_dictionary().spec_max_word_len() == longest,
                    Err(e) => words.len() == 0 && e is DictionaryLoadError,
                }
            }),
    {
        match Dictionary::from_str_content(content) {
            Ok(dict) => Ok(ThaiWordcut { dict }),
            Err(e) => Err(e),
        }
    }

    /// The word list.
    pub fn dictionary(&self) -> (d: &Dictionary)
        ensures
            *d == self.spec_dictionary(),
    {
        &self.dict
    }

    fn longest_match(&self, chars: &Vec<char>, pos: usize, limit: usize) -> (r: usize)
        requires
            pos + limit <= chars.len(),
        ensures
            r == match_len(self.dict.spec_words(), chars@, pos as int, limit as int),
            r <= limit,
    {
        let mut len: usize = limit;
        while len > 0
            invariant
                len <= limit,
                pos + limit <= chars.len(),
                match_len(self.dict.spec_words(), chars@, pos as int, limit as int) == match_len(
                    self.dict.spec_words(),
                    chars@,
                    pos as int,
                    len as int,
                ),
            decreases len,
        {
            let mut word: Vec<char> = Vec::new();
            let mut k: usize = 0;
            while k < len
                invariant
                    k <= len,
                    pos + len <= chars.len(),
                    word@ == chars@.subrange(pos as int, pos + k),
                decreases len - k,
            {
                word.push(chars[pos + k]);
                k += 1;
                assert(word@ =~= chars@.subrange(pos as int, pos + k));
            }
            if self.dict.contains_chars(&word) {
                return len;
            }
            len -= 1;
        }
        0
    }

    /// Cuts a text into pieces: at each place the longest word of the list
    /// that starts there, and a single character where none does.
    pub fn segment(&self, text: &str) -> (r: Vec<String>)
        ensures
            texts_view(r@) == self.spec_segment(text@),
    {
        let chars = chars_of(text);
        let ghost words = self.dict.spec_words();
        let ghost longest = self.dict.spec_max_word_len();
        let ghost all = pieces(words, longest, chars@, 0);
        let mut out: Vec<String> = Vec::new();
        let mut pos: usize = 0;
        while pos < chars.len()
            invariant
                pos <= chars.len(),
                words == self.dict.spec_words(),
                longest == self.dict.spec_max_word_len(),
                all == pieces(words, longest, chars@, 0),
                texts_view(out@) + pieces(words, longest, chars@, pos as int) == all,
            decreases chars.len() - pos,
        {
            let room = chars.len() - pos;
            let limit = if self.dict.max_word_len() < room {
                self.dict.max_word_len()
            } else {
                room
            };
            let found = self.longest_match(&chars, pos, limit);
            let step = if found > 0 {
                found
            } else {
                1
            };
            let mut word: Vec<char> = Vec::new();
            let mut k: usize = 0;
            while k < step
                invariant
                    k <= step,
                    pos + step <= chars.len(),
                    word@ == chars@.subrange(pos as int, pos + k),
                decreases step - k,
            {
                word.push(chars[pos + k]);
                k += 1;
                assert(word@ =~= chars@.subrange(pos as int, pos + k));
            }
            let ghost before = texts_view(out@);
            out.push(string_of(&word));
            assert(texts_view(out@) =~= before.push(word@));
            assert(before.push(word@) + pieces(words, longest, chars@, pos + step) =~= before
                + pieces(words, longest, chars@, pos as int));
            pos += step;
        }
        assert(texts_view(out@) =~= all);
        out
    }

    /// Breaks a text between its pieces into lines of at most `max_chars`
    /// characters. A piece that is longer stands on a line of its own;
    /// with `max_chars` zero the text is returned as one line.
    pub fn word_wrap(&self, text: &str, max_chars: usize) -> (r: Vec<String>)
        ensures
            texts_view(r@) == wrapped_pieces(text@, self.spec_segment(text@), max_chars as int),
    {
        let mut out: Vec<String> = Vec::new();
        if max_chars == 0 {
            out.push(text.to_owned());
            assert(texts_view(out@) =~= seq![text@]);
            return out;
        }
        let words = self.segment(text);
        let ghost ws = self.spec_segment(text@);
        let ghost max = max_chars as int;
        let mut cur: Vec<char> = Vec::new();
        let mut i: usize = 0;
        while i < words.len()
            invariant
                i <= words.len(),
                texts_view(words@) == ws,
                max == max_chars as int,
                texts_view(out@) == fill_pieces(ws, i as int, max).0,
                cur@ == fill_pieces(ws, i as int, max).1,
            decreases words.len() - i,
        {
            assert(ws[i as int] == words@[i as int]@);
            let word = chars_of(words[i].as_str());
            let ghost before = texts_view(out@);
            if cur.len() == 0 {
                cur = word;
            } else if word.len() <= max_chars && cur.len() <= max_chars - word.len() {
                let ghost start = cur@;
                let mut k: usize = 0;
                while k < word.len()
                    invariant
                        k <= word.len(),
                        cur@ == start + word@.take(k as int),
                    decreases word.len() - k,
                {
                    cur.push(word[k]);
                    k += 1;
                    assert(cur@ =~= start + word@.take(k as int));
                }
                assert(word@.take(word.len() as int) =~= word@);
            } else {
                out.push(string_of(&cur));
                assert(texts_view(out@) =~= before.push(cur@));
                cur = word;
            }
            i += 1;
        }
        let ghost before = texts_view(out@);
        if cur.len() > 0 {
            out.push(string_of(&cur));
            assert(texts_view(out@) =~= before.push(cur@));
        }
        if out.len() == 0 {
            out.push(String::new());
            assert(texts_view(out@) =~= seq![Seq::<char>::empty()]);
        }
        out
    }
}

} // verus!
