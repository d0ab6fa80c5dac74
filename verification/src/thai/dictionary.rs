//! A word list for word segmentation.

use vstd::prelude::*;
use crate::strings::chars_of;
use crate::text::is_space;
use crate::thai::ThaiTextError;

verus! {

/// A small word list of common Thai words, one word per line.
pub const EMBEDDED_DICT: &'static str =
    "# common words\nกรุงเทพ\nการ\nกิน\nของ\nขอบคุณ\nข้าว\nครับ\nความ\nคน\nค่ะ\nจะ\nจังหวัด\nจำนวน\nชื่อ\nดี\nได้\nที่\nไทย\nนคร\nนาม\nน้ำ\nบาท\nบ้าน\nประเทศ\nเป็น\nผู้\nภาษี\nมหา\nมา\nมี\nเมือง\nไม่\nรัก\nราคา\nเรา\nและ\nวัน\nวันที่\nสตางค์\nสวัสดี\nหนังสือ\nให้\nอยู่\nอำเภอ\nเงิน\nเดือน\nปี\nไป\nใน\nโรงเรียน\n";

/// A set of words with the length of the longest.
pub struct Dictionary {
    pub(crate) words: Vec<Vec<char>>,
    pub(crate) max_word_len: usize,
}

/// Whether two runs of characters are the same.
pub fn same_chars(a: &Vec<char>, b: &Vec<char>) -> (r: bool)
    ensures
        r == (a@ == b@),
{
    if a.len() != b.len() {
        return false;
    }
    let mut i: usize = 0;
    while i < a.len()
        invariant
            i <= a.len(),
            a.len() == b.len(),
            forall|j: int| 0 <= j < i ==> a@[j] == b@[j],
        decreases a.len() - i,
    {
        if a[i] != b[i] {
            return false;
        }
        i += 1;
    }
    assert(a@ =~= b@);
    true
}

/// The words as mathematical values.
pub open spec fn words_view(words: Seq<Vec<char>>) -> Seq<Seq<char>> {
    Seq::new(words.len(), |i: int| words[i]@)
}

/// `words` with `word` added, unless it is among them.
pub open spec fn with_word(words: Seq<Seq<char>>, word: Seq<char>) -> Seq<Seq<char>> {
    if words.contains(word) {
        words
    } else {
        words.push(word)
    }
}

/// The larger of two lengths.
pub open spec fn larger(a: int, b: int) -> int {
    if a > b {
        a
    } else {
        b
    }
}

/// The lines of a text: what stands between line feeds, without the
/// carriage return that may end a line. The lines read so far and the
/// line being read, after the characters of `s`.
pub open spec fn scan_lines(s: Seq<char>) -> (Seq<Seq<char>>, Seq<char>)
    decreases s.len(),
{
    if s.len() == 0 {
        (Seq::empty(), Seq::empty())
    } else {
        let (done, cur) = scan_lines(s.drop_last());
        if s.last() == '\n' {
            (done.push(without_return(cur)), Seq::empty())
        } else {
            (done, cur.push(s.last()))
        }
    }
}

/// A line without the carriage return at its end.
pub open spec fn without_return(line: Seq<char>) -> Seq<char> {
    if line.len() > 0 && line.last() == '\r' {
        line.drop_last()
    } else {
        line
    }
}

/// The lines of a text; a last line without line feed counts where it is
/// not empty.
pub open spec fn lines_of(s: Seq<char>) -> Seq<Seq<char>> {
    let (done, cur) = scan_lines(s);
    if cur.len() > 0 {
        done.push(cur)
    } else {
        done
    }
}

/// The number of white space characters at the start of `s`.
pub open spec fn leading_spaces(s: Seq<char>, from: int) -> int
    decreases s.len() - from,
{
    if 0 <= from < s.len() && is_space(s[from]) {
        leading_spaces(s, from + 1)
    } else {
        from
    }
}

/// The place behind the last character of `s` before `to` that is no
/// white space; `from` where there is none.
pub open spec fn trailing_start(s: Seq<char>, from: int, to: int) -> int
    decreases to - from,
{
    if from < to <= s.len() && is_space(s[to - 1]) {
        trailing_start(s, from, to - 1)
    } else {
        to
    }
}

/// `s` without the white space at its start and at its end.
pub open spec fn trimmed(s: Seq<char>) -> Seq<char> {
    let from = leading_spaces(s, 0);
    let to = trailing_start(s, from, s.len() as int);
    if from <= to <= s.len() {
        s.subrange(from, to)
    } else {
        Seq::empty()
    }
}

/// Whether a line of a word list holds a word: after trimming it is not
/// empty and does not start with `#`.
pub open spec fn is_entry(line: Seq<char>) -> bool {
    trimmed(line).len() > 0 && trimmed(line)[0] != '#'
}

/// The words and the length of the longest after the first `n` lines of a
/// word list were read into them.
pub open spec fn read_lines(words: Seq<Seq<char>>, longest: int, lines: Seq<Seq<char>>, n: int) -> (
    Seq<Seq<char>>,
    int,
)
    decreases n,
{
    if n <= 0 {
        (words, longest)
    } else {
        let (w, m) = read_lines(words, longest, lines, n - 1);
        if is_entry(lines[n - 1]) {
            (with_word(w, trimmed(lines[n - 1])), larger(m, trimmed(lines[n - 1]).len() as int))
        } else {
            (w, m)
        }
    }
}

impl Dictionary {
    /// The words, each once.
    pub open(crate) spec fn spec_words(&self) -> Seq<Seq<char>> {
        words_view(self.words@)
    }

    /// The length of the longest word that was added.
    pub open(crate) spec fn spec_max_word_len(&self) -> int {
        self.max_word_len as int
    }

    /// A dictionary without words.
    pub fn new() -> (d: Dictionary)
        ensures
            d.spec_words().len() == 0,
            d.spec_max_word_len() == 0,
    {
        Dictionary { words: Vec::new(), max_word_len: 0 }
    }

    fn has(&self, word: &Vec<char>) -> (r: bool)
        ensures
            r == self.spec_words().contains(word@),
    {
        let mut i: usize = 0;
        while i < self.words.len()
            invariant
                i <= self.words.len(),
                forall|j: int| 0 <= j < i ==> self.spec_words()[j] != word@,
            decreases self.words.len() - i,
        {
            if same_chars(&self.words[i], word) {
                assert(self.spec_words()[i as int] == word@);
                return true;
            }
            i += 1;
        }
        false
    }

    fn add_chars(&mut self, word: Vec<char>)
        ensures
            final(self).spec_words() == with_word(old(self).spec_words(), word@),
            final(self).spec_max_word_len() == larger(
                old(self).spec_max_word_len(),
                word@.len() as int,
            ),
    {
        if word.len() > self.max_word_len {
            self.max_word_len = word.len();
        }
        if !self.has(&word) {
            self.words.push(word);
            assert(self.spec_words() =~= old(self).spec_words().push(word@));
        }
    }

    /// Adds a word.
    pub fn add_word(&mut self, word: &str)
        ensures
            final(self).spec_words() == with_word(old(self).spec_words(), word@),
            final(self).spec_max_word_len() == larger(
                old(self).spec_max_word_len(),
                word@.len() as int,
            ),
    {
        self.add_chars(chars_of(word));
    }

    /// Whether the word is in the dictionary.
    pub fn contains(&self, word: &str) -> (r: bool)
        ensures
            r == self.spec_words().contains(word@),
    {
        let chars = chars_of(word);
        self.has(&chars)
    }

    /// Whether the word is in the dictionary.
    pub fn contains_chars(&self, word: &Vec<char>) -> (r: bool)
        ensures
            r == self.spec_words().contains(word@),
    {
        self.has(word)
    }

    /// The length in characters of the longest word that was added.
    pub fn max_word_len(&self) -> (n: usize)
        ensures
            n == self.spec_max_word_len(),
    {
        self.max_word_len
    }

    /// The number of words.
    pub fn len(&self) -> (n: usize)
        ensures
            n == self.spec_words().len(),
    {
        self.words.len()
    }

    /// Whether the dictionary holds no word.
    pub fn is_empty(&self) -> (r: bool)
        ensures
            r == (self.spec_words().len() == 0),
    {
        self.words.len() == 0
    }
}

impl Default for Dictionary {
    fn default() -> (d: Dictionary)
        ensures
            d.spec_words().len() == 0,
            d.spec_max_word_len() == 0,
    {
        Dictionary::new()
    }
}

/// The lines of a text.
pub fn split_lines(chars: &Vec<char>) -> (r: Vec<Vec<char>>)
    ensures
        words_view(r@) == lines_of(chars@),
{
    let mut done: Vec<Vec<char>> = Vec::new();
    let mut cur: Vec<char> = Vec::new();
    let mut i: usize = 0;
    while i < chars.len()
        invariant
            i <= chars.len(),
            words_view(done@) == scan_lines(chars@.take(i as int)).0,
            cur@ == scan_lines(chars@.take(i as int)).1,
        decreases chars.len() - i,
    {
        let c = chars[i];
        proof {
            let t1 = chars@.take(i + 1);
            assert(t1.drop_last() =~= chars@.take(i as int));
            assert(t1.last() == c);
        }
        let ghost before = words_view(done@);
        if c == '\n' {
            let mut line: Vec<char> = Vec::new();
            std::mem::swap(&mut line, &mut cur);
            if line.len() > 0 && line[line.len() - 1] == '\r' {
                line.pop();
            }
            done.push(line);
            assert(words_view(done@) =~= before.push(line@));
        } else {
            cur.push(c);
        }
        i += 1;
    }
    assert(chars@.take(chars.len() as int) =~= chars@);
    let ghost before = words_view(done@);
    if cur.len() > 0 {
        done.push(cur);
        assert(words_view(done@) =~= before.push(cur@));
    }
    done
}

/// The characters without the white space at their start and at their end.
pub fn trim(chars: &Vec<char>) -> (r: Vec<char>)
    ensures
        r@ == trimmed(chars@),
{
    let mut from: usize = 0;
    while from < chars.len() && crate::text::char_is_space(chars[from])
        invariant
            from <= chars.len(),
            leading_spaces(chars@, 0) == leading_spaces(chars@, from as int),
        decreases chars.len() - from,
    {
        from += 1;
    }
    let mut to: usize = chars.len();
    while to > from && crate::text::char_is_space(chars[to - 1])
        invariant
            from <= to <= chars.len(),
            trailing_start(chars@, from as int, chars@.len() as int) == trailing_start(
                chars@,
                from as int,
                to as int,
            ),
        decreases to,
    {
        to -= 1;
    }
    let mut out: Vec<char> = Vec::new();
    let mut i: usize = from;
    while i < to
        invariant
            from <= i <= to <= chars.len(),
            out@ == chars@.subrange(from as int, i as int),
        decreases to - i,
    {
        out.push(chars[i]);
        i += 1;
        assert(out@ =~= chars@.subrange(from as int, i as int));
    }
    out
}

impl Dictionary {
    /// Reads a word list: one word per line; white space around a word,
    /// empty lines and lines that start with `#` do not count. Fails where
    /// the list holds no word.
    pub fn from_str_content(content: &str) -> (r: Result<Dictionary, ThaiTextError>)
        ensures
            ({
                let lines = lines_of(content@);
                let (words, longest) = read_lines(Seq::empty(), 0, lines, lines.len() as int);
                match r {
                    Ok(d) => words.len() > 0 && d.spec_words() == words && d.spec_max_word_len()
                        == longest,
                    Err(e) => words.len() == 0 && e is DictionaryLoadError,
                }
            }),
    {
        let chars = chars_of(content);
        let lines = split_lines(&chars);
        let ghost views = lines_of(content@);
        let mut dict = Dictionary::new();
        assert(dict.spec_words() =~= Seq::empty());
        let mut i: usize = 0;
        while i < lines.len()
            invariant
                i <= lines.len(),
                words_view(lines@) == views,
                (dict.spec_words(), dict.spec_max_word_len()) == read_lines(
                    Seq::empty(),
                    0,
                    views,
                    i as int,
                ),
            decreases lines.len() - i,
        {
            assert(views[i as int] == lines@[i as int]@);
            let word = trim(&lines[i]);
            if word.len() > 0 && word[0] != '#' {
                dict.add_chars(word);
            }
            i += 1;
        }
        if dict.words.len() == 0 {
            return Err(ThaiTextError::DictionaryLoadError("Dictionary is empty".to_owned()));
        }
        Ok(dict)
    }

    /// The dictionary of the built-in word list.
    pub fn embedded() -> (r: Result<Dictionary, ThaiTextError>)
        ensures
            ({
                let lines = lines_of(EMBEDDED_DICT@);
                let (words, longest) = read_lines(Seq::empty(), 0, lines, lines.len() as int);
                match r {
                    Ok(d) => words.len() > 0 && d.spec_words() == words && d.spec_max_word_len()
                        == longest,
                    Err(e) => words.len() == 0 && e is DictionaryLoadError,
                }
            }),
    {
        Dictionary::from_str_content(EMBEDDED_DICT)
    }
}

} // verus!
