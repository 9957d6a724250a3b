use vstd::prelude::*;

use crate::lines::{line_spans, lines_of};
use crate::text::{chars_of, substring};
use crate::words::{all_ws, lemma_no_words_iff_all_whitespace, word_spans, words_of};

verus! {

/// The statistics of a text. The mean word length is `total_word_length / words`, and 0 when
/// there are no words.
pub struct AnalysisResult {
    /// Number of characters (Unicode scalar values).
    pub characters: usize,
    /// Number of whitespace-delimited words.
    pub words: usize,
    /// Number of lines.
    pub lines: usize,
    /// The first of the longest words; empty when there are none.
    pub longest_word: String,
    /// Sum of the words' lengths in characters.
    pub total_word_length: usize,
}

/// The statistics of a text as mathematical values.
pub struct Analysis {
    pub characters: nat,
    pub words: nat,
    pub lines: nat,
    pub longest_word: Seq<char>,
    pub total_word_length: nat,
}

impl View for AnalysisResult {
    type V = Analysis;

    open spec fn view(&self) -> Analysis {
        Analysis {
            characters: self.characters as nat,
            words: self.words as nat,
            lines: self.lines as nat,
            longest_word: self.longest_word@,
            total_word_length: self.total_word_length as nat,
        }
    }
}

/// The first word of greatest length in `ws`; empty when `ws` is.
pub open spec fn longest_of(ws: Seq<Seq<char>>) -> Seq<char>
    decreases ws.len(),
{
    if ws.len() == 0 {
        seq![]
    } else {
        let best = longest_of(ws.drop_last());
        if ws.last().len() > best.len() {
            ws.last()
        } else {
            best
        }
    }
}

/// The sum of the lengths of `ws`.
pub open spec fn total_length(ws: Seq<Seq<char>>) -> nat
    decreases ws.len(),
{
    if ws.len() == 0 {
        0
    } else {
        total_length(ws.drop_last()) + ws.last().len()
    }
}

/// The statistics of the text `s`.
pub open spec fn analysis_of(s: Seq<char>) -> Analysis {
    Analysis {
        characters: s.len(),
        words: words_of(s).len(),
        lines: lines_of(s).len(),
        longest_word: longest_of(words_of(s)),
        total_word_length: total_length(words_of(s)),
    }
}

/// Counts the characters, words and lines of `content`, and finds its first longest word and
/// the total length of its words.
pub fn analyze_text(content: &str) -> (r: AnalysisResult)
    ensures
        r@ == analysis_of(content@),
{
    let cs = chars_of(content);
    let lines = line_spans(&cs);
    let words = word_spans(&cs);
    let ghost ws = words_of(cs@);
    let mut best_start: usize = 0;
    let mut best_end: usize = 0;
    let mut total: usize = 0;
    let mut k: usize = 0;
    while k < words.len()
        invariant
            words.len() == ws.len(),
            forall|j: int|
                #![trigger words[j]]
                0 <= j < words.len() ==> words[j].0 < words[j].1 <= cs.len() && cs@.subrange(
                    words[j].0 as int,
                    words[j].1 as int,
                ) == ws[j],
            forall|j: int| 0 < j < words.len() ==> words[j - 1].1 < #[trigger] words[j].0,
            k <= words.len(),
            best_start <= best_end <= cs.len(),
            cs@.subrange(best_start as int, best_end as int) == longest_of(ws.take(k as int)),
            total == total_length(ws.take(k as int)),
            k == 0 ==> total == 0,
            k > 0 ==> total <= words[k - 1].1,
        decreases words.len() - k,
    {
        let (s, e) = words[k];
        let ghost t = ws.take(k + 1);
        assert(t.drop_last() == ws.take(k as int));
        assert(t.last() == ws[k as int]);
        if e - s > best_end - best_start {
            best_start = s;
            best_end = e;
        }
        total = total + (e - s);
        k = k + 1;
    }
    assert(ws.take(words.len() as int) == ws);
    AnalysisResult {
        characters: cs.len(),
        words: words.len(),
        lines: lines.len(),
        longest_word: substring(&cs, best_start, best_end),
        total_word_length: total,
    }
}

/// A text without words has an empty longest word and a total word length of 0; the empty text
/// has no characters, words or lines.
pub proof fn lemma_no_words_no_stats(s: Seq<char>)
    ensures
        analysis_of(s).words == 0 ==> analysis_of(s).longest_word.len() == 0
            && analysis_of(s).total_word_length == 0,
        s.len() == 0 ==> analysis_of(s).characters == 0 && analysis_of(s).words == 0
            && analysis_of(s).lines == 0,
{
    if s.len() == 0 {
        assert(lines_of(s).len() == 0);
    }
}

/// A text has no words exactly when it holds no character but whitespace.
pub proof fn lemma_words_zero_iff_blank(s: Seq<char>)
    ensures
        analysis_of(s).words == 0 <==> all_ws(s),
{
    lemma_no_words_iff_all_whitespace(s);
}

/// Two results of `analyze_text` on the same text are equal.
pub proof fn lemma_analysis_deterministic(a: AnalysisResult, b: AnalysisResult, s: Seq<char>)
    requires
        a@ == analysis_of(s),
        b@ == analysis_of(s),
    ensures
        a@ == b@,
{
}

/// The longest word is a word of the text, no word is longer, and every word before it is
/// strictly shorter: among words of equal greatest length the first wins.
pub proof fn lemma_longest_is_first_maximum(ws: Seq<Seq<char>>)
    ensures
        forall|j: int| 0 <= j < ws.len() ==> (#[trigger] ws[j]).len() <= longest_of(ws).len(),
        ws.len() > 0 ==> exists|i: int|
            0 <= i < ws.len() && ws[i] == longest_of(ws) && forall|j: int|
                0 <= j < i ==> (#[trigger] ws[j]).len() < longest_of(ws).len(),
    decreases ws.len(),
{
    if ws.len() > 0 {
        let p = ws.drop_last();
        lemma_longest_is_first_maximum(p);
        assert(forall|j: int| 0 <= j < p.len() ==> p[j] == ws[j]);
        if ws.last().len() > longest_of(p).len() {
            let i = ws.len() - 1;
            assert(ws[i] == longest_of(ws));
            assert(forall|j: int| 0 <= j < i ==> (#[trigger] ws[j]).len() < longest_of(ws).len());
        } else if p.len() > 0 {
            let i = choose|i: int|
                0 <= i < p.len() && p[i] == longest_of(p) && forall|j: int|
                    0 <= j < i ==> (#[trigger] p[j]).len() < longest_of(p).len();
            assert(ws[i] == longest_of(ws));
            assert(forall|j: int| 0 <= j < i ==> (#[trigger] ws[j]).len() < longest_of(ws).len());
        } else {
            assert(ws[0] == longest_of(ws));
        }
    }
}

} // verus!
