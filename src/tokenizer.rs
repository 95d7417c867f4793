//! The tokenizer pipeline: HTML to text, word splitting, a length filter,
//! then case folding and English stemming.

use scraper::Html;
use tantivy::tokenizer::{Language, LowerCaser, RawTokenizer, Stemmer, TextAnalyzer};

use vstd::prelude::*;
use vstd::std_specs::iter::IteratorSpec;

verus! {

/// Words longer than this many characters are dropped.
pub const MAX_TOKEN_CHARS: usize = 40;

/// The text nodes of `raw`, read as an HTML fragment, concatenated in
/// document order.
pub uninterp spec fn html_text_of(raw: Seq<char>) -> Seq<char>;

/// Whether `c` is alphabetic or numeric in the Unicode sense.
pub uninterp spec fn alphanumeric(c: char) -> bool;

/// A word, lowercased and reduced to its English stem.
pub uninterp spec fn folded_stem(word: Seq<char>) -> Seq<char>;

/// Reading `s` left to right: the words completed so far, and the word
/// still being read.
pub open spec fn scan_words(s: Seq<char>) -> (Seq<Seq<char>>, Seq<char>)
    decreases s.len(),
{
    if s.len() == 0 {
        (Seq::empty(), Seq::empty())
    } else {
        let (done, cur) = scan_words(s.drop_last());
        let c = s.last();
        if alphanumeric(c) {
            (done, cur.push(c))
        } else if cur.len() > 0 {
            (done.push(cur), Seq::empty())
        } else {
            (done, Seq::empty())
        }
    }
}

/// The maximal runs of alphanumeric characters of `s`, in order.
pub open spec fn words(s: Seq<char>) -> Seq<Seq<char>> {
    let (done, cur) = scan_words(s);
    if cur.len() > 0 {
        done.push(cur)
    } else {
        done
    }
}

pub open spec fn short_enough(w: Seq<char>) -> bool {
    w.len() <= MAX_TOKEN_CHARS
}

/// Words kept by the length filter, each folded and stemmed.
pub open spec fn normalize_words(ws: Seq<Seq<char>>) -> Seq<Seq<char>> {
    ws.filter(|w: Seq<char>| short_enough(w)).map_values(|w: Seq<char>| folded_stem(w))
}

/// The tokens of raw text.
pub open spec fn tokens_of(raw: Seq<char>) -> Seq<Seq<char>> {
    normalize_words(words(html_text_of(raw)))
}

/// The character sequences of a list of strings.
pub open spec fn texts(v: Seq<String>) -> Seq<Seq<char>> {
    v.map_values(|t: String| t@)
}

/// Relies on scraper's `Html::parse_fragment` and the `text` iterator of its
/// root element: the text nodes of the fragment, joined. The result depends
/// on the input alone; an empty input has no text.
#[verifier::external_body]
fn html_text(raw: &str) -> (r: String)
    ensures
        r@ == html_text_of(raw@),
        raw@.len() == 0 ==> r@.len() == 0,
{
    let fragment = Html::parse_fragment(raw);
    fragment.root_element().text().collect::<String>()
}

/// Relies on `char::is_alphanumeric`: alphabetic or numeric, which among
/// ASCII characters are the letters and the digits.
#[verifier::external_body]
fn is_alphanumeric(c: char) -> (r: bool)
    ensures
        r == alphanumeric(c),
        (c as u32) < 128 ==> (r <==> ('a' <= c <= 'z' || 'A' <= c <= 'Z' || '0' <= c <= '9')),
{
    c.is_alphanumeric()
}

/// Relies on tantivy's `LowerCaser` followed by its English `Stemmer`, run
/// over the word as the one token that `RawTokenizer` emits. The result
/// depends on the word alone.
#[verifier::external_body]
fn fold_and_stem(word: &str) -> (r: String)
    ensures
        r@ == folded_stem(word@),
{
    let mut analyzer = TextAnalyzer::builder(RawTokenizer::default())
        .filter(LowerCaser)
        .filter(Stemmer::new(Language::English))
        .build();
    let mut stream = analyzer.token_stream(word);
    match stream.next() {
        Some(token) => token.text.clone(),
        None => String::new(),
    }
}

/// The characters of `s`, in order.
fn chars_of(s: &str) -> (r: Vec<char>)
    ensures
        r@ == s@,
{
    let mut it = s.chars();
    let mut out: Vec<char> = Vec::new();
    loop
        invariant
            out@ + IteratorSpec::remaining(&it) == s@,
            IteratorSpec::obeys_prophetic_iter_laws(&it),
            IteratorSpec::decrease(&it) is Some,
        ensures
            out@ == s@,
        decreases IteratorSpec::decrease(&it)->0,
    {
        let ghost before = IteratorSpec::remaining(&it);
        match it.next() {
            Some(c) => {
                out.push(c);
                assert(out@ + IteratorSpec::remaining(&it) =~= s@) by {
                    assert(before[0] == c);
                    assert(before =~= seq![c] + before.drop_first());
                }
            },
            None => {
                assert(out@ =~= s@);
                break ;
            },
        }
    }
    out
}

/// Relies on `String: FromIterator<char>`: the characters, in order.
#[verifier::external_body]
fn string_of(cs: &Vec<char>) -> (r: String)
    ensures
        r@ == cs@,
{
    cs.iter().collect()
}

proof fn lemma_normalize_push(ws: Seq<Seq<char>>, w: Seq<char>)
    ensures
        normalize_words(ws.push(w)) == if short_enough(w) {
            normalize_words(ws).push(folded_stem(w))
        } else {
            normalize_words(ws)
        },
{
    let f = |x: Seq<char>| short_enough(x);
    assert(ws.push(w).drop_last() =~= ws);
    assert(ws.push(w).last() == w);
    reveal_with_fuel(Seq::filter, 1);
    let kept = ws.filter(f);
    if short_enough(w) {
        assert(ws.push(w).filter(f) =~= kept.push(w));
        assert(kept.push(w).map_values(|x: Seq<char>| folded_stem(x)) =~= kept.map_values(
            |x: Seq<char>| folded_stem(x),
        ).push(folded_stem(w)));
    } else {
        assert(ws.push(w).filter(f) =~= kept);
    }
}

/// Turns a finished word into its token, when the length filter keeps it.
fn emit_word(cur: &Vec<char>, out: &mut Vec<String>)
    requires
        cur@.len() > 0,
    ensures
        texts(final(out)@) == if short_enough(cur@) {
            texts(old(out)@).push(folded_stem(cur@))
        } else {
            texts(old(out)@)
        },
{
    if cur.len() <= MAX_TOKEN_CHARS {
        let word = string_of(cur);
        let token = fold_and_stem(word.as_str());
        out.push(token);
        assert(texts(out@) =~= texts(old(out)@).push(folded_stem(cur@)));
    }
}

/// Splits already extracted text into normalized tokens.
pub fn tokenize_text(text: &str) -> (r: Vec<String>)
    ensures
        texts(r@) == normalize_words(words(text@)),
{
    let cs = chars_of(text);
    let mut out: Vec<String> = Vec::new();
    let mut cur: Vec<char> = Vec::new();
    let ghost mut done: Seq<Seq<char>> = Seq::empty();
    let mut i: usize = 0;
    assert(cs@.take(0) =~= Seq::<char>::empty());
    while i < cs.len()
        invariant
            i <= cs@.len(),
            cs@ == text@,
            scan_words(cs@.take(i as int)) == (done, cur@),
            texts(out@) == normalize_words(done),
        decreases cs.len() - i,
    {
        let c = cs[i];
        assert(cs@.take(i as int + 1).drop_last() =~= cs@.take(i as int));
        assert(cs@.take(i as int + 1).last() == c);
        if is_alphanumeric(c) {
            cur.push(c);
        } else {
            if cur.len() > 0 {
                proof {
                    lemma_normalize_push(done, cur@);
                }
                emit_word(&cur, &mut out);
                proof {
                    done = done.push(cur@);
                }
            }
            cur = Vec::new();
        }
        i = i + 1;
    }
    assert(cs@.take(cs@.len() as int) =~= cs@);
    if cur.len() > 0 {
        proof {
            lemma_normalize_push(done, cur@);
        }
        emit_word(&cur, &mut out);
    }
    out
}

/// The token sequence of raw text that may hold HTML markup.
pub fn tokenize(raw: &str) -> (r: Vec<String>)
    ensures
        texts(r@) == tokens_of(raw@),
        raw@.len() == 0 ==> r@.len() == 0,
{
    let text = html_text(raw);
    let r = tokenize_text(text.as_str());
    proof {
        if raw@.len() == 0 {
            assert(text@ =~= Seq::<char>::empty());
            lemma_empty_text_has_no_tokens();
            assert(texts(r@).len() == r@.len());
        }
    }
    r
}

/// Empty input has no tokens.
pub proof fn lemma_empty_text_has_no_tokens()
    ensures
        normalize_words(words(Seq::empty())) == Seq::<Seq<char>>::empty(),
{
    reveal_with_fuel(scan_words, 1);
    assert(Seq::<Seq<char>>::empty().filter(|w: Seq<char>| short_enough(w)) =~= Seq::empty());
    assert(normalize_words(Seq::empty()) =~= Seq::empty());
}

} // verus!
