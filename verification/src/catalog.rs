//! The word catalog: the words are normalized, validated in one batch and
//! put in the order in which they are placed.

use crate::alphabet::is_capital;
use crate::error::GenerationError;
use itertools::Itertools;
use regex::Regex;
use vstd::prelude::*;

verus! {

/// The upper-case form of a text, as `str::to_uppercase` computes it.
pub uninterp spec fn uppercase_of(text: Seq<char>) -> Seq<char>;

/// The texts of a list of string slices.
pub open spec fn slice_texts(words: Seq<&str>) -> Seq<Seq<char>> {
    Seq::new(words.len(), |i: int| words[i]@)
}

/// The texts of a list of strings.
pub open spec fn texts(words: Seq<String>) -> Seq<Seq<char>> {
    Seq::new(words.len(), |i: int| words[i]@)
}

/// The words that take part: the empty ones are dropped, the others are
/// put in upper case. The order of the list is kept.
pub open spec fn normalized(raw: Seq<Seq<char>>) -> Seq<Seq<char>> {
    raw.filter(|w: Seq<char>| w.len() > 0).map_values(|w: Seq<char>| uppercase_of(w))
}

/// Whether at least one letter of the word is a capital from `A` to `Z`.
pub open spec fn has_capital(word: Seq<char>) -> bool {
    exists|i: int| 0 <= i < word.len() && is_capital(#[trigger] word[i])
}

/// The words without a capital letter, in the order of the list.
pub open spec fn invalid_words(words: Seq<Seq<char>>) -> Seq<Seq<char>> {
    words.filter(|w: Seq<char>| !has_capital(w))
}

/// The words with more than `size` letters, in the order of the list.
pub open spec fn oversize_words(words: Seq<Seq<char>>, size: int) -> Seq<Seq<char>> {
    words.filter(|w: Seq<char>| w.len() > size)
}

/// The dictionary order of two texts: at the first place where they
/// differ the smaller character decides, and a text comes before each of
/// its extensions.
pub open spec fn precedes(a: Seq<char>, b: Seq<char>) -> bool
    decreases a.len(),
{
    if a.len() == 0 {
        true
    } else if b.len() == 0 {
        false
    } else if a[0] != b[0] {
        a[0] < b[0]
    } else {
        precedes(a.drop_first(), b.drop_first())
    }
}

/// Each word comes before, or equals, every later one.
pub open spec fn is_ascending(words: Seq<Seq<char>>) -> bool {
    forall|i: int, j: int| 0 <= i < j < words.len() ==> precedes(#[trigger] words[i], #[trigger] words[j])
}

/// Each word comes after, or equals, every later one.
pub open spec fn is_descending(words: Seq<Seq<char>>) -> bool {
    forall|i: int, j: int| 0 <= i < j < words.len() ==> precedes(#[trigger] words[j], #[trigger] words[i])
}

/// Whether `queue` is the processing queue of the raw word list: the
/// normalized words, each as often as it occurs there, in descending
/// dictionary order.
pub open spec fn is_queue_of(queue: Seq<Seq<char>>, raw: Seq<Seq<char>>) -> bool {
    &&& is_descending(queue)
    &&& queue.to_multiset() == normalized(raw).to_multiset()
}

/// Calls `str::to_uppercase`. The result is named, not described: it is
/// the upper-case mapping of Unicode, applied to the text of `word`.
#[verifier::external_body]
fn uppercase(word: &str) -> (upper: String)
    ensures
        upper@ == uppercase_of(word@),
{
    word.to_uppercase()
}

/// Calls `regex::Regex::new` on `pattern` and `Regex::is_match` on `text`.
/// The pattern is the character class of the capitals, repeated at least
/// once; it compiles, and it matches somewhere in a text exactly if the
/// text holds a capital letter.
#[verifier::external_body]
fn matches_somewhere(pattern: &str, text: &str) -> (found: bool)
    requires
        pattern@ == "[A-Z]+"@,
    ensures
        found == has_capital(text@),
{
    Regex::new(pattern).unwrap().is_match(text)
}

/// Calls `itertools::Itertools::sorted` on the words, which sorts them in
/// ascending order with the order of `String`: byte by byte, which is the
/// order of the characters' code points. The result holds the same words,
/// each as often as before.
#[verifier::external_body]
fn sorted_ascending(words: Vec<String>) -> (sorted: Vec<String>)
    ensures
        texts(sorted@).to_multiset() == texts(words@).to_multiset(),
        is_ascending(texts(sorted@)),
{
    words.into_iter().sorted().collect()
}

/// Calls `String::from_iter` on the characters. The string holds them, in
/// their order.
#[verifier::external_body]
pub(crate) fn string_of(letters: &Vec<char>) -> (text: String)
    ensures
        text@ == letters@,
{
    String::from_iter(letters.iter())
}

/// Whether the word holds a capital letter.
pub fn contains_capital(word: &str) -> (found: bool)
    ensures
        found == has_capital(word@),
{
    matches_somewhere("[A-Z]+", word)
}

/// The letters of a word, one by one.
pub fn letters_of(word: &str) -> (letters: Vec<char>)
    ensures
        letters@ == word@,
{
    let mut letters: Vec<char> = Vec::new();
    for c in it: word.chars()
        invariant
            letters@ == it.seq().take(it.index() as int),
    {
        letters.push(c);
    }
    letters
}

/// What one more raw word adds to the normalized list.
proof fn lemma_normalized_push(raw: Seq<Seq<char>>, word: Seq<char>)
    ensures
        normalized(raw.push(word)) == if word.len() > 0 {
            normalized(raw).push(uppercase_of(word))
        } else {
            normalized(raw)
        },
{
    let keep = |w: Seq<char>| w.len() > 0;
    let raise = |w: Seq<char>| uppercase_of(w);
    raw.lemma_filter_push(word, keep);
    if word.len() > 0 {
        assert(raw.filter(keep).push(word).map_values(raise) =~= raw.filter(keep).map_values(
            raise,
        ).push(uppercase_of(word)));
    }
}

/// Drops the empty words and puts the others in upper case.
pub fn normalize(words: &[&str]) -> (list: Vec<String>)
    ensures
        texts(list@) == normalized(slice_texts(words@)),
{
    let mut list: Vec<String> = Vec::new();
    let mut i: usize = 0;
    assert(slice_texts(words@.take(0)) =~= Seq::<Seq<char>>::empty());
    assert(texts(list@) =~= normalized(slice_texts(words@.take(0))));
    while i < words.len()
        invariant
            i <= words@.len(),
            texts(list@) == normalized(slice_texts(words@.take(i as int))),
        decreases words@.len() - i,
    {
        let word: &str = words[i];
        proof {
            assert(slice_texts(words@.take(i + 1)) =~= slice_texts(words@.take(i as int)).push(
                word@,
            ));
            lemma_normalized_push(slice_texts(words@.take(i as int)), word@);
        }
        if !word.is_empty() {
            let ghost before = list@;
            let upper: String = uppercase(word);
            list.push(upper);
            assert(texts(list@) =~= texts(before).push(uppercase_of(word@)));
        }
        i = i + 1;
    }
    assert(words@.take(words@.len() as int) =~= words@);
    list
}

/// Checks every word of the normalized list and reports all offenders at
/// once: the words without a capital letter and the words that are longer
/// than the grid is wide.
pub fn validate(words: &Vec<String>, size: i64) -> (outcome: Result<(), GenerationError>)
    ensures
        outcome is Ok <==> invalid_words(texts(words@)).len() == 0 && oversize_words(
            texts(words@),
            size as int,
        ).len() == 0,
        outcome is Err ==> outcome->Err_0 is Validation,
        outcome is Err ==> texts(outcome->Err_0->invalid@) == invalid_words(texts(words@)),
        outcome is Err ==> texts(outcome->Err_0->oversize@) == oversize_words(
            texts(words@),
            size as int,
        ),
{
    let mut invalid: Vec<String> = Vec::new();
    let mut oversize: Vec<String> = Vec::new();
    let ghost all = texts(words@);
    let ghost lacks = |w: Seq<char>| !has_capital(w);
    let ghost exceeds = |w: Seq<char>| w.len() > size as int;
    let mut i: usize = 0;
    assert(all.take(0) =~= Seq::<Seq<char>>::empty());
    assert(texts(invalid@) =~= all.take(0).filter(lacks));
    assert(texts(oversize@) =~= all.take(0).filter(exceeds));
    while i < words.len()
        invariant
            i <= words@.len(),
            all == texts(words@),
            lacks == |w: Seq<char>| !has_capital(w),
            exceeds == |w: Seq<char>| w.len() > size as int,
            texts(invalid@) == all.take(i as int).filter(lacks),
            texts(oversize@) == all.take(i as int).filter(exceeds),
        decreases words@.len() - i,
    {
        let word: &String = &words[i];
        proof {
            assert(all.take(i + 1) =~= all.take(i as int).push(word@));
            all.take(i as int).lemma_filter_push(word@, lacks);
            all.take(i as int).lemma_filter_push(word@, exceeds);
        }
        let length: usize = word.as_str().unicode_len();
        if size < 0 || length as u64 > size as u64 {
            let ghost before = oversize@;
            oversize.push(word.clone());
            assert(texts(oversize@) =~= texts(before).push(word@));
        }
        if !contains_capital(word.as_str()) {
            let ghost before = invalid@;
            invalid.push(word.clone());
            assert(texts(invalid@) =~= texts(before).push(word@));
        }
        i = i + 1;
    }
    assert(all.take(words@.len() as int) =~= all);
    if invalid.len() == 0 && oversize.len() == 0 {
        Ok(())
    } else {
        Err(GenerationError::Validation { invalid, oversize })
    }
}

/// Puts the words in the order in which they are placed: descending
/// dictionary order.
pub fn order(words: Vec<String>) -> (queue: Vec<String>)
    ensures
        is_descending(texts(queue@)),
        texts(queue@).to_multiset() == texts(words@).to_multiset(),
{
    let ascending: Vec<String> = sorted_ascending(words);
    let count: usize = ascending.len();
    let mut queue: Vec<String> = Vec::new();
    let mut i: usize = count;
    while i > 0
        invariant
            count == ascending@.len(),
            i <= count,
            queue@.len() == count - i,
            forall|k: int| 0 <= k < queue@.len() ==> (#[trigger] queue@[k])@ == ascending@[count - 1 - k]@,
        decreases i,
    {
        i = i - 1;
        queue.push(ascending[i].clone());
    }
    proof {
        assert(texts(queue@) =~= texts(ascending@).reverse());
        texts(ascending@).lemma_reverse_to_multiset();
        assert forall|a: int, b: int| 0 <= a < b < texts(queue@).len() implies precedes(
            #[trigger] texts(queue@)[b],
            #[trigger] texts(queue@)[a],
        ) by {
            assert(precedes(texts(ascending@)[count - 1 - b], texts(ascending@)[count - 1 - a]));
        }
    }
    queue
}

} // verus!
