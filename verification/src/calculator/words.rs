//! Splitting a line into its words.

use vstd::prelude::*;
use vstd::string::*;

verus! {

/// The characters that separate words: those with the Unicode property
/// White_Space.
pub open spec fn white_space(c: char) -> bool {
    let u = c as u32;
    ||| 0x09 <= u <= 0x0D
    ||| u == 0x20
    ||| u == 0x85
    ||| u == 0xA0
    ||| u == 0x1680
    ||| 0x2000 <= u <= 0x200A
    ||| u == 0x2028
    ||| u == 0x2029
    ||| u == 0x202F
    ||| u == 0x205F
    ||| u == 0x3000
}

/// Tells whether a character separates words.
pub fn is_whitespace(c: char) -> (r: bool)
    ensures
        r == white_space(c),
{
    let u: u32 = c as u32;
    (0x09 <= u && u <= 0x0D) || u == 0x20 || u == 0x85 || u == 0xA0 || u == 0x1680 || (0x2000 <= u
        && u <= 0x200A) || u == 0x2028 || u == 0x2029 || u == 0x202F || u == 0x205F || u == 0x3000
}

/// How many items of `s` are left from position `i` on.
pub open spec fn remaining<T>(s: Seq<T>, i: int) -> nat {
    if i < s.len() {
        (s.len() - i) as nat
    } else {
        0
    }
}

/// The length of the longest run of characters of `s` that starts at
/// position `i` and holds no white space.
pub open spec fn word_len(s: Seq<char>, i: int) -> nat
    decreases remaining(s, i),
{
    if 0 <= i < s.len() && !white_space(s[i]) {
        1 + word_len(s, i + 1)
    } else {
        0
    }
}

/// The words of `s` from position `i` on, in order: white space is skipped,
/// and each word is a longest run without white space.
pub open spec fn words_from(s: Seq<char>, i: int) -> Seq<Seq<char>>
    decreases remaining(s, i),
{
    if !(0 <= i < s.len()) {
        Seq::empty()
    } else if white_space(s[i]) {
        words_from(s, i + 1)
    } else {
        seq![s.subrange(i, i + word_len(s, i))] + words_from(s, i + word_len(s, i))
    }
}

/// The words of a line.
pub open spec fn words(s: Seq<char>) -> Seq<Seq<char>> {
    words_from(s, 0)
}

/// The characters of each of the given texts.
pub open spec fn texts(v: Seq<&str>) -> Seq<Seq<char>> {
    Seq::new(v.len(), |i: int| v[i]@)
}

/// A run without white space ends inside the sequence, at white space or at
/// the end.
pub proof fn lemma_word_len(s: Seq<char>, i: int)
    requires
        0 <= i <= s.len(),
    ensures
        i + word_len(s, i) <= s.len(),
        forall|k: int| i <= k < i + word_len(s, i) ==> !white_space(#[trigger] s[k]),
        i + word_len(s, i) < s.len() ==> white_space(s[i + word_len(s, i)]),
    decreases s.len() - i,
{
    if i < s.len() && !white_space(s[i]) {
        lemma_word_len(s, i + 1);
    }
}

/// No word is empty and no word holds white space.
pub proof fn lemma_words_are_solid(s: Seq<char>, i: int)
    requires
        0 <= i <= s.len(),
    ensures
        forall|k: int|
            0 <= k < words_from(s, i).len() ==> (#[trigger] words_from(s, i)[k]).len() > 0,
        forall|k: int, j: int|
            0 <= k < words_from(s, i).len() && 0 <= j < words_from(s, i)[k].len()
                ==> !white_space(#[trigger] words_from(s, i)[k][j]),
    decreases s.len() - i,
{
    if i < s.len() {
        if white_space(s[i]) {
            lemma_words_are_solid(s, i + 1);
            assert(words_from(s, i) == words_from(s, i + 1));
        } else {
            let n = word_len(s, i);
            lemma_word_len(s, i);
            lemma_words_are_solid(s, i + n);
            let first = s.subrange(i, i + n);
            let rest = words_from(s, i + n);
            let all = words_from(s, i);
            assert(all == seq![first] + rest);
            assert forall|k: int| 0 <= k < all.len() implies (#[trigger] all[k]).len() > 0 by {
                if k > 0 {
                    assert(all[k] == rest[k - 1]);
                }
            }
            assert forall|k: int, j: int| 0 <= k < all.len() && 0 <= j < all[k].len() implies 
                !white_space(#[trigger] all[k][j]) by {
                if k > 0 {
                    assert(all[k] == rest[k - 1]);
                } else {
                    assert(first[j] == s[i + j]);
                }
            }
        }
    } else {
        assert(words_from(s, i) == Seq::<Seq<char>>::empty());
    }
}

/// The characters of a text, one by one.
fn characters(text: &str) -> (chars: Vec<char>)
    ensures
        chars@ == text@,
{
    let mut chars: Vec<char> = Vec::new();
    for c in it: text.chars()
        invariant
            it.seq() == text@,
            chars@ == it.seq().take(it.index() as int),
    {
        chars.push(c);
    }
    chars
}

/// Splits a line into its words, in order.
pub fn split_words(text: &str) -> (found: Vec<&str>)
    ensures
        texts(found@) == words(text@),
        forall|k: int| 0 <= k < found.len() ==> (#[trigger] found[k])@.len() > 0,
        forall|k: int, j: int|
            0 <= k < found.len() && 0 <= j < found[k]@.len() ==> !white_space(
                #[trigger] found[k]@[j],
            ),
{
    proof {
        lemma_words_are_solid(text@, 0);
    }
    let chars = characters(text);
    let len = chars.len();
    let mut found: Vec<&str> = Vec::new();
    let mut i: usize = 0;
    while i < len
        invariant
            chars@ == text@,
            len == chars@.len(),
            i <= len,
            words(text@) == texts(found@) + words_from(text@, i as int),
        decreases len - i,
    {
        if is_whitespace(chars[i]) {
            i += 1;
        } else {
            let start = i;
            while i < len && !is_whitespace(chars[i])
                invariant
                    chars@ == text@,
                    len == chars@.len(),
                    start <= i <= len,
                    word_len(text@, start as int) == (i - start) + word_len(text@, i as int),
                decreases len - i,
            {
                i += 1;
            }
            let word = text.substring_char(start, i);
            proof {
                let before = texts(found@);
                let after = texts(found@.push(word));
                assert(after == before + seq![word@]);
                assert(before + (seq![word@] + words_from(text@, i as int)) == (before
                    + seq![word@]) + words_from(text@, i as int));
            }
            found.push(word);
        }
    }
    assert(words_from(text@, i as int) == Seq::<Seq<char>>::empty());
    assert forall|k: int| 0 <= k < found.len() implies (#[trigger] found[k])@ == words(text@)[k] by {
        assert(texts(found@)[k] == found[k]@);
    }
    found
}

} // verus!
