//! Splitting a line of source text into whitespace-separated words.

use vstd::prelude::*;

verus! {

/// The characters that separate words: the code points with the Unicode
/// property `White_Space`.
pub open spec fn is_space(c: char) -> bool {
    let u = c as u32;
    ||| 0x09 <= u <= 0x0D
    ||| u == 0x20
    ||| u == 0x85
    ||| u == 0xA0
    ||| u == 0x1680
    ||| 0x2000 <= u <= 0x200A
    ||| u == 0x2028
    ||| u == 0x2029
    ||| u == 0x202F
    ||| u == 0x205F
    ||| u == 0x3000
}

/// No character of `w` separates words.
pub open spec fn space_free(w: Seq<char>) -> bool {
    forall|i: int| 0 <= i < w.len() ==> !is_space(#[trigger] w[i])
}

/// The words of `s`: its maximal runs of characters that are not spaces, from
/// left to right. Read from the right end: a space adds nothing, a character
/// that follows a word character extends the last word, any other character
/// starts a new word.
pub open spec fn tokens(s: Seq<char>) -> Seq<Seq<char>>
    decreases s.len(),
{
    if s.len() == 0 {
        Seq::empty()
    } else {
        let before = tokens(s.drop_last());
        let c = s.last();
        if is_space(c) {
            before
        } else if s.len() >= 2 && !is_space(s[s.len() - 2]) && before.len() > 0 {
            before.drop_last().push(before.last().push(c))
        } else {
            before.push(seq![c])
        }
    }
}

/// The words that a vector of character vectors holds.
pub open spec fn words_of(v: Seq<Vec<char>>) -> Seq<Seq<char>> {
    Seq::new(v.len(), |i: int| v[i]@)
}

/// Whether `s` begins with `prefix`.
pub open spec fn starts_with(s: Seq<char>, prefix: Seq<char>) -> bool {
    prefix.len() <= s.len() && s.take(prefix.len() as int) == prefix
}

pub fn char_is_space(c: char) -> (b: bool)
    ensures
        b == is_space(c),
{
    let u: u32 = c as u32;
    (0x09 <= u && u <= 0x0D) || u == 0x20 || u == 0x85 || u == 0xA0 || u == 0x1680 || (0x2000 <= u
        && u <= 0x200A) || u == 0x2028 || u == 0x2029 || u == 0x202F || u == 0x205F || u == 0x3000
}

/// Every word of a text has at least one character and holds no space, and
/// a text that ends in a word character has at least one word.
pub proof fn lemma_tokens_are_words(s: Seq<char>)
    ensures
        forall|i: int|
            0 <= i < tokens(s).len() ==> (#[trigger] tokens(s)[i]).len() > 0 && space_free(
                tokens(s)[i],
            ),
        s.len() > 0 && !is_space(s.last()) ==> tokens(s).len() > 0,
    decreases s.len(),
{
    if s.len() > 0 {
        lemma_tokens_are_words(s.drop_last());
        let before = tokens(s.drop_last());
        let c = s.last();
        if !is_space(c) {
            if s.len() >= 2 && !is_space(s[s.len() - 2]) && before.len() > 0 {
                let word = before.last().push(c);
                assert(space_free(before.last()));
                assert forall|j: int| 0 <= j < word.len() implies !is_space(#[trigger] word[j]) by {
                    if j < before.last().len() {
                        assert(word[j] == before.last()[j]);
                    }
                }
                assert forall|i: int| 0 <= i < tokens(s).len() implies (#[trigger] tokens(
                    s,
                )[i]).len() > 0 && space_free(tokens(s)[i]) by {
                    if i < before.len() - 1 {
                        assert(tokens(s)[i] == before[i]);
                    }
                }
            } else {
                assert forall|i: int| 0 <= i < tokens(s).len() implies (#[trigger] tokens(
                    s,
                )[i]).len() > 0 && space_free(tokens(s)[i]) by {
                    if i < before.len() {
                        assert(tokens(s)[i] == before[i]);
                    }
                }
            }
        }
    }
}

/// A space at the end of a text adds no word.
pub proof fn lemma_tokens_space(s: Seq<char>, c: char)
    requires
        is_space(c),
    ensures
        tokens(s.push(c)) == tokens(s),
{
    assert(s.push(c).drop_last() =~= s);
}

/// A word written after a text that is empty or ends in a space is the last
/// word of the whole, and the words before it are those of the text.
pub proof fn lemma_tokens_word(s: Seq<char>, w: Seq<char>)
    requires
        s.len() == 0 || is_space(s.last()),
        w.len() > 0,
        space_free(w),
    ensures
        tokens(s + w) == tokens(s).push(w),
    decreases w.len(),
{
    let whole = s + w;
    let c = w.last();
    assert(whole.last() == c);
    assert(!is_space(c));
    if w.len() == 1 {
        assert(whole.drop_last() =~= s);
        assert(w =~= seq![c]);
        if s.len() > 0 {
            assert(whole[whole.len() - 2] == s.last());
        }
    } else {
        let shorter = w.drop_last();
        assert(space_free(shorter));
        lemma_tokens_word(s, shorter);
        assert(whole.drop_last() =~= s + shorter);
        assert(whole[whole.len() - 2] == shorter.last());
        assert(!is_space(shorter.last()));
        let before = tokens(s).push(shorter);
        assert(before.drop_last() =~= tokens(s));
        assert(before.last().push(c) =~= w);
    }
}

/// The words of three words written with one blank between them.
pub proof fn lemma_tokens_three(a: Seq<char>, b: Seq<char>, c: Seq<char>)
    requires
        a.len() > 0,
        b.len() > 0,
        c.len() > 0,
        space_free(a),
        space_free(b),
        space_free(c),
    ensures
        tokens(a + seq![' '] + b + seq![' '] + c) == seq![a, b, c],
{
    let none = Seq::<char>::empty();
    lemma_tokens_word(none, a);
    assert(none + a =~= a);
    assert(tokens(none) =~= Seq::<Seq<char>>::empty());
    lemma_tokens_space(a, ' ');
    assert(a + seq![' '] =~= a.push(' '));
    lemma_tokens_word(a + seq![' '], b);
    lemma_tokens_space(a + seq![' '] + b, ' ');
    assert(a + seq![' '] + b + seq![' '] =~= (a + seq![' '] + b).push(' '));
    lemma_tokens_word(a + seq![' '] + b + seq![' '], c);
    assert(tokens(a + seq![' '] + b + seq![' '] + c) =~= seq![a, b, c]);
}

/// The characters of `text`, one by one.
pub fn to_chars(text: &str) -> (chars: Vec<char>)
    ensures
        chars@ == text@,
{
    let mut chars: Vec<char> = Vec::new();
    for c in it: text.chars()
        invariant
            it.seq() == text@,
            chars@ == text@.take(it.index@),
    {
        chars.push(c);
        assert(text@.take(it.index@ + 1) =~= text@.take(it.index@).push(c));
    }
    assert(text@.take(text@.len() as int) =~= text@);
    chars
}

/// Splits `raw` into its words.
pub fn split_words(raw: &str) -> (words: Vec<Vec<char>>)
    ensures
        words_of(words@) == tokens(raw@),
{
    let mut done: Vec<Vec<char>> = Vec::new();
    let mut cur: Vec<char> = Vec::new();
    assert(words_of(done@) =~= Seq::<Seq<char>>::empty());
    for c in it: raw.chars()
        invariant
            it.seq() == raw@,
            cur@.len() > 0 <==> (it.index@ > 0 && !is_space(raw@[it.index@ - 1])),
            tokens(raw@.take(it.index@)) == (if cur@.len() > 0 {
                words_of(done@).push(cur@)
            } else {
                words_of(done@)
            }),
    {
        let ghost i = it.index@;
        let ghost before = words_of(done@);
        proof {
            assert(raw@.take(i + 1).drop_last() =~= raw@.take(i));
            assert(raw@.take(i + 1).last() == c);
            if i > 0 {
                assert(raw@.take(i + 1)[i - 1] == raw@[i - 1]);
            }
        }
        if char_is_space(c) {
            if cur.len() > 0 {
                let ghost word = cur@;
                done.push(cur);
                cur = Vec::new();
                assert(words_of(done@) =~= before.push(word));
            }
        } else {
            let ghost word = cur@;
            cur.push(c);
            proof {
                let t = raw@.take(i + 1);
                if word.len() > 0 {
                    assert(before.push(word).drop_last() =~= before);
                    assert(before.push(word).last() == word);
                    assert(t.len() >= 2 && !is_space(t[t.len() - 2]));
                    assert(tokens(t) == before.push(word.push(c)));
                } else {
                    assert(cur@ =~= seq![c]);
                    assert(tokens(t) == before.push(seq![c]));
                }
            }
        }
    }
    assert(raw@.take(raw@.len() as int) =~= raw@);
    if cur.len() > 0 {
        let ghost before = words_of(done@);
        let ghost word = cur@;
        done.push(cur);
        assert(words_of(done@) =~= before.push(word));
    }
    done
}

/// Whether `word` spells exactly `text`.
pub fn word_is(word: &Vec<char>, text: &str) -> (b: bool)
    ensures
        b == (word@ == text@),
{
    let n = word.len();
    let mut i: usize = 0;
    for c in it: text.chars()
        invariant
            it.seq() == text@,
            n == word@.len(),
            i == it.index@,
            i <= n,
            word@.take(i as int) == text@.take(i as int),
    {
        if i >= n || word[i] != c {
            assert(word@ != text@) by {
                if word@ == text@ {
                    assert(word@[i as int] == text@[i as int]);
                }
            }
            return false;
        }
        assert(word@.take(i + 1) =~= word@.take(i as int).push(word@[i as int]));
        assert(text@.take(i + 1) =~= text@.take(i as int).push(text@[i as int]));
        i = i + 1;
    }
    assert(text@.take(i as int) =~= text@);
    assert(word@.take(n as int) =~= word@);
    i == n
}

} // verus!
