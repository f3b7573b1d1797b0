//! Words: the runs of characters between white space.

use crate::text::number::chars_of;
use vstd::prelude::*;

verus! {

/// The characters with the Unicode property `White_Space`.
pub open spec fn is_white_space(c: char) -> bool {
    let code = c as u32;
    ||| 0x9 <= code <= 0xd
    ||| code == 0x20
    ||| code == 0x85
    ||| code == 0xa0
    ||| code == 0x1680
    ||| 0x2000 <= code <= 0x200a
    ||| code == 0x2028
    ||| code == 0x2029
    ||| code == 0x202f
    ||| code == 0x205f
    ||| code == 0x3000
}

/// Nothing but white space.
pub open spec fn is_blank(s: Seq<char>) -> bool {
    forall|i: int| 0 <= i < s.len() ==> is_white_space(#[trigger] s[i])
}

/// The length of the run of characters at the front of `s` that are not white space.
pub open spec fn word_len(s: Seq<char>) -> nat
    decreases s.len(),
{
    if s.len() == 0 || is_white_space(s[0]) {
        0
    } else {
        1 + word_len(s.skip(1))
    }
}

/// The words of `s`, from left to right.
pub open spec fn words(s: Seq<char>) -> Seq<Seq<char>>
    decreases s.len(),
{
    if s.len() == 0 {
        seq![]
    } else if is_white_space(s[0]) {
        words(s.skip(1))
    } else {
        proof {
            lemma_word_len(s);
        }
        seq![s.take(word_len(s) as int)] + words(s.skip(word_len(s) as int))
    }
}

/// The texts of a list of strings.
pub open spec fn texts(v: Seq<String>) -> Seq<Seq<char>> {
    v.map_values(|w: String| w@)
}

fn white_space(c: char) -> (r: bool)
    ensures
        r == is_white_space(c),
{
    let code: u32 = c as u32;
    (0x9 <= code && code <= 0xd) || code == 0x20 || code == 0x85 || code == 0xa0 || code == 0x1680
        || (0x2000 <= code && code <= 0x200a) || code == 0x2028 || code == 0x2029 || code == 0x202f
        || code == 0x205f || code == 0x3000
}

/// Where the word that begins at `from` ends.
proof fn lemma_word_end(s: Seq<char>, from: int, end: int)
    requires
        0 <= from <= end <= s.len(),
        forall|i: int| from <= i < end ==> !is_white_space(#[trigger] s[i]),
        end == s.len() || is_white_space(s[end]),
    ensures
        word_len(s.skip(from)) == end - from,
    decreases end - from,
{
    if from < end {
        assert(s.skip(from).skip(1) =~= s.skip(from + 1));
        lemma_word_end(s, from + 1, end);
    }
}

/// Splits a line into its words.
pub fn split_words(line: &str) -> (tokens: Vec<String>)
    ensures
        texts(tokens@) == words(line@),
{
    let chars: Vec<char> = chars_of(line);
    let mut tokens: Vec<String> = Vec::new();
    let mut i: usize = 0;
    assert(line@.skip(0) =~= line@);
    assert(texts(tokens@) + words(line@) =~= words(line@));
    while i < chars.len()
        invariant
            chars@ == line@,
            i <= chars.len(),
            texts(tokens@) + words(line@.skip(i as int)) == words(line@),
        decreases chars.len() - i,
    {
        let ghost rest = line@.skip(i as int);
        if white_space(chars[i]) {
            assert(rest.skip(1) =~= line@.skip(i + 1));
            i += 1;
        } else {
            let from: usize = i;
            while i < chars.len() && !white_space(chars[i])
                invariant
                    chars@ == line@,
                    from <= i <= chars.len(),
                    forall|k: int| from <= k < i ==> !is_white_space(#[trigger] line@[k]),
                decreases chars.len() - i,
            {
                i += 1;
            }
            let word: String = line.substring_char(from, i).to_owned();
            proof {
                lemma_word_end(line@, from as int, i as int);
                assert(rest.take(i - from) =~= line@.subrange(from as int, i as int));
                assert(rest.skip(i - from) =~= line@.skip(i as int));
            }
            let ghost before = tokens@;
            tokens.push(word);
            proof {
                assert(word_len(rest) > 0) by {
                    assert(!is_white_space(rest[0]));
                }
                assert(texts(tokens@) =~= texts(before).push(word@));
                assert(texts(tokens@) + words(line@.skip(i as int)) =~= texts(before) + words(rest));
            }
        }
    }
    assert(line@.skip(i as int) =~= Seq::empty());
    assert(texts(tokens@) + words(line@.skip(i as int)) =~= texts(tokens@));
    tokens
}

/// The first word lies within the text and holds no white space.
pub proof fn lemma_word_len(s: Seq<char>)
    ensures
        word_len(s) <= s.len(),
        forall|i: int| 0 <= i < word_len(s) ==> !is_white_space(#[trigger] s[i]),
    decreases s.len(),
{
    if s.len() > 0 && !is_white_space(s[0]) {
        let t = s.skip(1);
        lemma_word_len(t);
        assert forall|i: int| 0 <= i < word_len(s) implies !is_white_space(#[trigger] s[i]) by {
            if i > 0 {
                assert(s[i] == t[i - 1]);
            }
        }
    }
}

/// A line has no words exactly when it is blank.
pub proof fn law_blank_has_no_words(s: Seq<char>)
    ensures
        words(s).len() == 0 <==> is_blank(s),
    decreases s.len(),
{
    if s.len() > 0 {
        if is_white_space(s[0]) {
            let t = s.skip(1);
            law_blank_has_no_words(t);
            if is_blank(t) {
                assert forall|i: int| 0 <= i < s.len() implies is_white_space(#[trigger] s[i]) by {
                    if i > 0 {
                        assert(s[i] == t[i - 1]);
                    }
                }
            }
            if is_blank(s) {
                assert forall|i: int| 0 <= i < t.len() implies is_white_space(#[trigger] t[i]) by {
                    assert(t[i] == s[i + 1]);
                }
            }
        } else {
            assert(!is_blank(s));
        }
    }
}

/// Every word is non-empty and holds no white space, and the words, joined, are the line without
/// its white space.
pub proof fn law_words_partition_the_line(s: Seq<char>)
    ensures
        forall|i: int|
            0 <= i < words(s).len() ==> {
                let w = #[trigger] words(s)[i];
                w.len() > 0 && forall|j: int| 0 <= j < w.len() ==> !is_white_space(#[trigger] w[j])
            },
        words(s).flatten() == s.filter(|c: char| !is_white_space(c)),
    decreases s.len(),
{
    let visible = |c: char| !is_white_space(c);
    if s.len() > 0 {
        let n = if is_white_space(s[0]) {
            1
        } else {
            word_len(s) as int
        };
        lemma_word_len(s);
        law_words_partition_the_line(s.skip(n));
        assert(s =~= s.take(n) + s.skip(n));
        Seq::filter_distributes_over_add(s.take(n), s.skip(n), visible);
        if is_white_space(s[0]) {
            s.take(1).lemma_all_neg_filter_empty(visible);
        } else {
            lemma_filter_keeps_all(s.take(n), visible);
            assert(words(s).drop_first() =~= words(s.skip(n)));
        }
    } else {
        reveal(Seq::filter);
    }
}

/// A filter that every element passes changes nothing.
proof fn lemma_filter_keeps_all(s: Seq<char>, p: spec_fn(char) -> bool)
    requires
        forall|i: int| 0 <= i < s.len() ==> p(#[trigger] s[i]),
    ensures
        s.filter(p) == s,
    decreases s.len(),
{
    reveal(Seq::filter);
    if s.len() > 0 {
        let t = s.drop_last();
        assert forall|i: int| 0 <= i < t.len() implies p(#[trigger] t[i]) by {
            assert(t[i] == s[i]);
        }
        lemma_filter_keeps_all(t, p);
        assert(t.push(s.last()) =~= s);
    }
}

/// The white space of Unicode, by its codes.
pub proof fn law_white_space(c: char)
    ensures
        is_white_space(c) <==> seq![
            9u32,
            10,
            11,
            12,
            13,
            32,
            133,
            160,
            5760,
            8192,
            8193,
            8194,
            8195,
            8196,
            8197,
            8198,
            8199,
            8200,
            8201,
            8202,
            8232,
            8233,
            8239,
            8287,
            12288,
        ].contains(c as u32),
{
    let codes = seq![
        9u32,
        10,
        11,
        12,
        13,
        32,
        133,
        160,
        5760,
        8192,
        8193,
        8194,
        8195,
        8196,
        8197,
        8198,
        8199,
        8200,
        8201,
        8202,
        8232,
        8233,
        8239,
        8287,
        12288,
    ];
    if is_white_space(c) {
        let code = c as u32;
        let i = if code <= 13 {
            code - 9
        } else if code == 32 {
            5
        } else if code == 133 {
            6
        } else if code == 160 {
            7
        } else if code == 5760 {
            8
        } else if code <= 8202 {
            code - 8192 + 9
        } else if code == 8232 {
            20
        } else if code == 8233 {
            21
        } else if code == 8239 {
            22
        } else if code == 8287 {
            23
        } else {
            24
        };
        assert(codes[i] == code);
    }
}

/// White space parts words: the words of two texts with white space between them are those of the
/// first and then those of the second.
pub proof fn law_white_space_parts_words(s: Seq<char>, c: char, t: Seq<char>)
    requires
        is_white_space(c),
    ensures
        words(s + seq![c] + t) == words(s) + words(t),
    decreases s.len(),
{
    let all = s + seq![c] + t;
    if s.len() == 0 {
        assert(all.skip(1) =~= t);
        assert(words(s) + words(t) =~= words(t));
    } else if is_white_space(s[0]) {
        assert(all.skip(1) =~= s.skip(1) + seq![c] + t);
        law_white_space_parts_words(s.skip(1), c, t);
    } else {
        lemma_word_len(s);
        let n = word_len(s) as int;
        lemma_word_len_bound(s);
        assert forall|i: int| 0 <= i < n implies !is_white_space(#[trigger] all[i]) by {
            assert(all[i] == s[i]);
        }
        if n < s.len() {
            assert(all[n] == s[n]);
        } else {
            assert(all[n] == c);
        }
        lemma_word_end(all, 0, n);
        assert(all.skip(0) =~= all);
        assert(all.take(n) =~= s.take(n));
        assert(all.skip(n) =~= s.skip(n) + seq![c] + t);
        law_white_space_parts_words(s.skip(n), c, t);
        assert(words(all) =~= words(s) + words(t));
    }
}

/// A word ends at the end of the text or at white space.
proof fn lemma_word_len_bound(s: Seq<char>)
    ensures
        word_len(s) <= s.len(),
        word_len(s) < s.len() ==> is_white_space(s[word_len(s) as int]),
    decreases s.len(),
{
    if s.len() > 0 && !is_white_space(s[0]) {
        lemma_word_len_bound(s.skip(1));
    }
}

/// Nothing else parts words: a text without white space is one word, and the empty text is none.
pub proof fn law_text_without_white_space_is_one_word(s: Seq<char>)
    requires
        forall|i: int| 0 <= i < s.len() ==> !is_white_space(#[trigger] s[i]),
    ensures
        s.len() == 0 ==> words(s) == Seq::<Seq<char>>::empty(),
        s.len() > 0 ==> words(s) == seq![s],
{
    if s.len() > 0 {
        lemma_word_end(s, 0, s.len() as int);
        assert(s.skip(0) =~= s);
        assert(s.take(s.len() as int) =~= s);
        assert(s.skip(s.len() as int) =~= Seq::empty());
        assert(words(s.skip(s.len() as int)) =~= Seq::<Seq<char>>::empty());
        assert(words(s) =~= seq![s]);
    }
}

} // verus!
