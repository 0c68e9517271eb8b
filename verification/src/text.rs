//! Text primitives on which the request parser and the route checks are built:
//! comparison of string slices, splitting on whitespace and splitting on a
//! separator character. Each executable function is specified over the
//! sequence of characters that a string denotes.

use vstd::prelude::*;
use vstd::std_specs::iter::IteratorSpec;
use vstd::string::*;

verus! {

/// Whether `c` has the Unicode property `White_Space`.
pub open spec fn is_whitespace(c: char) -> bool {
    ||| '\u{9}' <= c <= '\u{d}'
    ||| c == ' '
    ||| c == '\u{85}'
    ||| c == '\u{a0}'
    ||| c == '\u{1680}'
    ||| '\u{2000}' <= c <= '\u{200a}'
    ||| c == '\u{2028}'
    ||| c == '\u{2029}'
    ||| c == '\u{202f}'
    ||| c == '\u{205f}'
    ||| c == '\u{3000}'
}

/// Tests a character for the Unicode property `White_Space`.
pub fn char_is_whitespace(c: char) -> (b: bool)
    ensures
        b == is_whitespace(c),
{
    ('\u{9}' <= c && c <= '\u{d}') || c == ' ' || c == '\u{85}' || c == '\u{a0}' || c == '\u{1680}'
        || ('\u{2000}' <= c && c <= '\u{200a}') || c == '\u{2028}' || c == '\u{2029}' || c
        == '\u{202f}' || c == '\u{205f}' || c == '\u{3000}'
}

/// The characters of `s`, in order.
pub fn chars_of(s: &str) -> (v: Vec<char>)
    ensures
        v@ == s@,
{
    let mut v: Vec<char> = Vec::new();
    for c in it: s.chars()
        invariant
            v@ == it.seq().take(it.index()),
    {
        v.push(c);
    }
    v
}

/// Whether two string slices hold the same characters.
pub fn str_eq(a: &str, b: &str) -> (r: bool)
    ensures
        r == (a@ == b@),
{
    let mut rest_a = a.chars();
    let mut rest_b = b.chars();
    let ghost mut k: int = 0;
    loop
        invariant
            0 <= k <= a@.len(),
            k <= b@.len(),
            rest_a.remaining() == a@.skip(k),
            rest_b.remaining() == b@.skip(k),
            a@.take(k) == b@.take(k),
        decreases a@.len() - k,
    {
        let next_a = rest_a.next();
        let next_b = rest_b.next();
        match (next_a, next_b) {
            (Some(x), Some(y)) => {
                if x != y {
                    assert(a@[k] != b@[k]);
                    return false;
                }
                proof {
                    assert(a@.skip(k).drop_first() == a@.skip(k + 1));
                    assert(b@.skip(k).drop_first() == b@.skip(k + 1));
                    assert(a@.take(k + 1) == a@.take(k).push(a@[k]));
                    assert(b@.take(k + 1) == b@.take(k).push(b@[k]));
                    k = k + 1;
                }
            },
            (None, None) => {
                assert(a@ == a@.take(k));
                assert(b@ == b@.take(k));
                return true;
            },
            _ => {
                assert(a@.len() != b@.len());
                return false;
            },
        }
    }
}

/// The first index at or after `i` whose character is not whitespace, or the
/// length of `s` where there is none.
pub open spec fn token_start(s: Seq<char>, i: int) -> int
    decreases s.len() - i,
{
    if 0 <= i < s.len() && is_whitespace(s[i]) {
        token_start(s, i + 1)
    } else {
        i
    }
}

/// The first index at or after `i` whose character is whitespace, or the
/// length of `s` where there is none.
pub open spec fn token_end(s: Seq<char>, i: int) -> int
    decreases s.len() - i,
{
    if 0 <= i < s.len() && !is_whitespace(s[i]) {
        token_end(s, i + 1)
    } else {
        i
    }
}

/// The maximal runs of characters other than whitespace that begin at or
/// after index `i` of `s`, in order.
pub open spec fn tokens_from(s: Seq<char>, i: int) -> Seq<Seq<char>>
    decreases s.len() - i,
{
    let a = token_start(s, i);
    let b = token_end(s, a);
    if 0 <= i <= a < b <= s.len() {
        seq![s.subrange(a, b)] + tokens_from(s, b)
    } else {
        Seq::empty()
    }
}

/// The words of `s`: its maximal runs of characters other than whitespace.
pub open spec fn tokens(s: Seq<char>) -> Seq<Seq<char>> {
    tokens_from(s, 0)
}

/// `token_start` stays within the text, passes over whitespace only and stops
/// at a character that is none.
pub proof fn lemma_token_start(s: Seq<char>, i: int)
    requires
        0 <= i <= s.len(),
    ensures
        i <= token_start(s, i) <= s.len(),
        forall|k: int| i <= k < token_start(s, i) ==> is_whitespace(#[trigger] s[k]),
        token_start(s, i) < s.len() ==> !is_whitespace(s[token_start(s, i)]),
    decreases s.len() - i,
{
    if i < s.len() && is_whitespace(s[i]) {
        lemma_token_start(s, i + 1);
    }
}

/// `token_end` stays within the text, passes over no whitespace and stops at
/// whitespace or at the end.
pub proof fn lemma_token_end(s: Seq<char>, i: int)
    requires
        0 <= i <= s.len(),
    ensures
        i <= token_end(s, i) <= s.len(),
        forall|k: int| i <= k < token_end(s, i) ==> !is_whitespace(#[trigger] s[k]),
        token_end(s, i) < s.len() ==> is_whitespace(s[token_end(s, i)]),
        i < s.len() && !is_whitespace(s[i]) ==> i < token_end(s, i),
    decreases s.len() - i,
{
    if i < s.len() && !is_whitespace(s[i]) {
        lemma_token_end(s, i + 1);
    }
}

/// Every word that begins at or after `i` is non-empty and holds no
/// whitespace.
proof fn lemma_tokens_from_are_words(s: Seq<char>, i: int)
    requires
        0 <= i <= s.len(),
    ensures
        forall|n: int|
            0 <= n < tokens_from(s, i).len() ==> (#[trigger] tokens_from(s, i)[n]).len() > 0,
        forall|n: int, k: int|
            0 <= n < tokens_from(s, i).len() && 0 <= k < tokens_from(s, i)[n].len()
                ==> !is_whitespace(#[trigger] tokens_from(s, i)[n][k]),
    decreases s.len() - i,
{
    let a = token_start(s, i);
    let b = token_end(s, a);
    lemma_token_start(s, i);
    lemma_token_end(s, a);
    if a < b {
        lemma_tokens_from_are_words(s, b);
        let rest = tokens_from(s, b);
        let all = tokens_from(s, i);
        assert(all == seq![s.subrange(a, b)] + rest);
        assert forall|n: int| 0 <= n < all.len() implies (#[trigger] all[n]).len() > 0 by {
            if n > 0 {
                assert(all[n] == rest[n - 1]);
            }
        }
        assert forall|n: int, k: int|
            0 <= n < all.len() && 0 <= k < all[n].len() implies !is_whitespace(
            #[trigger] all[n][k],
        ) by {
            if n > 0 {
                assert(all[n] == rest[n - 1]);
            } else {
                assert(all[0][k] == s[a + k]);
            }
        }
    }
}

/// Every word is non-empty and holds no whitespace.
pub proof fn law_tokens_are_words(s: Seq<char>)
    ensures
        forall|n: int| 0 <= n < tokens(s).len() ==> (#[trigger] tokens(s)[n]).len() > 0,
        forall|n: int, k: int|
            0 <= n < tokens(s).len() && 0 <= k < tokens(s)[n].len() ==> !is_whitespace(
                #[trigger] tokens(s)[n][k],
            ),
{
    lemma_tokens_from_are_words(s, 0);
}

/// Words set apart by blanks: `gaps[0]`, `words[0]`, `gaps[1]`, `words[1]`
/// and so on, up to the gap behind the last word.
pub open spec fn spaced(gaps: Seq<Seq<char>>, words: Seq<Seq<char>>) -> Seq<char>
    decreases words.len(),
{
    if gaps.len() == 0 {
        Seq::empty()
    } else if words.len() == 0 {
        gaps[0]
    } else {
        gaps[0] + words[0] + spaced(gaps.drop_first(), words.drop_first())
    }
}

/// What follows a word in a spaced text is nothing or begins with
/// whitespace.
proof fn lemma_spaced_begins_with_gap(gaps: Seq<Seq<char>>, words: Seq<Seq<char>>)
    requires
        gaps.len() == words.len() + 1,
        forall|n: int, k: int|
            0 <= n < gaps.len() && 0 <= k < gaps[n].len() ==> is_whitespace(#[trigger] gaps[n][k]),
        words.len() > 0 ==> gaps[0].len() > 0,
    ensures
        spaced(gaps, words).len() == 0 || is_whitespace(spaced(gaps, words)[0]),
{
    if words.len() == 0 {
        if gaps[0].len() > 0 {
            assert(is_whitespace(gaps[0][0]));
        }
    } else {
        assert(is_whitespace(gaps[0][0]));
        assert(spaced(gaps, words)[0] == gaps[0][0]);
    }
}

/// Looking for the start of a word from `i` on is looking for it in what is
/// left of the text when the first `k` characters are taken away.
proof fn lemma_token_start_in_rest(s: Seq<char>, i: int, k: int)
    requires
        0 <= k <= i <= s.len(),
    ensures
        token_start(s, i) == token_start(s.skip(k), i - k) + k,
    decreases s.len() - i,
{
    if i < s.len() {
        assert(s.skip(k)[i - k] == s[i]);
        if is_whitespace(s[i]) {
            lemma_token_start_in_rest(s, i + 1, k);
        }
    }
}

/// Looking for the end of a word from `i` on is looking for it in what is
/// left of the text when the first `k` characters are taken away.
proof fn lemma_token_end_in_rest(s: Seq<char>, i: int, k: int)
    requires
        0 <= k <= i <= s.len(),
    ensures
        token_end(s, i) == token_end(s.skip(k), i - k) + k,
    decreases s.len() - i,
{
    if i < s.len() {
        assert(s.skip(k)[i - k] == s[i]);
        if !is_whitespace(s[i]) {
            lemma_token_end_in_rest(s, i + 1, k);
        }
    }
}

/// The words from `i` on are the words of what is left of the text when the
/// first `k` characters are taken away.
proof fn lemma_tokens_of_rest(s: Seq<char>, i: int, k: int)
    requires
        0 <= k <= i <= s.len(),
    ensures
        tokens_from(s, i) == tokens_from(s.skip(k), i - k),
    decreases s.len() - i,
{
    let a = token_start(s, i);
    lemma_token_start(s, i);
    lemma_token_start_in_rest(s, i, k);
    let b = token_end(s, a);
    lemma_token_end(s, a);
    lemma_token_end_in_rest(s, a, k);
    if a < b {
        lemma_tokens_of_rest(s, b, k);
        assert(s.subrange(a, b) == s.skip(k).subrange(a - k, b - k));
    }
}

/// Splitting on whitespace finds the words that a text was made of: where
/// the words are not empty and hold no whitespace, and the gaps before,
/// between and behind them hold whitespace only, those between two words not
/// being empty, the words of the spaced text are these words.
pub proof fn law_tokens_of_spaced_words(gaps: Seq<Seq<char>>, words: Seq<Seq<char>>)
    requires
        gaps.len() == words.len() + 1,
        forall|n: int, k: int|
            0 <= n < gaps.len() && 0 <= k < gaps[n].len() ==> is_whitespace(#[trigger] gaps[n][k]),
        forall|n: int| 0 < n < words.len() ==> (#[trigger] gaps[n]).len() > 0,
        forall|n: int| 0 <= n < words.len() ==> (#[trigger] words[n]).len() > 0,
        forall|n: int, k: int|
            0 <= n < words.len() && 0 <= k < words[n].len() ==> !is_whitespace(
                #[trigger] words[n][k],
            ),
    ensures
        tokens(spaced(gaps, words)) == words,
    decreases words.len(),
{
    let s = spaced(gaps, words);
    let gap = gaps[0];
    lemma_token_start(s, 0);
    let a = token_start(s, 0);
    if words.len() == 0 {
        assert(s == gap);
        if a < s.len() {
            assert(is_whitespace(gap[a]));
        }
        assert(tokens(s) == Seq::<Seq<char>>::empty());
        assert(words == Seq::<Seq<char>>::empty());
    } else {
        let word = words[0];
        let more_gaps = gaps.drop_first();
        let more_words = words.drop_first();
        let rest = spaced(more_gaps, more_words);
        assert(s == gap + word + rest);
        assert forall|n: int, k: int|
            0 <= n < more_gaps.len() && 0 <= k < more_gaps[n].len() implies is_whitespace(
            #[trigger] more_gaps[n][k],
        ) by {
            assert(more_gaps[n] == gaps[n + 1]);
        }
        assert forall|n: int| 0 < n < more_words.len() implies (#[trigger] more_gaps[n]).len()
            > 0 by {
            assert(more_gaps[n] == gaps[n + 1]);
        }
        assert forall|n: int| 0 <= n < more_words.len() implies (#[trigger] more_words[n]).len()
            > 0 by {
            assert(more_words[n] == words[n + 1]);
        }
        assert forall|n: int, k: int|
            0 <= n < more_words.len() && 0 <= k < more_words[n].len() implies !is_whitespace(
            #[trigger] more_words[n][k],
        ) by {
            assert(more_words[n] == words[n + 1]);
        }
        assert(more_words.len() > 0 ==> more_gaps[0].len() > 0) by {
            if more_words.len() > 0 {
                assert(more_gaps[0] == gaps[1]);
            }
        }
        lemma_spaced_begins_with_gap(more_gaps, more_words);
        law_tokens_of_spaced_words(more_gaps, more_words);

        assert forall|k: int| 0 <= k < gap.len() implies is_whitespace(s[k]) by {
            assert(s[k] == gap[k]);
        }
        assert forall|k: int| gap.len() <= k < gap.len() + word.len() implies !is_whitespace(
            #[trigger] s[k],
        ) by {
            assert(s[k] == word[k - gap.len()]);
        }
        assert(a == gap.len()) by {
            assert(!is_whitespace(s[gap.len() as int]));
            if a < gap.len() {
                assert(is_whitespace(s[a]));
            }
        }
        lemma_token_end(s, a);
        let b = token_end(s, a);
        assert(b == a + word.len()) by {
            if b < a + word.len() {
                assert(!is_whitespace(s[b]));
            } else if b > a + word.len() {
                assert(s[a + word.len()] == rest[0]);
            }
        }
        assert(s.subrange(a, b) == word);
        assert(s.skip(b) == rest);
        lemma_tokens_of_rest(s, b, b);
        assert(tokens_from(s, 0) == seq![word] + tokens_from(s, b));
        assert(seq![word] + more_words == words);
    }
}

/// Splits `s` into its words, as `str::split_whitespace` does: the maximal
/// runs of characters other than whitespace, in order.
pub fn split_whitespace(s: &str) -> (words: Vec<String>)
    ensures
        words.deep_view() == tokens(s@),
{
    let chars = chars_of(s);
    let n = chars.len();
    let mut words: Vec<String> = Vec::new();
    let mut i: usize = 0;
    loop
        invariant
            chars@ == s@,
            n == s@.len(),
            0 <= i <= n,
            words.deep_view() + tokens_from(s@, i as int) == tokens(s@),
        decreases n - i,
    {
        let ghost from = i as int;
        while i < n && char_is_whitespace(chars[i])
            invariant
                chars@ == s@,
                n == s@.len(),
                from <= i <= n,
                token_start(s@, from) == token_start(s@, i as int),
            decreases n - i,
        {
            i = i + 1;
        }
        let start = i;
        while i < n && !char_is_whitespace(chars[i])
            invariant
                chars@ == s@,
                n == s@.len(),
                start <= i <= n,
                token_end(s@, start as int) == token_end(s@, i as int),
            decreases n - i,
        {
            i = i + 1;
        }
        if start == i {
            proof {
                assert(tokens_from(s@, from) == Seq::<Seq<char>>::empty());
                assert(words.deep_view() + Seq::<Seq<char>>::empty() == words.deep_view());
            }
            return words;
        }
        let word = s.substring_char(start, i).to_owned();
        proof {
            let before = words.deep_view();
            let piece = s@.subrange(start as int, i as int);
            assert(tokens_from(s@, from) == seq![piece] + tokens_from(s@, i as int));
            assert(before.push(piece) + tokens_from(s@, i as int) == before + (seq![piece]
                + tokens_from(s@, i as int)));
            assert(words@.push(word).map_values(|w: String| w.deep_view()) == before.push(piece));
        }
        words.push(word);
    }
}

/// The first index at or after `i` that holds `c`, or the length of `s` where
/// there is none.
pub open spec fn find_char(s: Seq<char>, c: char, i: int) -> int
    decreases s.len() - i,
{
    if 0 <= i < s.len() && s[i] != c {
        find_char(s, c, i + 1)
    } else {
        i
    }
}

/// The pieces into which the occurrences of `c` at or after index `i` cut the
/// rest of `s`. One piece more than there are occurrences; a piece is empty
/// where two occurrences touch or one stands at an end.
pub open spec fn pieces_from(s: Seq<char>, c: char, i: int) -> Seq<Seq<char>>
    decreases s.len() - i,
{
    let j = find_char(s, c, i);
    if 0 <= i <= j < s.len() {
        seq![s.subrange(i, j)] + pieces_from(s, c, j + 1)
    } else {
        seq![s.subrange(i, s.len() as int)]
    }
}

/// The pieces into which the occurrences of `c` cut `s`.
pub open spec fn split_on(s: Seq<char>, c: char) -> Seq<Seq<char>> {
    pieces_from(s, c, 0)
}

/// `find_char` stays within the text, passes over no `c` and stops at a `c`
/// or at the end.
pub proof fn lemma_find_char(s: Seq<char>, c: char, i: int)
    requires
        0 <= i <= s.len(),
    ensures
        i <= find_char(s, c, i) <= s.len(),
        forall|k: int| i <= k < find_char(s, c, i) ==> #[trigger] s[k] != c,
        find_char(s, c, i) < s.len() ==> s[find_char(s, c, i)] == c,
    decreases s.len() - i,
{
    if i < s.len() && s[i] != c {
        lemma_find_char(s, c, i + 1);
    }
}

/// What follows index `i` is cut into at least one piece, into two or more
/// exactly where it holds the separator, and no piece holds the separator.
proof fn lemma_pieces_from(s: Seq<char>, c: char, i: int)
    requires
        0 <= i <= s.len(),
    ensures
        pieces_from(s, c, i).len() >= 1,
        pieces_from(s, c, i).len() >= 2 <==> find_char(s, c, i) < s.len(),
        forall|n: int, k: int|
            0 <= n < pieces_from(s, c, i).len() && 0 <= k < pieces_from(s, c, i)[n].len()
                ==> #[trigger] pieces_from(s, c, i)[n][k] != c,
    decreases s.len() - i,
{
    let j = find_char(s, c, i);
    lemma_find_char(s, c, i);
    let all = pieces_from(s, c, i);
    if j < s.len() {
        lemma_pieces_from(s, c, j + 1);
        let rest = pieces_from(s, c, j + 1);
        assert(all == seq![s.subrange(i, j)] + rest);
        assert forall|n: int, k: int|
            0 <= n < all.len() && 0 <= k < all[n].len() implies #[trigger] all[n][k] != c by {
            if n > 0 {
                assert(all[n] == rest[n - 1]);
            } else {
                assert(all[0][k] == s[i + k]);
            }
        }
    } else {
        assert forall|n: int, k: int|
            0 <= n < all.len() && 0 <= k < all[n].len() implies #[trigger] all[n][k] != c by {
            assert(all[0][k] == s[i + k]);
        }
    }
}

/// A text is cut into at least one piece, into two or more exactly where it
/// holds the separator, and no piece holds the separator.
pub proof fn law_pieces_hold_no_separator(s: Seq<char>, c: char)
    ensures
        split_on(s, c).len() >= 1,
        split_on(s, c).len() >= 2 <==> s.contains(c),
        forall|n: int, k: int|
            0 <= n < split_on(s, c).len() && 0 <= k < split_on(s, c)[n].len()
                ==> #[trigger] split_on(s, c)[n][k] != c,
{
    lemma_pieces_from(s, c, 0);
    lemma_find_char(s, c, 0);
    let first = find_char(s, c, 0);
    if first < s.len() {
        assert(s[first] == c);
    }
}

/// The pieces put together again, the separator `c` between each two.
pub open spec fn join(pieces: Seq<Seq<char>>, c: char) -> Seq<char>
    decreases pieces.len(),
{
    if pieces.len() == 0 {
        Seq::empty()
    } else if pieces.len() == 1 {
        pieces[0]
    } else {
        pieces[0] + seq![c] + join(pieces.drop_first(), c)
    }
}

/// The pieces of what follows index `i`, joined by the separator, are what
/// follows index `i`.
pub proof fn lemma_join_pieces_from(s: Seq<char>, c: char, i: int)
    requires
        0 <= i <= s.len(),
    ensures
        join(pieces_from(s, c, i), c) == s.subrange(i, s.len() as int),
    decreases s.len() - i,
{
    let j = find_char(s, c, i);
    lemma_find_char(s, c, i);
    if j < s.len() {
        let rest = pieces_from(s, c, j + 1);
        let all = pieces_from(s, c, i);
        lemma_join_pieces_from(s, c, j + 1);
        lemma_pieces_from(s, c, j + 1);
        assert(all == seq![s.subrange(i, j)] + rest);
        assert(all.drop_first() == rest);
        assert(all[0] == s.subrange(i, j));
        assert(s.subrange(i, j) + seq![c] + s.subrange(j + 1, s.len() as int) == s.subrange(
            i,
            s.len() as int,
        ));
    }
}

/// Splitting loses nothing: the pieces of a text, joined by the separator,
/// are the text.
pub proof fn law_split_then_join(s: Seq<char>, c: char)
    ensures
        join(split_on(s, c), c) == s,
{
    lemma_join_pieces_from(s, c, 0);
    assert(s.subrange(0, s.len() as int) == s);
}

/// Searching a text from `i` on is searching what is left of it when the
/// first `k` characters are taken away, `k` being at most `i`.
pub proof fn lemma_find_char_in_rest(s: Seq<char>, c: char, i: int, k: int)
    requires
        0 <= k <= i <= s.len(),
    ensures
        find_char(s, c, i) == find_char(s.skip(k), c, i - k) + k,
    decreases s.len() - i,
{
    if i < s.len() && s[i] != c {
        assert(s.skip(k)[i - k] == s[i]);
        lemma_find_char_in_rest(s, c, i + 1, k);
    }
}

/// Cutting a text from `i` on is cutting what is left of it when the first
/// `k` characters are taken away, `k` being at most `i`.
pub proof fn lemma_pieces_of_rest(s: Seq<char>, c: char, i: int, k: int)
    requires
        0 <= k <= i <= s.len(),
    ensures
        pieces_from(s, c, i) == pieces_from(s.skip(k), c, i - k),
    decreases s.len() - i,
{
    let j = find_char(s, c, i);
    lemma_find_char(s, c, i);
    lemma_find_char_in_rest(s, c, i, k);
    let rest = s.skip(k);
    if j < s.len() {
        lemma_pieces_of_rest(s, c, j + 1, k);
        assert(s.subrange(i, j) == rest.subrange(i - k, j - k));
    } else {
        assert(s.subrange(i, s.len() as int) == rest.subrange(i - k, rest.len() as int));
    }
}

/// Splitting finds the pieces that a text was made of: where no piece holds
/// the separator, the pieces joined by it are cut into the same pieces again.
pub proof fn law_join_then_split(pieces: Seq<Seq<char>>, c: char)
    requires
        pieces.len() >= 1,
        forall|n: int, k: int|
            0 <= n < pieces.len() && 0 <= k < pieces[n].len() ==> #[trigger] pieces[n][k] != c,
    ensures
        split_on(join(pieces, c), c) == pieces,
    decreases pieces.len(),
{
    let s = join(pieces, c);
    let first = pieces[0];
    lemma_find_char(s, c, 0);
    let j = find_char(s, c, 0);
    if pieces.len() == 1 {
        assert(s == first);
        if j < s.len() {
            assert(first[j] != c);
        }
        assert(s.subrange(0, s.len() as int) == s);
        assert(pieces == seq![s]);
    } else {
        let others = pieces.drop_first();
        let tail = join(others, c);
        assert(s == first + seq![c] + tail);
        assert(s[first.len() as int] == c);
        assert forall|k: int| 0 <= k < first.len() implies s[k] != c by {
            assert(s[k] == first[k]);
        }
        assert(j == first.len()) by {
            if j < first.len() {
                assert(s[j] != c);
            }
        }
        assert forall|n: int, k: int|
            0 <= n < others.len() && 0 <= k < others[n].len() implies #[trigger] others[n][k]
            != c by {
            assert(others[n] == pieces[n + 1]);
        }
        law_join_then_split(others, c);
        lemma_pieces_of_rest(s, c, j + 1, j + 1);
        assert(s.skip(j + 1) == tail);
        assert(s.subrange(0, j) == first);
        assert(pieces_from(s, c, 0) == seq![first] + pieces_from(s, c, j + 1));
        assert(seq![first] + others == pieces);
    }
}

/// Splits `s` at every occurrence of `c`, as `str::split` does with a
/// character: the pieces between the occurrences, in order, empty ones kept.
pub fn split_char(s: &str, c: char) -> (pieces: Vec<String>)
    ensures
        pieces.deep_view() == split_on(s@, c),
{
    let chars = chars_of(s);
    let n = chars.len();
    let mut pieces: Vec<String> = Vec::new();
    let mut start: usize = 0;
    loop
        invariant
            chars@ == s@,
            n == s@.len(),
            0 <= start <= n,
            pieces.deep_view() + pieces_from(s@, c, start as int) == split_on(s@, c),
        decreases n - start,
    {
        let mut i = start;
        while i < n && chars[i] != c
            invariant
                chars@ == s@,
                n == s@.len(),
                start <= i <= n,
                find_char(s@, c, start as int) == find_char(s@, c, i as int),
            decreases n - i,
        {
            i = i + 1;
        }
        let piece = s.substring_char(start, i).to_owned();
        proof {
            let before = pieces.deep_view();
            let text = s@.subrange(start as int, i as int);
            assert(pieces@.push(piece).map_values(|w: String| w.deep_view()) == before.push(text));
            if i < n {
                assert(pieces_from(s@, c, start as int) == seq![text] + pieces_from(
                    s@,
                    c,
                    i + 1,
                ));
                assert(before.push(text) + pieces_from(s@, c, i + 1) == before + (seq![text]
                    + pieces_from(s@, c, i + 1)));
            } else {
                assert(pieces_from(s@, c, start as int) == seq![text]);
                assert(before.push(text) == before + seq![text]);
            }
        }
        pieces.push(piece);
        if i == n {
            return pieces;
        }
        start = i + 1;
    }
}

} // verus!
