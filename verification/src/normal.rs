//! The normal form of a text: which words it is made of, and what does not change it.

use vstd::prelude::*;

use crate::commands::{collapsed, discarded, letters_only, normalized};
use crate::letters::{
    is_letter, law_lowercase_around_white_space, law_lowercase_once_is_enough,
    lemma_lowercase_of_staying, lower_form, lowercase, lowered, sigma_ends_word, sigma_free, stays,
    CAPITAL_SIGMA,
};
use crate::text::{
    blank, is_white_space, joined, lemma_word_len, lemma_word_len_is_run, lemma_word_len_within,
    lemma_words_after_blank, word_len, words_of,
};

verus! {

// ---------------------------------------------------------------------------
// Words
// ---------------------------------------------------------------------------

/// Nothing but white space holds no word.
pub proof fn lemma_blank_has_no_words(s: Seq<char>)
    requires
        blank(s),
    ensures
        words_of(s) == Seq::<Seq<char>>::empty(),
{
    lemma_words_after_blank(s, s.len() as int);
    assert(s.skip(s.len() as int) =~= Seq::<char>::empty());
}

/// A text without white space, at least one character long.
pub open spec fn is_word(w: Seq<char>) -> bool {
    w.len() > 0 && forall|k: int| 0 <= k < w.len() ==> !is_white_space(#[trigger] w[k])
}

/// A word in front, with white space before it, is the first of the words.
pub proof fn lemma_first_word(before: Seq<char>, w: Seq<char>, rest: Seq<char>)
    requires
        blank(before),
        is_word(w),
        rest.len() == 0 || is_white_space(rest[0]),
    ensures
        words_of(before + w + rest) == seq![w] + words_of(rest),
{
    let s = before + w + rest;
    let n = before.len() as int;
    assert forall|k: int| 0 <= k < n implies is_white_space(#[trigger] s[k]) by {
        assert(s[k] == before[k]);
    }
    lemma_words_after_blank(s, n);
    let t = s.skip(n);
    assert(t =~= w + rest);
    assert forall|k: int| 0 <= k < w.len() implies !is_white_space(#[trigger] t[k]) by {
        assert(t[k] == w[k]);
    }
    lemma_word_len(t, w.len() as int);
    assert(!is_white_space(t[0]));
    assert(t.take(w.len() as int) =~= w);
    assert(t.skip(w.len() as int) =~= rest);
}

/// Two words with white space around them and between them.
pub proof fn lemma_two_words(
    before: Seq<char>,
    first: Seq<char>,
    between: Seq<char>,
    second: Seq<char>,
    behind: Seq<char>,
)
    requires
        blank(before),
        blank(between),
        blank(behind),
        between.len() > 0,
        is_word(first),
        is_word(second),
    ensures
        words_of(before + first + between + second + behind) == seq![first, second],
{
    let rest = between + second + behind;
    assert(rest[0] == between[0]);
    lemma_first_word(before, first, rest);
    assert(before + first + between + second + behind =~= before + first + rest);
    lemma_first_word(between, second, behind);
    lemma_blank_has_no_words(behind);
    assert(seq![second] + Seq::<Seq<char>>::empty() =~= seq![second]);
    assert(seq![first] + seq![second] =~= seq![first, second]);
}

/// Two parts joined.
pub proof fn lemma_joined_two(a: Seq<char>, b: Seq<char>, sep: Seq<char>)
    ensures
        joined(seq![a, b], sep) == a + sep + b,
{
    let parts = seq![a, b];
    assert(parts.drop_last() =~= seq![a]);
    assert(joined(seq![a], sep) == a);
}

/// White space parts the words of a text.
pub proof fn lemma_words_apart(s: Seq<char>, white: char, rest: Seq<char>)
    requires
        is_white_space(white),
    ensures
        words_of(s + seq![white] + rest) == words_of(s) + words_of(rest),
    decreases s.len(),
{
    let all = s + seq![white] + rest;
    if s.len() == 0 {
        assert(all.drop_first() =~= rest);
        assert(words_of(s) + words_of(rest) =~= words_of(rest));
    } else if is_white_space(s.first()) {
        lemma_words_apart(s.drop_first(), white, rest);
        assert(all.drop_first() =~= s.drop_first() + seq![white] + rest);
    } else {
        lemma_word_len_within(s);
        let n = word_len(s);
        lemma_word_len_is_run(s);
        assert forall|k: int| 0 <= k < n implies !is_white_space(#[trigger] all[k]) by {
            assert(all[k] == s[k]);
        }
        assert(n == s.len() ==> all[n] == white);
        lemma_word_len(all, n);
        assert(all.take(n) =~= s.take(n));
        assert(all.skip(n) =~= s.skip(n) + seq![white] + rest);
        lemma_words_apart(s.skip(n), white, rest);
        assert(seq![s.take(n)] + (words_of(s.skip(n)) + words_of(rest)) =~= (seq![s.take(n)]
            + words_of(s.skip(n))) + words_of(rest));
    }
}

/// White space at the back adds no word.
pub proof fn lemma_words_before_blank(s: Seq<char>, white: Seq<char>)
    requires
        blank(white),
    ensures
        words_of(s + white) == words_of(s),
{
    if white.len() > 0 {
        let rest = white.drop_first();
        assert(is_white_space(white[0]));
        assert forall|k: int| 0 <= k < rest.len() implies is_white_space(#[trigger] rest[k]) by {
            assert(rest[k] == white[k + 1]);
        }
        assert(s + white =~= s + seq![white[0]] + rest);
        lemma_words_apart(s, white[0], rest);
        lemma_blank_has_no_words(rest);
        assert(words_of(s) + Seq::<Seq<char>>::empty() =~= words_of(s));
    } else {
        assert(s + white =~= s);
    }
}

/// A word behind a space is the last of the words.
proof fn lemma_last_word(s: Seq<char>, w: Seq<char>)
    requires
        is_word(w),
    ensures
        words_of(s + seq![' '] + w) == words_of(s).push(w),
{
    let none = Seq::<char>::empty();
    lemma_words_apart(s, ' ', w);
    lemma_first_word(none, w, none);
    assert(none + w + none =~= w);
    assert(words_of(s) + (seq![w] + words_of(none)) =~= words_of(s).push(w));
}

/// Words, one space apart, are the words of the text they make.
proof fn lemma_words_of_joined(words: Seq<Seq<char>>)
    requires
        forall|i: int| 0 <= i < words.len() ==> is_word(#[trigger] words[i]),
    ensures
        words_of(joined(words, " "@)) == words,
    decreases words.len(),
{
    reveal_strlit(" ");
    assert(" "@ =~= seq![' ']);
    let none = Seq::<char>::empty();
    if words.len() == 0 {
        assert(words_of(none) =~= words);
    } else if words.len() == 1 {
        lemma_first_word(none, words[0], none);
        assert(none + words[0] + none =~= words[0]);
        assert(words_of(none) =~= Seq::<Seq<char>>::empty());
        assert(seq![words[0]] + Seq::<Seq<char>>::empty() =~= words);
    } else {
        let init = words.drop_last();
        assert forall|i: int| 0 <= i < init.len() implies is_word(#[trigger] init[i]) by {
            assert(is_word(words[i]));
        }
        assert(is_word(words[words.len() - 1]));
        lemma_words_of_joined(init);
        lemma_last_word(joined(init, " "@), words.last());
        assert(init.push(words.last()) =~= words);
    }
}

/// Each word is a part of the text.
pub proof fn lemma_word_is_part(s: Seq<char>, i: int) -> (at: int)
    requires
        0 <= i < words_of(s).len(),
    ensures
        0 <= at,
        at + words_of(s)[i].len() <= s.len(),
        words_of(s)[i] == s.subrange(at, at + words_of(s)[i].len()),
    decreases s.len(),
{
    if is_white_space(s.first()) {
        let rest = s.drop_first();
        let at = lemma_word_is_part(rest, i);
        let w = words_of(s)[i];
        assert(rest.subrange(at, at + w.len()) =~= s.subrange(at + 1, at + 1 + w.len()));
        at + 1
    } else {
        lemma_word_len_within(s);
        let n = word_len(s);
        let rest = s.skip(n);
        assert(words_of(s) == seq![s.take(n)] + words_of(rest));
        if i == 0 {
            assert(s.subrange(0, n) =~= s.take(n));
            0
        } else {
            let at = lemma_word_is_part(rest, i - 1);
            let w = words_of(s)[i];
            assert(w == words_of(rest)[i - 1]);
            assert(rest.subrange(at, at + w.len()) =~= s.subrange(at + n, at + n + w.len()));
            at + n
        }
    }
}

/// Each character that is no white space stands in one of the words.
proof fn lemma_words_hold(s: Seq<char>, k: int) -> (place: (int, int))
    requires
        0 <= k < s.len(),
        !is_white_space(s[k]),
    ensures
        0 <= place.0 < words_of(s).len(),
        0 <= place.1 < words_of(s)[place.0].len(),
        words_of(s)[place.0][place.1] == s[k],
    decreases s.len(),
{
    if is_white_space(s.first()) {
        lemma_words_hold(s.drop_first(), k - 1)
    } else {
        lemma_word_len_within(s);
        let n = word_len(s);
        let rest = s.skip(n);
        assert(words_of(s) == seq![s.take(n)] + words_of(rest));
        if k < n {
            assert(s.take(n)[k] == s[k]);
            (0, k)
        } else {
            let (i, j) = lemma_words_hold(rest, k - n);
            assert(words_of(s)[i + 1] == words_of(rest)[i]);
            (i + 1, j)
        }
    }
}

/// What stands in a part stands in the parts joined.
proof fn lemma_joined_holds(parts: Seq<Seq<char>>, sep: Seq<char>, i: int, j: int)
    requires
        0 <= i < parts.len(),
        0 <= j < parts[i].len(),
    ensures
        joined(parts, sep).contains(parts[i][j]),
    decreases parts.len(),
{
    let all = joined(parts, sep);
    if parts.len() == 1 {
        assert(all[j] == parts[i][j]);
    } else {
        let init = parts.drop_last();
        let front = joined(init, sep);
        if i < init.len() {
            assert(init[i] == parts[i]);
            lemma_joined_holds(init, sep, i, j);
            let k = front.index_of(parts[i][j]);
            assert(all[k] == front[k]);
        } else {
            let k = front.len() + sep.len() + j;
            assert(all[k] == parts[i][j]);
        }
    }
}

/// Two lists of parts joined.
proof fn lemma_joined_lists(xs: Seq<Seq<char>>, ys: Seq<Seq<char>>, sep: Seq<char>)
    requires
        xs.len() > 0,
        ys.len() > 0,
    ensures
        joined(xs + ys, sep) == joined(xs, sep) + sep + joined(ys, sep),
    decreases ys.len(),
{
    let all = xs + ys;
    let init = ys.drop_last();
    assert(all.drop_last() =~= xs + init);
    assert(all.last() == ys.last());
    if init.len() == 0 {
        assert(xs + init =~= xs);
        assert(ys[0] == ys.last());
    } else {
        lemma_joined_lists(xs, init, sep);
        assert(joined(all, sep) =~= joined(xs, sep) + sep + joined(ys, sep));
    }
}

/// Joining takes no more room than the text that the words come from.
pub proof fn lemma_collapsed_is_no_longer(s: Seq<char>)
    ensures
        collapsed(s).len() <= s.len(),
    decreases s.len(),
{
    reveal_strlit(" ");
    assert(" "@ =~= seq![' ']);
    if s.len() > 0 {
        if is_white_space(s.first()) {
            lemma_collapsed_is_no_longer(s.drop_first());
        } else {
            lemma_word_len_within(s);
            lemma_word_len_is_run(s);
            let n = word_len(s);
            let rest = s.skip(n);
            assert(words_of(s) == seq![s.take(n)] + words_of(rest));
            if words_of(rest).len() == 0 {
                assert(words_of(s) =~= seq![s.take(n)]);
            } else {
                assert(rest.len() > 0);
                assert(is_white_space(rest.first()));
                lemma_collapsed_is_no_longer(rest.drop_first());
                lemma_joined_lists(seq![s.take(n)], words_of(rest), " "@);
            }
        }
    }
}

// ---------------------------------------------------------------------------
// Letters
// ---------------------------------------------------------------------------

/// A word of which each character is as `p` says.
pub open spec fn is_word_of(w: Seq<char>, p: spec_fn(char) -> bool) -> bool {
    w.len() > 0 && forall|k: int| 0 <= k < w.len() ==> p(#[trigger] w[k])
}

/// The words of a text are made of what the text is made of beside spaces.
proof fn lemma_words_are_of(s: Seq<char>, p: spec_fn(char) -> bool)
    requires
        forall|k: int| 0 <= k < s.len() ==> p(#[trigger] s[k]) || s[k] == ' ',
    ensures
        forall|i: int| 0 <= i < words_of(s).len() ==> is_word_of(#[trigger] words_of(s)[i], p),
    decreases s.len(),
{
    let words = words_of(s);
    if s.len() > 0 {
        if is_white_space(s.first()) {
            let rest = s.drop_first();
            assert forall|k: int| 0 <= k < rest.len() implies p(#[trigger] rest[k]) || rest[k]
                == ' ' by {
                assert(rest[k] == s[k + 1]);
            }
            lemma_words_are_of(rest, p);
            assert(words == words_of(rest));
        } else {
            lemma_word_len_within(s);
            lemma_word_len_is_run(s);
            let n = word_len(s);
            let w = s.take(n);
            let rest = s.skip(n);
            assert forall|k: int| 0 <= k < rest.len() implies p(#[trigger] rest[k]) || rest[k]
                == ' ' by {
                assert(rest[k] == s[k + n]);
            }
            assert forall|k: int| 0 <= k < w.len() implies p(#[trigger] w[k]) by {
                assert(!is_white_space(s[k]));
            }
            lemma_words_are_of(rest, p);
            assert(words == seq![w] + words_of(rest));
            assert forall|i: int| 0 <= i < words.len() implies is_word_of(
                #[trigger] words[i],
                p,
            ) by {
                if i > 0 {
                    assert(words[i] == words_of(rest)[i - 1]);
                }
            }
        }
    } else {
        assert(words.len() == 0);
    }
}

/// A text of which each character is as `p` says, but for single spaces within it.
pub open spec fn is_spaced(s: Seq<char>, p: spec_fn(char) -> bool) -> bool {
    forall|k: int|
        0 <= k < s.len() ==> p(#[trigger] s[k]) || {
            &&& s[k] == ' '
            &&& 0 < k < s.len() - 1
            &&& p(s[k - 1])
            &&& p(s[k + 1])
        }
}

/// Words one space apart have single spaces between them and nowhere else.
proof fn lemma_joined_is_spaced(words: Seq<Seq<char>>, p: spec_fn(char) -> bool)
    requires
        forall|i: int| 0 <= i < words.len() ==> is_word_of(#[trigger] words[i], p),
    ensures
        is_spaced(joined(words, " "@), p),
        words.len() > 0 ==> joined(words, " "@).len() > 0 && p(joined(words, " "@).last()),
    decreases words.len(),
{
    reveal_strlit(" ");
    assert(" "@ =~= seq![' ']);
    if words.len() == 1 {
        assert(is_word_of(words[0], p));
        assert(p(words[0][words[0].len() - 1]));
    } else if words.len() > 1 {
        let init = words.drop_last();
        assert forall|i: int| 0 <= i < init.len() implies is_word_of(#[trigger] init[i], p) by {
            assert(init[i] == words[i]);
        }
        lemma_joined_is_spaced(init, p);
        let a = joined(init, " "@);
        let n = a.len() as int;
        let b = words[words.len() - 1];
        assert(is_word_of(b, p));
        let all = joined(words, " "@);
        assert(all == a + " "@ + b);
        assert(p(b[b.len() - 1]));
        assert(all.last() == b[b.len() - 1]);
        assert forall|k: int| 0 <= k < all.len() implies p(#[trigger] all[k]) || {
            &&& all[k] == ' '
            &&& 0 < k < all.len() - 1
            &&& p(all[k - 1])
            &&& p(all[k + 1])
        } by {
            if k < n {
                assert(all[k] == a[k]);
                if !p(a[k]) {
                    assert(all[k - 1] == a[k - 1]);
                    assert(all[k + 1] == a[k + 1]);
                }
            } else if k == n {
                assert(all[n - 1] == a[n - 1]);
                assert(all[n + 1] == b[0]);
            } else {
                assert(all[k] == b[k - n - 1]);
            }
        }
    }
}

/// A letter in lower case.
pub open spec fn is_small_letter(c: char) -> bool {
    is_letter(c) && stays(c)
}

/// The words of a normal form: lower-case letters, and no white space.
proof fn lemma_normal_words(text: Seq<char>)
    ensures
        ({
            let words = words_of(letters_only(lowercase(text)));
            &&& forall|i: int|
                0 <= i < words.len() ==> is_word_of(
                    #[trigger] words[i],
                    |c: char| is_small_letter(c),
                )
            &&& forall|i: int| 0 <= i < words.len() ==> is_word(#[trigger] words[i])
        }),
{
    let p = |c: char| is_small_letter(c);
    let low = lowercase(text);
    let letters = letters_only(low);
    law_lowercase_once_is_enough(text);
    assert forall|k: int| 0 <= k < letters.len() implies p(#[trigger] letters[k]) || letters[k]
        == ' ' by {
        assert(stays(low[k]));
    }
    lemma_words_are_of(letters, p);
    let words = words_of(letters);
    assert forall|i: int| 0 <= i < words.len() implies is_word(#[trigger] words[i]) by {
        assert(is_word_of(words[i], p));
        assert forall|k: int| 0 <= k < words[i].len() implies !is_white_space(
            #[trigger] words[i][k],
        ) by {
            assert(p(words[i][k]));
        }
    }
}

/// The words of a normal form are those it was made of.
pub proof fn lemma_words_of_normalized(text: Seq<char>)
    ensures
        words_of(normalized(text)) == words_of(letters_only(lowercase(text))),
{
    lemma_normal_words(text);
    lemma_words_of_joined(words_of(letters_only(lowercase(text))));
}

/// Each letter of the lower-case form stands in the normal form.
pub proof fn lemma_letters_are_kept(text: Seq<char>, k: int)
    requires
        0 <= k < lowercase(text).len(),
        is_letter(lowercase(text)[k]),
    ensures
        normalized(text).contains(lowercase(text)[k]),
{
    let letters = letters_only(lowercase(text));
    assert(letters[k] == lowercase(text)[k]);
    let (i, j) = lemma_words_hold(letters, k);
    lemma_joined_holds(words_of(letters), " "@, i, j);
}

/// The letters of two texts one after the other.
pub proof fn lemma_letters_only_concat(a: Seq<char>, b: Seq<char>)
    ensures
        letters_only(a + b) == letters_only(a) + letters_only(b),
{
    assert(letters_only(a + b) =~= letters_only(a) + letters_only(b));
}

// ---------------------------------------------------------------------------
// Texts without letters
// ---------------------------------------------------------------------------

/// Whether the lower-case form of `c` holds no letter.
pub open spec fn is_letterless(c: char) -> bool {
    c != CAPITAL_SIGMA && forall|j: int|
        0 <= j < lower_form(c, false).len() ==> !is_letter(#[trigger] lower_form(c, false)[j])
}

/// A text without letters in any case.
pub open spec fn no_letters(s: Seq<char>) -> bool {
    forall|k: int| 0 <= k < s.len() ==> is_letterless(#[trigger] s[k])
}

/// As many spaces as `s` has characters.
pub open spec fn spaces(s: Seq<char>) -> Seq<char> {
    Seq::new(s.len(), |i: int| ' ')
}

proof fn lemma_lowered_letterless(s: Seq<char>, f: spec_fn(int) -> bool)
    requires
        no_letters(s),
    ensures
        forall|k: int| 0 <= k < lowered(s, f).len() ==> !is_letter(#[trigger] lowered(s, f)[k]),
    decreases s.len(),
{
    if s.len() > 0 {
        let init = s.drop_last();
        assert forall|k: int| 0 <= k < init.len() implies is_letterless(#[trigger] init[k]) by {
            assert(init[k] == s[k]);
        }
        lemma_lowered_letterless(init, f);
        let before = lowered(init, f);
        let form = lower_form(s.last(), f(s.len() - 1));
        assert(is_letterless(s[s.len() - 1]));
        assert(form == lower_form(s.last(), false));
        let all = lowered(s, f);
        assert forall|k: int| 0 <= k < all.len() implies !is_letter(#[trigger] all[k]) by {
            if k < before.len() {
                assert(all[k] == before[k]);
            } else {
                assert(all[k] == form[k - before.len()]);
            }
        }
    }
}

/// Of a text without letters only spaces are left.
pub proof fn lemma_lowercase_letterless(s: Seq<char>)
    requires
        no_letters(s),
    ensures
        sigma_free(s),
        letters_only(lowercase(s)) == spaces(lowercase(s)),
        blank(spaces(lowercase(s))),
{
    assert forall|i: int| 0 <= i < s.len() implies #[trigger] s[i] != CAPITAL_SIGMA by {
        assert(is_letterless(s[i]));
    }
    lemma_lowered_letterless(s, |i: int| sigma_ends_word(s, i));
    assert(letters_only(lowercase(s)) =~= spaces(lowercase(s)));
}

// ---------------------------------------------------------------------------
// Laws
// ---------------------------------------------------------------------------

/// A normal form is made of lower-case letters with single spaces between them, and it is its own
/// normal form.
pub proof fn law_normal_form(text: Seq<char>)
    ensures
        is_spaced(normalized(text), |c: char| is_small_letter(c)),
        normalized(normalized(text)) == normalized(text),
{
    let p = |c: char| is_small_letter(c);
    let words = words_of(letters_only(lowercase(text)));
    let normal = normalized(text);
    lemma_normal_words(text);
    lemma_joined_is_spaced(words, p);
    assert forall|k: int| 0 <= k < normal.len() implies stays(#[trigger] normal[k]) by {
        assert(p(normal[k]) || normal[k] == ' ');
    }
    lemma_lowercase_of_staying(normal);
    assert(letters_only(normal) =~= normal) by {
        assert forall|k: int| 0 <= k < normal.len() implies letters_only(normal)[k]
            == normal[k] by {
            assert(p(normal[k]) || normal[k] == ' ');
        }
    }
    lemma_words_of_joined(words);
}

/// How many letters `s` begins with.
pub open spec fn run_len(s: Seq<char>) -> int
    decreases s.len(),
{
    if s.len() == 0 || !is_letter(s.first()) {
        0
    } else {
        1 + run_len(s.drop_first())
    }
}

/// A run of letters ends at the first character that is none.
pub proof fn lemma_run_len(s: Seq<char>)
    ensures
        0 <= run_len(s) <= s.len(),
        s.len() > 0 && is_letter(s.first()) ==> run_len(s) > 0,
        forall|k: int| 0 <= k < run_len(s) ==> is_letter(#[trigger] s[k]),
        run_len(s) < s.len() ==> !is_letter(s[run_len(s)]),
    decreases s.len(),
{
    if s.len() > 0 && is_letter(s.first()) {
        let rest = s.drop_first();
        lemma_run_len(rest);
        assert forall|k: int| 0 <= k < run_len(s) implies is_letter(#[trigger] s[k]) by {
            if k > 0 {
                assert(s[k] == rest[k - 1]);
            }
        }
    }
}

/// The runs of letters of `s`, each as long as it can be.
pub open spec fn letter_runs(s: Seq<char>) -> Seq<Seq<char>>
    decreases s.len(),
{
    if s.len() == 0 {
        Seq::empty()
    } else if !is_letter(s.first()) {
        letter_runs(s.drop_first())
    } else {
        proof {
            lemma_run_len(s);
        }
        seq![s.take(run_len(s))] + letter_runs(s.skip(run_len(s)))
    }
}

proof fn lemma_words_are_runs(s: Seq<char>)
    ensures
        words_of(letters_only(s)) == letter_runs(s),
    decreases s.len(),
{
    let letters = letters_only(s);
    if s.len() > 0 {
        if !is_letter(s.first()) {
            lemma_words_are_runs(s.drop_first());
            assert(letters.drop_first() =~= letters_only(s.drop_first()));
        } else {
            let n = run_len(s);
            lemma_run_len(s);
            assert forall|k: int| 0 <= k < n implies !is_white_space(#[trigger] letters[k]) by {
                assert(is_letter(s[k]));
            }
            lemma_word_len(letters, n);
            lemma_words_are_runs(s.skip(n));
            assert(letters.skip(n) =~= letters_only(s.skip(n)));
            assert(letters.take(n) =~= s.take(n)) by {
                assert forall|k: int| 0 <= k < n implies letters[k] == s[k] by {
                    assert(is_letter(s[k]));
                }
            }
        }
    }
}

/// The normal form is the runs of letters of the lower-case form, one space apart, and its words
/// are these runs. It is empty if and only if there is no letter.
pub proof fn law_normal_form_is_runs_of_letters(text: Seq<char>)
    ensures
        normalized(text) == joined(letter_runs(lowercase(text)), " "@),
        words_of(normalized(text)) == letter_runs(lowercase(text)),
        normalized(text).len() == 0 <==> forall|k: int|
            0 <= k < lowercase(text).len() ==> !is_letter(#[trigger] lowercase(text)[k]),
{
    let low = lowercase(text);
    lemma_words_are_runs(low);
    lemma_words_of_normalized(text);
    if normalized(text).len() == 0 {
        assert forall|k: int| 0 <= k < low.len() implies !is_letter(#[trigger] low[k]) by {
            if is_letter(low[k]) {
                lemma_letters_are_kept(text, k);
            }
        }
    }
    if forall|k: int| 0 <= k < low.len() ==> !is_letter(#[trigger] low[k]) {
        assert(letters_only(low) =~= spaces(low));
        lemma_blank_has_no_words(spaces(low));
    }
}

/// The words of the normal form of two texts with white space between them are those of the first
/// and those of the second.
pub proof fn lemma_words_of_two(a: Seq<char>, white: char, b: Seq<char>)
    requires
        is_white_space(white),
    ensures
        words_of(letters_only(lowercase(a + seq![white] + b))) == words_of(
            letters_only(lowercase(a)),
        ) + words_of(letters_only(lowercase(b))),
{
    law_lowercase_around_white_space(a, white, b);
    let (x, y) = (lowercase(a), lowercase(b));
    assert(letters_only(x + seq![white] + y) =~= letters_only(x) + seq![' '] + letters_only(y));
    lemma_words_apart(letters_only(x), ' ', letters_only(y));
}

/// The normal form of two texts with white space between them is the two normal forms with a
/// space between them, or the one if the other is empty.
pub proof fn law_normal_form_of_two(a: Seq<char>, white: char, b: Seq<char>)
    requires
        is_white_space(white),
    ensures
        normalized(a + seq![white] + b) == if normalized(a).len() == 0 {
            normalized(b)
        } else if normalized(b).len() == 0 {
            normalized(a)
        } else {
            normalized(a) + " "@ + normalized(b)
        },
{
    lemma_words_of_two(a, white, b);
    let p = |c: char| is_small_letter(c);
    let xs = words_of(letters_only(lowercase(a)));
    let ys = words_of(letters_only(lowercase(b)));
    lemma_normal_words(a);
    lemma_normal_words(b);
    lemma_joined_is_spaced(xs, p);
    lemma_joined_is_spaced(ys, p);
    if xs.len() == 0 {
        assert(xs + ys =~= ys);
    } else if ys.len() == 0 {
        assert(xs + ys =~= xs);
    } else {
        lemma_joined_lists(xs, ys, " "@);
    }
}

/// Texts with one lower-case form have one normal form, and both are noise or neither is.
pub proof fn law_case_does_not_matter(a: Seq<char>, b: Seq<char>)
    requires
        lowercase(a) == lowercase(b),
    ensures
        normalized(a) == normalized(b),
        discarded(a) == discarded(b),
{
    law_lowercase_once_is_enough(a);
    law_lowercase_once_is_enough(b);
}

/// The words of a text: nothing has none, a text without white space is one word, and white space
/// parts the words before it from those behind it.
pub proof fn law_words(a: Seq<char>, white: char, b: Seq<char>, word: Seq<char>)
    requires
        is_white_space(white),
        word.len() > 0,
        forall|k: int| 0 <= k < word.len() ==> !is_white_space(#[trigger] word[k]),
    ensures
        words_of(Seq::empty()) == Seq::<Seq<char>>::empty(),
        words_of(word) == seq![word],
        words_of(a + seq![white] + b) == words_of(a) + words_of(b),
{
    let none = Seq::<char>::empty();
    lemma_words_apart(a, white, b);
    lemma_blank_has_no_words(none);
    lemma_first_word(none, word, none);
    assert(none + word + none =~= word);
    assert(seq![word] + Seq::<Seq<char>>::empty() =~= seq![word]);
}

/// Joining: nothing gives nothing, one part gives itself, and two lists one behind the other give
/// what they give alone with the separator between.
pub proof fn law_joined(xs: Seq<Seq<char>>, ys: Seq<Seq<char>>, part: Seq<char>, sep: Seq<char>)
    ensures
        joined(Seq::empty(), sep) == Seq::<char>::empty(),
        joined(seq![part], sep) == part,
        xs.len() > 0 && ys.len() > 0 ==> joined(xs + ys, sep) == joined(xs, sep) + sep + joined(
            ys,
            sep,
        ),
{
    if xs.len() > 0 && ys.len() > 0 {
        lemma_joined_lists(xs, ys, sep);
    }
}

/// Letters stay and everything else becomes a space, character by character.
pub proof fn law_letters_only(a: Seq<char>, b: Seq<char>, c: char)
    ensures
        letters_only(a + b) == letters_only(a) + letters_only(b),
        is_letter(c) ==> letters_only(seq![c]) == seq![c],
        !is_letter(c) ==> letters_only(seq![c]) == seq![' '],
        letters_only(a).len() == a.len(),
{
    lemma_letters_only_concat(a, b);
    assert(letters_only(seq![c]) =~= seq![if is_letter(c) { c } else { ' ' }]);
}

/// Collapsing white space keeps the words, and leaves single spaces between them and no other white
/// space.
pub proof fn law_collapsed(s: Seq<char>)
    requires
        forall|k: int| 0 <= k < s.len() && is_white_space(#[trigger] s[k]) ==> s[k] == ' ',
    ensures
        words_of(collapsed(s)) == words_of(s),
        is_spaced(collapsed(s), |c: char| !is_white_space(c)),
{
    let p = |c: char| !is_white_space(c);
    assert forall|k: int| 0 <= k < s.len() implies p(#[trigger] s[k]) || s[k] == ' ' by {}
    lemma_words_are_of(s, p);
    let words = words_of(s);
    assert forall|i: int| 0 <= i < words.len() implies is_word(#[trigger] words[i]) by {
        assert(is_word_of(words[i], p));
        assert forall|k: int| 0 <= k < words[i].len() implies !is_white_space(
            #[trigger] words[i][k],
        ) by {
            assert(p(words[i][k]));
        }
    }
    lemma_words_of_joined(words);
    lemma_joined_is_spaced(words, p);
}

} // verus!
