//! Letters and their case.
//!
//! What is a letter, and which lower-case form a character has, is Unicode's to say, and the
//! standard library answers it from its tables. What the other modules rest on is spelled out here:
//! ASCII, white space, and how the lower-case form of a text is made of those of its characters.

use vstd::prelude::*;
use vstd::utf8::is_ascii_chars;

use crate::text::{is_white_space, lemma_word_len, lemma_word_len_is_run, word_len};

verus! {

// ---------------------------------------------------------------------------
// ASCII
// ---------------------------------------------------------------------------

/// One of `A` to `Z` or `a` to `z`.
pub open spec fn is_ascii_letter(c: char) -> bool {
    ('A' <= c && c <= 'Z') || ('a' <= c && c <= 'z')
}

/// `c` with `A` to `Z` turned into `a` to `z`.
pub open spec fn ascii_lower(c: char) -> char {
    if 'A' <= c && c <= 'Z' {
        (c as u8 + 32) as char
    } else {
        c
    }
}

/// Each character of `s` with `A` to `Z` turned into `a` to `z`.
pub open spec fn ascii_lowered(s: Seq<char>) -> Seq<char> {
    Seq::new(s.len(), |i: int| ascii_lower(s[i]))
}

// ---------------------------------------------------------------------------
// Lower case
// ---------------------------------------------------------------------------

/// What `str::to_lowercase` makes of a text.
pub uninterp spec fn unicode_lowercase(s: Seq<char>) -> Seq<char>;

/// The Greek capital sigma: the one character whose lower-case form depends on its place.
pub const CAPITAL_SIGMA: char = '\u{3a3}';

/// The lower-case sigma.
pub const SMALL_SIGMA: char = '\u{3c3}';

/// The lower-case sigma at the end of a word.
pub const FINAL_SIGMA: char = '\u{3c2}';

/// The capital I with a dot: the one character whose lower-case form is two characters.
pub const DOTTED_I: char = '\u{130}';

/// The combining dot above.
pub const DOT_ABOVE: char = '\u{307}';

/// Whether `c` is its own lower-case form.
pub open spec fn is_lower(c: char) -> bool {
    if c <= '\x7f' {
        !('A' <= c && c <= 'Z')
    } else {
        ||| is_white_space(c) || c == SMALL_SIGMA || c == FINAL_SIGMA || c == DOT_ABOVE
        ||| c != CAPITAL_SIGMA && c != DOTTED_I && unicode_lowercase(seq![c]) == seq![c]
    }
}

/// The lower-case form of `c`: one character that is its own lower-case form, but for the capital
/// I with a dot. `ends_word` tells a sigma at the end of a word from others.
pub open spec fn lower_form(c: char, ends_word: bool) -> Seq<char> {
    if is_lower(c) {
        seq![c]
    } else if c <= '\x7f' {
        seq![ascii_lower(c)]
    } else if c == CAPITAL_SIGMA {
        seq![if ends_word { FINAL_SIGMA } else { SMALL_SIGMA }]
    } else if c == DOTTED_I {
        seq!['i', DOT_ABOVE]
    } else {
        let form = unicode_lowercase(seq![c]);
        if form.len() == 1 && is_lower(form[0]) {
            form
        } else {
            seq![c]
        }
    }
}

/// The lower-case forms of the characters of `s`, one after the other, where `ends_word` tells
/// which sigmas stand at the end of a word.
pub open spec fn lowered(s: Seq<char>, ends_word: spec_fn(int) -> bool) -> Seq<char>
    decreases s.len(),
{
    if s.len() == 0 {
        s
    } else {
        lowered(s.drop_last(), ends_word) + lower_form(s.last(), ends_word(s.len() - 1))
    }
}

/// Where the stretch without white space begins that `at` stands in.
pub open spec fn word_start(s: Seq<char>, at: int) -> int
    decreases at,
{
    if at <= 0 || is_white_space(s[at - 1]) {
        at
    } else {
        word_start(s, at - 1)
    }
}

/// Whether the capital sigma at `at` becomes the sigma at the end of a word. The stretch without
/// white space that it stands in decides.
pub open spec fn sigma_ends_word(s: Seq<char>, at: int) -> bool {
    let from = word_start(s, at);
    let word = s.subrange(from, at + word_len(s.skip(at)));
    let place = lowered(word.take(at - from), |i: int| false).len();
    unicode_lowercase(word)[place as int] == FINAL_SIGMA
}

/// The lower-case form of `s`.
pub open spec fn lowercase(s: Seq<char>) -> Seq<char> {
    lowered(s, |i: int| sigma_ends_word(s, i))
}

/// `str::to_lowercase` returns Unicode's lower-case form of the text, which is a function of the
/// text alone. It puts each character's lower-case form in the place of the character: of `A` to
/// `Z` that is `a` to `z`, the other ASCII characters and white space stay, and elsewhere it is
/// one character, which has no other lower-case form, or, of the capital I with a dot, two. A
/// capital sigma becomes one of the two small ones, and the word that it stands in decides which.
pub assume_specification[ str::to_lowercase ](s: &str) -> (out: String)
    ensures
        out@ == unicode_lowercase(s@),
        out@ == lowercase(s@),
;

// ---------------------------------------------------------------------------
// Letters
// ---------------------------------------------------------------------------

/// What `char::is_alphabetic` says of a character.
pub uninterp spec fn unicode_alphabetic(c: char) -> bool;

/// Whether `c` is a letter. No white space is, and the small sigmas are.
pub open spec fn is_letter(c: char) -> bool {
    if c <= '\x7f' {
        is_ascii_letter(c)
    } else if is_white_space(c) {
        false
    } else {
        c == SMALL_SIGMA || c == FINAL_SIGMA || unicode_alphabetic(c)
    }
}

/// `char::is_alphabetic` tells whether the character has Unicode's property Alphabetic. Among the
/// ASCII characters these are `A` to `Z` and `a` to `z`. White space does not have it, and the two
/// small sigmas do.
pub assume_specification[ char::is_alphabetic ](c: char) -> (yes: bool)
    ensures
        yes == unicode_alphabetic(c),
        yes == is_letter(c),
;

// ---------------------------------------------------------------------------
// Laws
// ---------------------------------------------------------------------------

/// A text without a capital sigma.
pub open spec fn sigma_free(s: Seq<char>) -> bool {
    forall|i: int| 0 <= i < s.len() ==> #[trigger] s[i] != CAPITAL_SIGMA
}

/// Only of the sigmas does it matter which end a word.
proof fn lemma_lowered_same(s: Seq<char>, f: spec_fn(int) -> bool, g: spec_fn(int) -> bool)
    requires
        forall|i: int| 0 <= i < s.len() && #[trigger] s[i] == CAPITAL_SIGMA ==> f(i) == g(i),
    ensures
        lowered(s, f) == lowered(s, g),
    decreases s.len(),
{
    if s.len() > 0 {
        let init = s.drop_last();
        assert forall|i: int| 0 <= i < init.len() && #[trigger] init[i] == CAPITAL_SIGMA implies f(i)
            == g(i) by {
            assert(init[i] == s[i]);
        }
        lemma_lowered_same(init, f, g);
        assert(s[s.len() - 1] == s.last());
    }
}

/// The forms of two texts one after the other.
proof fn lemma_lowered_concat(a: Seq<char>, b: Seq<char>, f: spec_fn(int) -> bool)
    ensures
        lowered(a + b, f) == lowered(a, f) + lowered(b, |i: int| f(i + a.len())),
    decreases b.len(),
{
    let g = |i: int| f(i + a.len());
    if b.len() == 0 {
        assert(a + b =~= a);
        assert(lowered(a, f) + lowered(b, g) =~= lowered(a, f));
    } else {
        lemma_lowered_concat(a, b.drop_last(), f);
        assert((a + b).drop_last() =~= a + b.drop_last());
        assert(lowered(a + b, f) =~= lowered(a, f) + lowered(b, g));
    }
}

/// The lower-case form of a text without a capital sigma is that of its first part and that of its
/// second, wherever it is parted.
pub proof fn law_lowercase_of_parts(a: Seq<char>, b: Seq<char>)
    requires
        sigma_free(a + b),
    ensures
        lowercase(a + b) == lowercase(a) + lowercase(b),
{
    let s = a + b;
    let f = |i: int| sigma_ends_word(s, i);
    lemma_lowered_concat(a, b, f);
    assert forall|i: int| 0 <= i < a.len() implies #[trigger] a[i] != CAPITAL_SIGMA by {
        assert(s[i] == a[i]);
    }
    assert forall|i: int| 0 <= i < b.len() implies #[trigger] b[i] != CAPITAL_SIGMA by {
        assert(s[i + a.len()] == b[i]);
    }
    lemma_lowered_same(a, f, |i: int| sigma_ends_word(a, i));
    lemma_lowered_same(b, |i: int| f(i + a.len()), |i: int| sigma_ends_word(b, i));
}

/// Words begin where they begin in a part that white space, or nothing, stands before.
proof fn lemma_word_start(a: Seq<char>, b: Seq<char>, at: int)
    requires
        0 <= at <= b.len(),
        a.len() == 0 || is_white_space(a.last()),
    ensures
        word_start(a + b, at + a.len()) == word_start(b, at) + a.len(),
        0 <= word_start(b, at) <= at,
    decreases at,
{
    let s = a + b;
    if at > 0 {
        assert(s[at + a.len() - 1] == b[at - 1]);
        if !is_white_space(b[at - 1]) {
            lemma_word_start(a, b, at - 1);
        }
    } else if a.len() > 0 {
        assert(s[a.len() - 1] == a.last());
    }
}

/// What stands behind a place does not change where the word begins.
proof fn lemma_word_start_of_front(a: Seq<char>, b: Seq<char>, at: int)
    requires
        0 <= at <= a.len(),
    ensures
        word_start(a + b, at) == word_start(a, at),
        0 <= word_start(a, at) <= at,
    decreases at,
{
    if at > 0 {
        assert((a + b)[at - 1] == a[at - 1]);
        if !is_white_space(a[at - 1]) {
            lemma_word_start_of_front(a, b, at - 1);
        }
    }
}

/// White space parts a text: the lower-case form of the whole is that of what stands before, the
/// white space, and that of what stands behind.
pub proof fn law_lowercase_around_white_space(a: Seq<char>, white: char, b: Seq<char>)
    requires
        is_white_space(white),
    ensures
        lowercase(a + seq![white] + b) == lowercase(a) + seq![white] + lowercase(b),
{
    let front = a.push(white);
    let s = a + seq![white] + b;
    let n = a.len() as int;
    let f = |i: int| sigma_ends_word(s, i);
    assert(s =~= front + b);
    assert(s =~= a + (seq![white] + b));
    assert(front =~= a + seq![white]);
    lemma_lowered_concat(front, b, f);
    assert(front.drop_last() =~= a);
    assert(lowered(front, f) == lowered(a, f) + seq![white]);
    assert forall|i: int| 0 <= i < n && #[trigger] a[i] == CAPITAL_SIGMA implies sigma_ends_word(
        s,
        i,
    ) == sigma_ends_word(a, i) by {
        lemma_word_start_of_front(a, seq![white] + b, i);
        let rest = a.skip(i);
        let long = s.skip(i);
        lemma_word_len_is_run(rest);
        let m = word_len(rest);
        assert forall|k: int| 0 <= k < m implies !is_white_space(#[trigger] long[k]) by {
            assert(long[k] == rest[k]);
        }
        assert(long[m] == if m < rest.len() { rest[m] } else { white });
        lemma_word_len(long, m);
        let from = word_start(a, i);
        assert(s.subrange(from, i + m) =~= a.subrange(from, i + m));
    }
    lemma_lowered_same(a, f, |i: int| sigma_ends_word(a, i));
    let g = |i: int| f(i + front.len());
    assert forall|i: int| 0 <= i < b.len() && #[trigger] b[i] == CAPITAL_SIGMA implies g(i)
        == sigma_ends_word(b, i) by {
        lemma_word_start(front, b, i);
        assert(s.skip(i + front.len()) =~= b.skip(i));
        lemma_word_len_is_run(b.skip(i));
        let from = word_start(b, i);
        let to = i + word_len(b.skip(i));
        assert(s.subrange(from + front.len(), to + front.len()) =~= b.subrange(from, to));
    }
    lemma_lowered_same(b, g, |i: int| sigma_ends_word(b, i));
}

/// Whether `c` stays as it is in every place of a text that is put in lower case.
pub open spec fn stays(c: char) -> bool {
    lower_form(c, true) == seq![c] && lower_form(c, false) == seq![c]
}

/// Each character of a lower-case form stays as it is.
pub proof fn lemma_lower_form_stays(c: char, ends_word: bool)
    ensures
        1 <= lower_form(c, ends_word).len() <= 2,
        forall|k: int|
            0 <= k < lower_form(c, ends_word).len() ==> stays(#[trigger] lower_form(c, ends_word)[k]),
        c == CAPITAL_SIGMA ==> lower_form(c, ends_word) == seq![FINAL_SIGMA] || lower_form(
            c,
            ends_word,
        ) == seq![SMALL_SIGMA],
{
}

proof fn lemma_lowered_stays(s: Seq<char>, f: spec_fn(int) -> bool)
    ensures
        s.len() <= lowered(s, f).len() <= 2 * s.len(),
        forall|k: int| 0 <= k < lowered(s, f).len() ==> stays(#[trigger] lowered(s, f)[k]),
        sigma_free(s) || lowered(s, f).contains(SMALL_SIGMA) || lowered(s, f).contains(FINAL_SIGMA),
    decreases s.len(),
{
    if s.len() > 0 {
        let init = s.drop_last();
        let form = lower_form(s.last(), f(s.len() - 1));
        let before = lowered(init, f);
        let all = lowered(s, f);
        lemma_lowered_stays(init, f);
        lemma_lower_form_stays(s.last(), f(s.len() - 1));
        assert forall|k: int| 0 <= k < all.len() implies stays(#[trigger] all[k]) by {
            if k < before.len() {
                assert(all[k] == before[k]);
            } else {
                assert(all[k] == form[k - before.len()]);
            }
        }
        if !sigma_free(s) {
            if s.last() == CAPITAL_SIGMA {
                assert(all[before.len() as int] == form[0]);
            } else {
                assert(!sigma_free(init)) by {
                    let i = choose|i: int| 0 <= i < s.len() && #[trigger] s[i] == CAPITAL_SIGMA;
                    assert(init[i] == s[i]);
                }
                if before.contains(SMALL_SIGMA) {
                    let k = before.index_of(SMALL_SIGMA);
                    assert(all[k] == SMALL_SIGMA);
                } else {
                    let k = before.index_of(FINAL_SIGMA);
                    assert(all[k] == FINAL_SIGMA);
                }
            }
        }
    }
}

proof fn lemma_lowered_of_staying(s: Seq<char>, f: spec_fn(int) -> bool)
    requires
        forall|k: int| 0 <= k < s.len() ==> stays(#[trigger] s[k]),
    ensures
        lowered(s, f) == s,
    decreases s.len(),
{
    if s.len() > 0 {
        let init = s.drop_last();
        assert forall|k: int| 0 <= k < init.len() implies stays(#[trigger] init[k]) by {
            assert(init[k] == s[k]);
        }
        lemma_lowered_of_staying(init, f);
        assert(stays(s[s.len() - 1]));
        assert(init + seq![s.last()] =~= s);
    }
}

/// A text of characters that stay as they are is its own lower-case form.
pub proof fn lemma_lowercase_of_staying(s: Seq<char>)
    requires
        forall|k: int| 0 <= k < s.len() ==> stays(#[trigger] s[k]),
    ensures
        lowercase(s) == s,
{
    lemma_lowered_of_staying(s, |i: int| sigma_ends_word(s, i));
}

/// A lower-case form is its own lower-case form, each character of a text gives one character of
/// it or two, and a capital sigma leaves a small one.
pub proof fn law_lowercase_once_is_enough(s: Seq<char>)
    ensures
        lowercase(lowercase(s)) == lowercase(s),
        s.len() <= lowercase(s).len() <= 2 * s.len(),
        forall|k: int| 0 <= k < lowercase(s).len() ==> stays(#[trigger] lowercase(s)[k]),
        sigma_free(s) || lowercase(s).contains(SMALL_SIGMA) || lowercase(s).contains(FINAL_SIGMA),
{
    lemma_lowered_stays(s, |i: int| sigma_ends_word(s, i));
    lemma_lowercase_of_staying(lowercase(s));
}

proof fn lemma_lowered_ascii(s: Seq<char>, f: spec_fn(int) -> bool)
    requires
        is_ascii_chars(s),
    ensures
        lowered(s, f) == ascii_lowered(s),
    decreases s.len(),
{
    if s.len() > 0 {
        let init = s.drop_last();
        assert forall|k: int| 0 <= k < init.len() implies '\0' <= #[trigger] init[k]
            <= '\u{7f}' by {
            assert(init[k] == s[k]);
        }
        lemma_lowered_ascii(init, f);
        assert(s[s.len() - 1] <= '\u{7f}');
        assert(lower_form(s.last(), f(s.len() - 1)) =~= seq![ascii_lower(s.last())]);
        assert(ascii_lowered(init) + seq![ascii_lower(s.last())] =~= ascii_lowered(s));
    } else {
        assert(ascii_lowered(s) =~= s);
    }
}

/// The lower-case form of an ASCII text is the text with `A` to `Z` turned into `a` to `z`.
pub proof fn law_lowercase_of_ascii(s: Seq<char>)
    requires
        is_ascii_chars(s),
    ensures
        lowercase(s) == ascii_lowered(s),
{
    lemma_lowered_ascii(s, |i: int| sigma_ends_word(s, i));
}

proof fn lemma_lowered_in_any_case(a: Seq<char>, b: Seq<char>, f: spec_fn(int) -> bool)
    requires
        ascii_lowered(a) == ascii_lowered(b),
    ensures
        lowered(a, f) == lowered(b, f),
    decreases a.len(),
{
    let (x, y) = (ascii_lowered(a), ascii_lowered(b));
    assert(a.len() == x.len() && b.len() == y.len());
    if a.len() > 0 {
        assert(ascii_lowered(a.drop_last()) =~= x.drop_last());
        assert(ascii_lowered(b.drop_last()) =~= y.drop_last());
        lemma_lowered_in_any_case(a.drop_last(), b.drop_last(), f);
        assert(x[a.len() - 1] == y[a.len() - 1]);
    } else {
        assert(a =~= b);
    }
}

/// An ASCII part of a text stands, in lower case, in the lower-case form of the text.
pub proof fn law_lowercase_holds_ascii_parts(a: Seq<char>, part: Seq<char>, b: Seq<char>) -> (at: int)
    requires
        is_ascii_chars(part),
    ensures
        0 <= at,
        at + part.len() <= lowercase(a + part + b).len(),
        lowercase(a + part + b).subrange(at, at + part.len()) == ascii_lowered(part),
{
    let s = a + part + b;
    let f = |i: int| sigma_ends_word(s, i);
    let g = |i: int| f(i + a.len());
    lemma_lowered_concat(a + part, b, f);
    lemma_lowered_concat(a, part, f);
    lemma_lowered_ascii(part, g);
    let at = lowered(a, f).len() as int;
    assert(lowercase(s).subrange(at, at + part.len()) =~= ascii_lowered(part));
    at
}

/// Texts without a capital sigma that differ only in the case of ASCII letters have one lower-case
/// form.
pub proof fn law_lowercase_in_any_case(a: Seq<char>, b: Seq<char>)
    requires
        ascii_lowered(a) == ascii_lowered(b),
        sigma_free(a),
    ensures
        lowercase(a) == lowercase(b),
{
    let f = |i: int| sigma_ends_word(a, i);
    assert(ascii_lowered(a).len() == a.len() && ascii_lowered(b).len() == b.len());
    assert forall|i: int| 0 <= i < b.len() implies #[trigger] b[i] != CAPITAL_SIGMA by {
        assert(ascii_lowered(b)[i] == ascii_lower(b[i]));
        assert(ascii_lowered(a)[i] == ascii_lower(a[i]));
        assert(a[i] != CAPITAL_SIGMA);
    }
    lemma_lowered_in_any_case(a, b, f);
    lemma_lowered_same(b, f, |i: int| sigma_ends_word(b, i));
}

} // verus!
