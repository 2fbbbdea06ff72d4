//! Text as sequences of characters: the string operations the other modules are built from.

use vstd::prelude::*;

verus! {

/// `String::push` appends one character at the end and changes nothing else.
pub assume_specification[ String::push ](s: &mut String, c: char)
    ensures
        final(s)@ == old(s)@.push(c),
;

// ---------------------------------------------------------------------------
// Building and comparing
// ---------------------------------------------------------------------------

/// The characters of each text of a list.
pub open spec fn views(texts: Seq<String>) -> Seq<Seq<char>> {
    Seq::new(texts.len(), |i: int| texts[i]@)
}

/// The characters of `s`, in order.
pub fn chars_of(s: &str) -> (out: Vec<char>)
    ensures
        out@ == s@,
{
    let mut out: Vec<char> = Vec::new();
    for c in it: s.chars()
        invariant
            out@ == it.seq().take(it.index()),
            it.seq() == s@,
    {
        out.push(c);
        assert(it.seq().take(it.index() + 1) =~= it.seq().take(it.index()).push(c));
    }
    assert(s@.take(s@.len() as int) =~= s@);
    out
}

/// The text made of the characters `chars[from..to]`.
pub fn string_of(chars: &Vec<char>, from: usize, to: usize) -> (out: String)
    requires
        from <= to <= chars.len(),
    ensures
        out@ == chars@.subrange(from as int, to as int),
{
    let mut out = String::new();
    for i in from..to
        invariant
            from <= to <= chars.len(),
            out@ == chars@.subrange(from as int, i as int),
    {
        out.push(chars[i]);
        assert(chars@.subrange(from as int, i + 1) =~= chars@.subrange(from as int, i as int).push(
            chars@[i as int],
        ));
    }
    out
}

/// Whether two texts hold the same characters.
pub fn same_text(a: &str, b: &str) -> (same: bool)
    ensures
        same == (a@ == b@),
{
    a.to_owned() == b.to_owned()
}

/// The parts one after the other, with `sep` between neighbours.
pub open spec fn joined(parts: Seq<Seq<char>>, sep: Seq<char>) -> Seq<char>
    decreases parts.len(),
{
    if parts.len() == 0 {
        Seq::empty()
    } else if parts.len() == 1 {
        parts[0]
    } else {
        joined(parts.drop_last(), sep) + sep + parts.last()
    }
}

/// Joins the texts of a list with `sep` between neighbours.
pub fn join(parts: &Vec<String>, sep: &str) -> (out: String)
    ensures
        out@ == joined(views(parts@), sep@),
{
    let mut out = String::new();
    let ghost all = views(parts@);
    for i in 0..parts.len()
        invariant
            all == views(parts@),
            out@ == joined(all.take(i as int), sep@),
    {
        if i > 0 {
            out.append(sep);
        }
        out.append(parts[i].as_str());
        proof {
            assert(all.take(i + 1).drop_last() =~= all.take(i as int));
            assert(all.take(i + 1).last() == parts@[i as int]@);
            if i == 0 {
                assert(out@ =~= parts@[0]@);
            }
        }
    }
    assert(all.take(parts@.len() as int) =~= all);
    out
}

// ---------------------------------------------------------------------------
// White space
// ---------------------------------------------------------------------------

/// The characters with the Unicode property White_Space.
pub open spec fn is_white_space(c: char) -> bool {
    ||| '\t' <= c && c <= '\r'
    ||| c == ' '
    ||| c == '\u{85}'
    ||| c == '\u{a0}'
    ||| c == '\u{1680}'
    ||| '\u{2000}' <= c && c <= '\u{200a}'
    ||| c == '\u{2028}'
    ||| c == '\u{2029}'
    ||| c == '\u{202f}'
    ||| c == '\u{205f}'
    ||| c == '\u{3000}'
}

/// Whether `c` is white space.
pub fn is_whitespace(c: char) -> (white: bool)
    ensures
        white == is_white_space(c),
{
    ('\t' <= c && c <= '\r') || c == ' ' || c == '\u{85}' || c == '\u{a0}' || c == '\u{1680}' || (
    '\u{2000}' <= c && c <= '\u{200a}') || c == '\u{2028}' || c == '\u{2029}' || c == '\u{202f}'
        || c == '\u{205f}' || c == '\u{3000}'
}

/// No character but white space.
pub open spec fn blank(s: Seq<char>) -> bool {
    forall|i: int| 0 <= i < s.len() ==> is_white_space(#[trigger] s[i])
}

/// Whether `s` holds white space only. The empty text does.
pub fn is_blank(s: &str) -> (b: bool)
    ensures
        b == blank(s@),
{
    let chars = chars_of(s);
    for i in 0..chars.len()
        invariant
            chars@ == s@,
            forall|k: int| 0 <= k < i ==> is_white_space(#[trigger] s@[k]),
    {
        if !is_whitespace(chars[i]) {
            assert(!is_white_space(s@[i as int]));
            return false;
        }
    }
    true
}

// ---------------------------------------------------------------------------
// Trimming
// ---------------------------------------------------------------------------

/// Which characters are cut off at both ends of a text.
pub enum Edges {
    /// White space.
    White,
    /// White space and the marks `. , ! ? ; :`.
    WhiteAndMarks,
}

impl Edges {
    /// Whether `c` is one of the characters to cut off.
    pub open spec fn has(self, c: char) -> bool {
        ||| is_white_space(c)
        ||| self is WhiteAndMarks && (c == '.' || c == ',' || c == '!' || c == '?' || c == ';' || c
            == ':')
    }

    /// Whether `c` is one of the characters to cut off.
    pub fn contains(&self, c: char) -> (yes: bool)
        ensures
            yes == self.has(c),
    {
        match self {
            Edges::White => is_whitespace(c),
            Edges::WhiteAndMarks => is_whitespace(c) || c == '.' || c == ',' || c == '!' || c == '?'
                || c == ';' || c == ':',
        }
    }
}

/// `s` without the edge characters at its two ends.
pub open spec fn trimmed(s: Seq<char>, edges: Edges) -> Seq<char>
    decreases s.len(),
{
    if s.len() == 0 {
        s
    } else if edges.has(s.first()) {
        trimmed(s.drop_first(), edges)
    } else if edges.has(s.last()) {
        trimmed(s.drop_last(), edges)
    } else {
        s
    }
}

/// Edge characters in front do not count.
pub proof fn lemma_trimmed_front(s: Seq<char>, n: int, edges: Edges)
    requires
        0 <= n <= s.len(),
        forall|k: int| 0 <= k < n ==> edges.has(#[trigger] s[k]),
    ensures
        trimmed(s, edges) == trimmed(s.skip(n), edges),
    decreases n,
{
    if n == 0 {
        assert(s.skip(0) =~= s);
    } else {
        assert(edges.has(s[0]));
        assert forall|k: int| 0 <= k < n - 1 implies edges.has(#[trigger] s.drop_first()[k]) by {
            assert(edges.has(s[k + 1]));
        }
        lemma_trimmed_front(s.drop_first(), n - 1, edges);
        assert(s.drop_first().skip(n - 1) =~= s.skip(n));
    }
}

/// Edge characters at the back do not count.
pub proof fn lemma_trimmed_back(s: Seq<char>, n: int, edges: Edges)
    requires
        0 <= n <= s.len(),
        forall|k: int| n <= k < s.len() ==> edges.has(#[trigger] s[k]),
    ensures
        trimmed(s, edges) == trimmed(s.take(n), edges),
    decreases s.len(),
{
    if n == s.len() {
        assert(s.take(n) =~= s);
    } else if edges.has(s.first()) {
        if n > 0 {
            assert forall|k: int| n - 1 <= k < s.drop_first().len() implies edges.has(
                #[trigger] s.drop_first()[k],
            ) by {
                assert(edges.has(s[k + 1]));
            }
            lemma_trimmed_back(s.drop_first(), n - 1, edges);
            assert(s.drop_first().take(n - 1) =~= s.take(n).drop_first());
        } else {
            lemma_trimmed_front(s, s.len() as int, edges);
            assert(s.skip(s.len() as int) =~= s.take(0));
        }
    } else {
        assert(n > 0);
        assert(edges.has(s[s.len() - 1]));
        assert forall|k: int| n <= k < s.drop_last().len() implies edges.has(
            #[trigger] s.drop_last()[k],
        ) by {
            assert(edges.has(s[k]));
        }
        lemma_trimmed_back(s.drop_last(), n, edges);
        assert(s.drop_last().take(n) =~= s.take(n));
    }
}

/// What is left of a text begins and ends with no edge character, and to cut it again changes
/// nothing.
pub proof fn law_trimmed_once_is_enough(s: Seq<char>, edges: Edges)
    ensures
        trimmed(trimmed(s, edges), edges) == trimmed(s, edges),
        trimmed(s, edges).len() <= s.len(),
        trimmed(s, edges).len() > 0 ==> !edges.has(trimmed(s, edges).first()) && !edges.has(
            trimmed(s, edges).last(),
        ),
    decreases s.len(),
{
    if s.len() > 0 {
        if edges.has(s.first()) {
            law_trimmed_once_is_enough(s.drop_first(), edges);
        } else if edges.has(s.last()) {
            law_trimmed_once_is_enough(s.drop_last(), edges);
        }
    }
}

/// Edge characters around a text make no difference to what is left of it.
pub proof fn law_edges_do_not_matter(
    before: Seq<char>,
    s: Seq<char>,
    behind: Seq<char>,
    edges: Edges,
)
    requires
        forall|i: int| 0 <= i < before.len() ==> edges.has(#[trigger] before[i]),
        forall|i: int| 0 <= i < behind.len() ==> edges.has(#[trigger] behind[i]),
    ensures
        trimmed(before + s + behind, edges) == trimmed(s, edges),
{
    let all = before + s + behind;
    let n = before.len() as int;
    assert forall|k: int| 0 <= k < n implies edges.has(#[trigger] all[k]) by {
        assert(all[k] == before[k]);
    }
    lemma_trimmed_front(all, n, edges);
    let rest = all.skip(n);
    assert(rest =~= s + behind);
    let m = s.len() as int;
    assert forall|k: int| m <= k < rest.len() implies edges.has(#[trigger] rest[k]) by {
        assert(rest[k] == behind[k - m]);
    }
    lemma_trimmed_back(rest, m, edges);
    assert(rest.take(m) =~= s);
}

/// Edge characters go from around a text that begins and ends with others.
pub proof fn lemma_trimmed_around(
    before: Seq<char>,
    core: Seq<char>,
    behind: Seq<char>,
    edges: Edges,
) -> (ends: (int, int))
    requires
        core.len() > 0,
        !edges.has(core.first()),
        !edges.has(core.last()),
    ensures
        0 <= ends.0 <= before.len(),
        0 <= ends.1 <= behind.len(),
        trimmed(before + core + behind, edges) == before.skip(ends.0) + core + behind.take(ends.1),
    decreases before.len() + behind.len(),
{
    let all = before + core + behind;
    if before.len() > 0 && edges.has(before.first()) {
        let rest = before.drop_first();
        let (i, j) = lemma_trimmed_around(rest, core, behind, edges);
        assert(all.drop_first() =~= rest + core + behind);
        assert(rest.skip(i) =~= before.skip(i + 1));
        (i + 1, j)
    } else if behind.len() > 0 && edges.has(behind.last()) {
        let rest = behind.drop_last();
        let (i, j) = lemma_trimmed_around(before, core, rest, edges);
        assert(all.drop_last() =~= before + core + rest);
        assert(rest.take(j) =~= behind.take(j));
        (i, j)
    } else {
        assert(before.skip(0) =~= before);
        assert(behind.take(behind.len() as int) =~= behind);
        (0, behind.len() as int)
    }
}

/// Cuts the edge characters off both ends of `s`.
pub fn trim(s: &str, edges: &Edges) -> (out: String)
    ensures
        out@ == trimmed(s@, *edges),
{
    let chars = chars_of(s);
    let mut from: usize = 0;
    let mut to: usize = chars.len();
    while from < to && edges.contains(chars[from])
        invariant
            0 <= from <= to,
            to == chars.len(),
            chars@ == s@,
            forall|k: int| 0 <= k < from ==> edges.has(#[trigger] s@[k]),
        ensures
            from == to || !edges.has(s@[from as int]),
        decreases to - from,
    {
        from = from + 1;
    }
    while from < to && edges.contains(chars[to - 1])
        invariant
            0 <= from <= to <= chars.len(),
            chars@ == s@,
            forall|k: int| to <= k < s@.len() ==> edges.has(#[trigger] s@[k]),
        ensures
            from == to || !edges.has(s@[to - 1]),
        decreases to,
    {
        to = to - 1;
    }
    proof {
        lemma_trimmed_front(s@, from as int, *edges);
        let tail = s@.skip(from as int);
        assert forall|k: int| to - from <= k < tail.len() implies edges.has(#[trigger] tail[k]) by {
            assert(edges.has(s@[k + from]));
        }
        lemma_trimmed_back(tail, to - from, *edges);
        assert(tail.take(to - from) =~= s@.subrange(from as int, to as int));
    }
    string_of(&chars, from, to)
}

// ---------------------------------------------------------------------------
// Words
// ---------------------------------------------------------------------------

/// How many characters `s` begins with that are no white space.
pub open spec fn word_len(s: Seq<char>) -> int
    decreases s.len(),
{
    if s.len() == 0 || is_white_space(s.first()) {
        0
    } else {
        1 + word_len(s.drop_first())
    }
}

/// A word ends within the text, and is not empty where the text begins with it.
pub proof fn lemma_word_len_within(s: Seq<char>)
    ensures
        0 <= word_len(s) <= s.len(),
        s.len() > 0 && !is_white_space(s.first()) ==> word_len(s) > 0,
    decreases s.len(),
{
    if s.len() > 0 && !is_white_space(s.first()) {
        lemma_word_len_within(s.drop_first());
    }
}

/// The words of `s`: the pieces between stretches of white space.
pub open spec fn words_of(s: Seq<char>) -> Seq<Seq<char>>
    decreases s.len(),
{
    if s.len() == 0 {
        Seq::empty()
    } else if is_white_space(s.first()) {
        words_of(s.drop_first())
    } else {
        proof {
            lemma_word_len_within(s);
        }
        seq![s.take(word_len(s))] + words_of(s.skip(word_len(s)))
    }
}

/// What `word_len` measures is the first stretch without white space.
pub proof fn lemma_word_len(s: Seq<char>, n: int)
    requires
        0 <= n <= s.len(),
        forall|k: int| 0 <= k < n ==> !is_white_space(#[trigger] s[k]),
        n == s.len() || is_white_space(s[n]),
    ensures
        word_len(s) == n,
    decreases n,
{
    if n > 0 {
        assert(!is_white_space(s[0]));
        assert forall|k: int| 0 <= k < n - 1 implies !is_white_space(
            #[trigger] s.drop_first()[k],
        ) by {
            assert(!is_white_space(s[k + 1]));
        }
        lemma_word_len(s.drop_first(), n - 1);
    }
}

/// The stretch that `word_len` measures.
pub proof fn lemma_word_len_is_run(s: Seq<char>)
    ensures
        0 <= word_len(s) <= s.len(),
        forall|k: int| 0 <= k < word_len(s) ==> !is_white_space(#[trigger] s[k]),
        word_len(s) < s.len() ==> is_white_space(s[word_len(s)]),
    decreases s.len(),
{
    if s.len() > 0 && !is_white_space(s.first()) {
        let rest = s.drop_first();
        lemma_word_len_is_run(rest);
        assert forall|k: int| 0 <= k < word_len(s) implies !is_white_space(#[trigger] s[k]) by {
            if k > 0 {
                assert(s[k] == rest[k - 1]);
            }
        }
    }
}

/// White space in front adds no word.
pub proof fn lemma_words_after_blank(s: Seq<char>, n: int)
    requires
        0 <= n <= s.len(),
        forall|k: int| 0 <= k < n ==> is_white_space(#[trigger] s[k]),
    ensures
        words_of(s) == words_of(s.skip(n)),
    decreases n,
{
    if n == 0 {
        assert(s.skip(0) =~= s);
    } else {
        assert(is_white_space(s[0]));
        assert forall|k: int| 0 <= k < n - 1 implies is_white_space(
            #[trigger] s.drop_first()[k],
        ) by {
            assert(is_white_space(s[k + 1]));
        }
        lemma_words_after_blank(s.drop_first(), n - 1);
        assert(s.drop_first().skip(n - 1) =~= s.skip(n));
    }
}

/// Splits `s` at its white space.
pub fn split_words(s: &str) -> (out: Vec<String>)
    ensures
        views(out@) == words_of(s@),
{
    let chars = chars_of(s);
    let mut out: Vec<String> = Vec::new();
    let mut i: usize = 0;
    proof {
        assert(s@.skip(0) =~= s@);
        assert(views(out@) =~= Seq::<Seq<char>>::empty());
    }
    while i < chars.len()
        invariant
            0 <= i <= chars.len(),
            chars@ == s@,
            words_of(s@) =~= views(out@) + words_of(s@.skip(i as int)),
        decreases chars.len() - i,
    {
        let ghost rest = s@.skip(i as int);
        if is_whitespace(chars[i]) {
            assert(rest.drop_first() =~= s@.skip(i + 1));
            i = i + 1;
        } else {
            let start: usize = i;
            while i < chars.len() && !is_whitespace(chars[i])
                invariant
                    start <= i <= chars.len(),
                    chars@ == s@,
                    forall|k: int| start <= k < i ==> !is_white_space(#[trigger] s@[k]),
                ensures
                    start <= i <= chars.len(),
                    i == chars.len() || is_white_space(s@[i as int]),
                decreases chars.len() - i,
            {
                i = i + 1;
            }
            let word = string_of(&chars, start, i);
            let ghost before = views(out@);
            out.push(word);
            proof {
                assert(!is_white_space(rest[0]));
                assert(i > start);
                assert forall|k: int| 0 <= k < i - start implies !is_white_space(
                    #[trigger] rest[k],
                ) by {
                    assert(!is_white_space(s@[k + start]));
                }
                lemma_word_len(rest, i - start);
                assert(rest.take(i - start) =~= word@);
                assert(rest.skip(i - start) =~= s@.skip(i as int));
                assert(views(out@) =~= before + seq![word@]);
            }
        }
    }
    assert(words_of(s@.skip(i as int)) =~= Seq::<Seq<char>>::empty());
    out
}

// ---------------------------------------------------------------------------
// Lines
// ---------------------------------------------------------------------------

/// Where the first line feed of `s` stands, or the length of `s` if there is none.
pub open spec fn line_len(s: Seq<char>) -> int
    decreases s.len(),
{
    if s.len() == 0 || s.first() == '\n' {
        0
    } else {
        1 + line_len(s.drop_first())
    }
}

/// A line ends within the text.
pub proof fn lemma_line_len_within(s: Seq<char>)
    ensures
        0 <= line_len(s) <= s.len(),
    decreases s.len(),
{
    if s.len() > 0 && s.first() != '\n' {
        lemma_line_len_within(s.drop_first());
    }
}

/// A line without the carriage return that stood before its line feed.
pub open spec fn without_return(line: Seq<char>) -> Seq<char> {
    if line.len() > 0 && line.last() == '\r' {
        line.drop_last()
    } else {
        line
    }
}

/// The lines of `s`, without their ends. A line ends in a line feed, or in a carriage return and
/// a line feed; the end of the last line may be missing.
pub open spec fn lines_of(s: Seq<char>) -> Seq<Seq<char>>
    decreases s.len(),
{
    if s.len() == 0 {
        Seq::empty()
    } else if line_len(s) < s.len() {
        proof {
            lemma_line_len_within(s);
        }
        seq![without_return(s.take(line_len(s)))] + lines_of(s.skip(line_len(s) + 1))
    } else {
        seq![s]
    }
}

/// What `line_len` measures is the first stretch without a line feed.
pub proof fn lemma_line_len(s: Seq<char>, n: int)
    requires
        0 <= n <= s.len(),
        forall|k: int| 0 <= k < n ==> #[trigger] s[k] != '\n',
        n == s.len() || s[n] == '\n',
    ensures
        line_len(s) == n,
    decreases n,
{
    if n > 0 {
        assert(s[0] != '\n');
        assert forall|k: int| 0 <= k < n - 1 implies #[trigger] s.drop_first()[k] != '\n' by {
            assert(s[k + 1] != '\n');
        }
        lemma_line_len(s.drop_first(), n - 1);
    }
}

/// Splits `s` into its lines.
pub fn split_lines(s: &str) -> (out: Vec<String>)
    ensures
        views(out@) == lines_of(s@),
{
    let chars = chars_of(s);
    let mut out: Vec<String> = Vec::new();
    let mut start: usize = 0;
    proof {
        assert(s@.skip(0) =~= s@);
        assert(views(out@) =~= Seq::<Seq<char>>::empty());
    }
    while start < chars.len()
        invariant
            0 <= start <= chars.len(),
            chars@ == s@,
            lines_of(s@) =~= views(out@) + lines_of(s@.skip(start as int)),
        decreases chars.len() - start,
    {
        let ghost rest = s@.skip(start as int);
        let ghost before = views(out@);
        let mut end: usize = start;
        while end < chars.len() && chars[end] != '\n'
            invariant
                start <= end <= chars.len(),
                chars@ == s@,
                forall|k: int| start <= k < end ==> #[trigger] s@[k] != '\n',
            ensures
                start <= end <= chars.len(),
                end == chars.len() || s@[end as int] == '\n',
            decreases chars.len() - end,
        {
            end = end + 1;
        }
        proof {
            assert forall|k: int| 0 <= k < end - start implies #[trigger] rest[k] != '\n' by {
                assert(s@[k + start] != '\n');
            }
            lemma_line_len(rest, end - start);
        }
        if end < chars.len() {
            let mut stop: usize = end;
            if end > start && chars[end - 1] == '\r' {
                stop = end - 1;
            }
            let line = string_of(&chars, start, stop);
            out.push(line);
            proof {
                assert(rest.take(end - start) =~= s@.subrange(start as int, end as int));
                assert(line@ =~= without_return(rest.take(end - start)));
                assert(rest.skip(end - start + 1) =~= s@.skip(end + 1));
                assert(views(out@) =~= before + seq![line@]);
            }
            start = end + 1;
        } else {
            let line = string_of(&chars, start, end);
            out.push(line);
            proof {
                assert(line@ =~= rest);
                assert(views(out@) =~= before + seq![line@]);
                assert(lines_of(s@.skip(end as int)) =~= Seq::<Seq<char>>::empty());
            }
            start = end;
        }
    }
    assert(lines_of(s@.skip(start as int)) =~= Seq::<Seq<char>>::empty());
    out
}

/// Lines, each with a line feed behind it.
pub open spec fn ended(lines: Seq<Seq<char>>) -> Seq<char>
    decreases lines.len(),
{
    if lines.len() == 0 {
        Seq::empty()
    } else {
        lines[0].push('\n') + ended(lines.drop_first())
    }
}

/// Lines that are written one behind the other are read back, if none holds a line feed or ends in
/// a carriage return.
pub proof fn law_lines_read_back(lines: Seq<Seq<char>>)
    requires
        forall|i: int| 0 <= i < lines.len() ==> !(#[trigger] lines[i]).contains('\n'),
        forall|i: int|
            0 <= i < lines.len() && (#[trigger] lines[i]).len() > 0 ==> lines[i].last() != '\r',
    ensures
        lines_of(ended(lines)) == lines,
    decreases lines.len(),
{
    let text = ended(lines);
    if lines.len() == 0 {
        assert(lines_of(text) =~= lines);
    } else {
        let rest = lines.drop_first();
        assert forall|i: int| 0 <= i < rest.len() implies !(#[trigger] rest[i]).contains('\n') by {
            assert(rest[i] == lines[i + 1]);
        }
        assert forall|i: int| 0 <= i < rest.len() && (#[trigger] rest[i]).len() > 0 implies rest[i].last()
            != '\r' by {
            assert(rest[i] == lines[i + 1]);
        }
        law_lines_read_back(rest);
        let n = lines[0].len() as int;
        assert forall|k: int| 0 <= k < n implies #[trigger] text[k] != '\n' by {
            assert(text[k] == lines[0][k]);
            assert(lines[0].contains(lines[0][k]));
        }
        assert(text[n] == '\n');
        lemma_line_len(text, n);
        assert(text.take(n) =~= lines[0]);
        assert(text.skip(n + 1) =~= ended(rest));
        assert(seq![lines[0]] + rest =~= lines);
    }
}

/// The stretch that `line_len` measures.
proof fn lemma_line_len_is_run(s: Seq<char>)
    ensures
        0 <= line_len(s) <= s.len(),
        forall|k: int| 0 <= k < line_len(s) ==> #[trigger] s[k] != '\n',
        line_len(s) < s.len() ==> s[line_len(s)] == '\n',
    decreases s.len(),
{
    if s.len() > 0 && s.first() != '\n' {
        let rest = s.drop_first();
        lemma_line_len_is_run(rest);
        assert forall|k: int| 0 <= k < line_len(s) implies #[trigger] s[k] != '\n' by {
            if k > 0 {
                assert(s[k] == rest[k - 1]);
            }
        }
    }
}

/// A text that ends in a line feed, with another behind it, has its own lines and then those of the
/// other.
pub proof fn law_lines_of_two(x: Seq<char>, y: Seq<char>)
    requires
        x.len() == 0 || x.last() == '\n',
    ensures
        lines_of(x + y) == lines_of(x) + lines_of(y),
    decreases x.len(),
{
    let all = x + y;
    if x.len() == 0 {
        assert(all =~= y);
        assert(lines_of(x) + lines_of(y) =~= lines_of(y));
    } else {
        lemma_line_len_is_run(x);
        let n = line_len(x);
        assert(n < x.len()) by {
            if n == x.len() {
                assert(x[x.len() - 1] != '\n');
            }
        }
        assert forall|k: int| 0 <= k < n implies #[trigger] all[k] != '\n' by {
            assert(all[k] == x[k]);
        }
        assert(all[n] == x[n]);
        lemma_line_len(all, n);
        let rest = x.skip(n + 1);
        assert(rest.len() > 0 ==> rest.last() == x.last());
        law_lines_of_two(rest, y);
        assert(all.skip(n + 1) =~= rest + y);
        assert(all.take(n) =~= x.take(n));
        let first = seq![without_return(x.take(n))];
        assert(first + (lines_of(rest) + lines_of(y)) =~= (first + lines_of(rest)) + lines_of(y));
    }
}

/// White space is told character by character: nothing is blank, a character alone is blank if and
/// only if it is white space, and two texts one behind the other are if and only if both are.
pub proof fn law_blank_of_parts(a: Seq<char>, b: Seq<char>, c: char)
    ensures
        blank(Seq::empty()),
        blank(seq![c]) <==> is_white_space(c),
        blank(a + b) <==> blank(a) && blank(b),
{
    assert(seq![c][0] == c);
    let all = a + b;
    if blank(all) {
        assert forall|i: int| 0 <= i < a.len() implies is_white_space(#[trigger] a[i]) by {
            assert(all[i] == a[i]);
        }
        assert forall|i: int| 0 <= i < b.len() implies is_white_space(#[trigger] b[i]) by {
            assert(all[i + a.len()] == b[i]);
        }
    }
}

/// What is cut off at the ends of a text is white space and, where marks are cut off too, the marks
/// `. , ! ? ; :`, and nothing else.
pub proof fn law_edge_characters(c: char)
    ensures
        Edges::White.has(c) <==> is_white_space(c),
        Edges::WhiteAndMarks.has(c) <==> is_white_space(c) || ".,!?;:"@.contains(c),
{
    reveal_strlit(".,!?;:");
    let marks = ".,!?;:"@;
    assert(marks[0] == '.' && marks[1] == ',' && marks[2] == '!' && marks[3] == '?' && marks[4]
        == ';' && marks[5] == ':');
    assert(marks.len() == 6);
    if marks.contains(c) {
        let k = choose|k: int| 0 <= k < marks.len() && marks[k] == c;
        assert(k == 0 || k == 1 || k == 2 || k == 3 || k == 4 || k == 5);
    }
}

/// Cutting off the edges of a text leaves all that stands between them: a core that neither begins
/// nor ends with an edge character comes out whole from between edge characters.
pub proof fn law_trimmed_leaves_the_core(
    before: Seq<char>,
    core: Seq<char>,
    behind: Seq<char>,
    edges: Edges,
)
    requires
        forall|i: int| 0 <= i < before.len() ==> edges.has(#[trigger] before[i]),
        forall|i: int| 0 <= i < behind.len() ==> edges.has(#[trigger] behind[i]),
        core.len() > 0 ==> !edges.has(core.first()) && !edges.has(core.last()),
    ensures
        trimmed(before + core + behind, edges) == core,
{
    law_edges_do_not_matter(before, core, behind, edges);
}

/// One line is one line: without an end, with a line feed behind it, or with a carriage return and
/// a line feed. A text of nothing has no line.
pub proof fn law_one_line(line: Seq<char>)
    requires
        !line.contains('\n'),
    ensures
        lines_of(Seq::empty()) == Seq::<Seq<char>>::empty(),
        line.len() > 0 ==> lines_of(line) == seq![line],
        line.len() == 0 || line.last() != '\r' ==> lines_of(line + seq!['\n']) == seq![line],
        lines_of(line + seq!['\r', '\n']) == seq![line],
{
    let n = line.len() as int;
    let none = Seq::<char>::empty();
    let fed = line + seq!['\n'];
    let returned = line + seq!['\r', '\n'];
    assert forall|k: int| 0 <= k < n implies #[trigger] line[k] != '\n' by {
        assert(line.contains(line[k]));
    }
    assert forall|k: int| 0 <= k < n implies #[trigger] fed[k] != '\n' by {
        assert(fed[k] == line[k]);
    }
    assert forall|k: int| 0 <= k < n + 1 implies #[trigger] returned[k] != '\n' by {
        if k < n {
            assert(returned[k] == line[k]);
        }
    }
    lemma_line_len(line, n);
    lemma_line_len(fed, n);
    lemma_line_len(returned, n + 1);
    assert(lines_of(none) =~= Seq::<Seq<char>>::empty());
    assert(fed.skip(n + 1) =~= none);
    assert(fed.take(n) =~= line);
    assert(returned.skip(n + 2) =~= none);
    assert(returned.take(n + 1) =~= line.push('\r'));
    assert(line.push('\r').drop_last() =~= line);
    assert(seq![line] + Seq::<Seq<char>>::empty() =~= seq![line]);
}

/// The characters of a list of texts are those of each text, in the order of the list.
pub proof fn law_views(texts: Seq<String>)
    ensures
        views(texts).len() == texts.len(),
        forall|i: int| 0 <= i < texts.len() ==> #[trigger] views(texts)[i] == texts[i]@,
{
}

} // verus!
