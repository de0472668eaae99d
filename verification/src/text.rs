//! Text as sequences of characters: trimming, splitting, searching and decimal
//! numbers.

use vstd::prelude::*;
use vstd::slice::slice_subrange;
use vstd::string::*;
use vstd::utf8::*;

verus! {

/// `String::push` appends one character to the end of the string.
pub assume_specification[ String::push ](s: &mut String, c: char)
    ensures
        final(s)@ == old(s)@.push(c),
;

/// `std::str::from_utf8` accepts exactly the well-formed UTF-8 byte sequences
/// and returns the text that they encode.
#[verifier::external_body]
pub(crate) fn utf8_text(bytes: &[u8]) -> (r: Option<String>)
    ensures
        r is Some <==> valid_utf8(bytes@),
        r matches Some(t) ==> t@ == decode_utf8(bytes@),
{
    std::str::from_utf8(bytes).ok().map(String::from)
}

// ------------------------------------------------------------- characters --

/// The characters of a text, one by one.
pub fn chars_of(s: &str) -> (r: Vec<char>)
    ensures
        r@ == s@,
{
    let mut out: Vec<char> = Vec::new();
    for c in it: s.chars()
        invariant
            out@ == it.seq().take(it.index() as int),
            it.seq() == s@,
    {
        proof {
            assert(it.seq().take(it.index() as int + 1) =~= it.seq().take(it.index() as int).push(
                it.seq()[it.index() as int],
            ));
        }
        out.push(c);
    }
    proof {
        assert(s@.take(s@.len() as int) =~= s@);
    }
    out
}

/// The text that a run of characters spells.
pub fn text_of(s: &[char]) -> (r: String)
    ensures
        r@ == s@,
{
    let mut out = String::new();
    let mut i: usize = 0;
    while i < s.len()
        invariant
            i <= s.len(),
            out@ == s@.take(i as int),
        decreases s.len() - i,
    {
        out.push(s[i]);
        i += 1;
        proof {
            assert(s@.take(i as int) =~= s@.take(i - 1).push(s@[i - 1]));
        }
    }
    proof {
        assert(s@.take(s@.len() as int) =~= s@);
    }
    out
}

/// Whether two texts are the same.
pub fn same_text(a: &str, b: &str) -> (r: bool)
    ensures
        r == (a@ == b@),
{
    a.to_owned() == b.to_owned()
}

// --------------------------------------------------------------- trimming --

/// The characters that Unicode gives the property White_Space.
pub open spec fn is_space(c: char) -> bool {
    ||| '\u{9}' <= c <= '\u{d}'
    ||| c == ' '
    ||| c == '\u{85}'
    ||| c == '\u{a0}'
    ||| c == '\u{1680}'
    ||| '\u{2000}' <= c <= '\u{200a}'
    ||| c == '\u{2028}'
    ||| c == '\u{2029}'
    ||| c == '\u{202f}'
    ||| c == '\u{205f}'
    ||| c == '\u{3000}'
}

/// Whether a character is white space.
pub fn space(c: char) -> (r: bool)
    ensures
        r == is_space(c),
{
    ('\u{9}' <= c && c <= '\u{d}') || c == ' ' || c == '\u{85}' || c == '\u{a0}' || c == '\u{1680}'
        || ('\u{2000}' <= c && c <= '\u{200a}') || c == '\u{2028}' || c == '\u{2029}' || c
        == '\u{202f}' || c == '\u{205f}' || c == '\u{3000}'
}

/// A text without the white space at its end.
pub open spec fn trimmed_end(s: Seq<char>) -> Seq<char>
    decreases s.len(),
{
    if s.len() > 0 && is_space(s.last()) {
        trimmed_end(s.drop_last())
    } else {
        s
    }
}

/// A text without the white space at its start.
pub open spec fn trimmed_start(s: Seq<char>) -> Seq<char>
    decreases s.len(),
{
    if s.len() > 0 && is_space(s[0]) {
        trimmed_start(s.skip(1))
    } else {
        s
    }
}

/// A text without the white space around it.
pub open spec fn trimmed(s: Seq<char>) -> Seq<char> {
    trimmed_end(trimmed_start(s))
}

/// Drops the white space at the end.
pub fn trim_end(s: &[char]) -> (r: &[char])
    ensures
        r@ == trimmed_end(s@),
{
    let mut end: usize = s.len();
    proof {
        assert(s@.take(s@.len() as int) =~= s@);
    }
    while end > 0 && space(s[end - 1])
        invariant
            end <= s.len(),
            trimmed_end(s@) == trimmed_end(s@.take(end as int)),
        decreases end,
    {
        proof {
            let t = s@.take(end as int);
            assert(t.last() == s@[end - 1]);
            assert(t.drop_last() =~= s@.take(end - 1));
        }
        end -= 1;
    }
    proof {
        let t = s@.take(end as int);
        if end > 0 {
            assert(t.last() == s@[end - 1]);
        }
        assert(trimmed_end(t) == t);
        assert(s@.subrange(0, end as int) =~= t);
    }
    slice_subrange(s, 0, end)
}

/// Drops the white space at the start.
pub fn trim_start(s: &[char]) -> (r: &[char])
    ensures
        r@ == trimmed_start(s@),
{
    let mut start: usize = 0;
    proof {
        assert(s@.skip(0) =~= s@);
    }
    while start < s.len() && space(s[start])
        invariant
            start <= s.len(),
            trimmed_start(s@) == trimmed_start(s@.skip(start as int)),
        decreases s.len() - start,
    {
        proof {
            let t = s@.skip(start as int);
            assert(t[0] == s@[start as int]);
            assert(t.skip(1) =~= s@.skip(start + 1));
        }
        start += 1;
    }
    proof {
        let t = s@.skip(start as int);
        assert(start < s@.len() ==> t[0] == s@[start as int]);
        assert(trimmed_start(t) == t);
        assert(s@.subrange(start as int, s@.len() as int) =~= t);
    }
    slice_subrange(s, start, s.len())
}

/// Drops the white space around.
pub fn trim(s: &[char]) -> (r: &[char])
    ensures
        r@ == trimmed(s@),
{
    trim_end(trim_start(s))
}

/// A text without the run of one character at its end.
pub open spec fn without_end(s: Seq<char>, c: char) -> Seq<char>
    decreases s.len(),
{
    if s.len() > 0 && s.last() == c {
        without_end(s.drop_last(), c)
    } else {
        s
    }
}

/// A text without the run of one character at its start.
pub open spec fn without_start(s: Seq<char>, c: char) -> Seq<char>
    decreases s.len(),
{
    if s.len() > 0 && s[0] == c {
        without_start(s.skip(1), c)
    } else {
        s
    }
}

/// Drops the run of `c` at the end.
pub fn strip_end(s: &[char], c: char) -> (r: &[char])
    ensures
        r@ == without_end(s@, c),
{
    let mut end: usize = s.len();
    proof {
        assert(s@.take(s@.len() as int) =~= s@);
    }
    while end > 0 && s[end - 1] == c
        invariant
            end <= s.len(),
            without_end(s@, c) == without_end(s@.take(end as int), c),
        decreases end,
    {
        proof {
            let t = s@.take(end as int);
            assert(t.last() == s@[end - 1]);
            assert(t.drop_last() =~= s@.take(end - 1));
        }
        end -= 1;
    }
    proof {
        let t = s@.take(end as int);
        if end > 0 {
            assert(t.last() == s@[end - 1]);
        }
        assert(without_end(t, c) == t);
        assert(s@.subrange(0, end as int) =~= t);
    }
    slice_subrange(s, 0, end)
}

/// Drops the run of `c` at the start.
pub fn strip_start(s: &[char], c: char) -> (r: &[char])
    ensures
        r@ == without_start(s@, c),
{
    let mut start: usize = 0;
    proof {
        assert(s@.skip(0) =~= s@);
    }
    while start < s.len() && s[start] == c
        invariant
            start <= s.len(),
            without_start(s@, c) == without_start(s@.skip(start as int), c),
        decreases s.len() - start,
    {
        proof {
            let t = s@.skip(start as int);
            assert(t[0] == s@[start as int]);
            assert(t.skip(1) =~= s@.skip(start + 1));
        }
        start += 1;
    }
    proof {
        let t = s@.skip(start as int);
        assert(start < s@.len() ==> t[0] == s@[start as int]);
        assert(without_start(t, c) == t);
        assert(s@.subrange(start as int, s@.len() as int) =~= t);
    }
    slice_subrange(s, start, s.len())
}

// -------------------------------------------------------------- searching --

/// `pat` stands in `s` at `i`.
pub open spec fn occurs_at(s: Seq<char>, pat: Seq<char>, i: int) -> bool {
    0 <= i && i + pat.len() <= s.len() && s.subrange(i, i + pat.len()) == pat
}

/// `pat` stands somewhere in `s`.
pub open spec fn occurs(s: Seq<char>, pat: Seq<char>) -> bool {
    exists|i: int| occurs_at(s, pat, i)
}

/// Where `pat` first stands in `s` at `from` or after it; the length of `s`
/// where it does not.
pub open spec fn first_at(s: Seq<char>, pat: Seq<char>, from: int) -> int
    decreases s.len() - from,
{
    if from >= s.len() || occurs_at(s, pat, from) {
        from
    } else {
        first_at(s, pat, from + 1)
    }
}

/// `s` begins with `pat`.
pub open spec fn begins(s: Seq<char>, pat: Seq<char>) -> bool {
    occurs_at(s, pat, 0)
}

/// `s` ends with `pat`.
pub open spec fn ends(s: Seq<char>, pat: Seq<char>) -> bool {
    occurs_at(s, pat, s.len() - pat.len())
}

/// Whether `pat` stands in `s` at `i`.
pub fn stands_at(s: &[char], pat: &[char], i: usize) -> (r: bool)
    ensures
        r == occurs_at(s@, pat@, i as int),
{
    if i > s.len() || s.len() - i < pat.len() {
        return false;
    }
    let mut k: usize = 0;
    while k < pat.len()
        invariant
            k <= pat.len(),
            i + pat.len() <= s.len(),
            forall|m: int| 0 <= m < k ==> s@[i + m] == #[trigger] pat@[m],
        decreases pat.len() - k,
    {
        if s[i + k] != pat[k] {
            proof {
                assert(s@.subrange(i as int, i + pat@.len())[k as int] == s@[i + k]);
            }
            return false;
        }
        k += 1;
    }
    proof {
        assert(s@.subrange(i as int, i + pat@.len()) =~= pat@);
    }
    true
}

/// Whether `s` begins with `pat`.
pub fn starts_with(s: &[char], pat: &[char]) -> (r: bool)
    ensures
        r == begins(s@, pat@),
{
    stands_at(s, pat, 0)
}

/// Whether `s` ends with `pat`.
pub fn ends_with(s: &[char], pat: &[char]) -> (r: bool)
    ensures
        r == ends(s@, pat@),
{
    if pat.len() > s.len() {
        return false;
    }
    stands_at(s, pat, s.len() - pat.len())
}

/// Where `pat` first stands in `s`.
pub fn find(s: &[char], pat: &[char]) -> (r: Option<usize>)
    requires
        pat.len() > 0,
    ensures
        match r {
            Some(i) => occurs_at(s@, pat@, i as int) && i == first_at(s@, pat@, 0),
            None => !occurs(s@, pat@) && first_at(s@, pat@, 0) == s@.len(),
        },
{
    let mut i: usize = 0;
    while i < s.len()
        invariant
            i <= s.len(),
            first_at(s@, pat@, 0) == first_at(s@, pat@, i as int),
            forall|k: int| 0 <= k < i ==> !#[trigger] occurs_at(s@, pat@, k),
        decreases s.len() - i,
    {
        if stands_at(s, pat, i) {
            return Some(i);
        }
        i += 1;
    }
    proof {
        assert forall|k: int| !#[trigger] occurs_at(s@, pat@, k) by {}
    }
    None
}

/// What stands behind the last `c` of a text; the whole text where none is.
pub open spec fn after_last(s: Seq<char>, c: char) -> Seq<char>
    decreases s.len(),
{
    if s.len() == 0 || s.last() == c {
        Seq::empty()
    } else {
        after_last(s.drop_last(), c).push(s.last())
    }
}

/// What stands behind the last `c`.
pub fn behind_last(s: &[char], c: char) -> (r: &[char])
    ensures
        r@ == after_last(s@, c),
{
    let mut start: usize = s.len();
    proof {
        assert(s@.take(s@.len() as int) =~= s@);
        assert(s@.skip(s@.len() as int) =~= Seq::<char>::empty());
    }
    while start > 0 && s[start - 1] != c
        invariant
            start <= s.len(),
            after_last(s@, c) == after_last(s@.take(start as int), c) + s@.skip(start as int),
        decreases start,
    {
        proof {
            let t = s@.take(start as int);
            assert(t.last() == s@[start - 1]);
            assert(t.drop_last() =~= s@.take(start - 1));
            assert(after_last(t.drop_last(), c).push(t.last()) + s@.skip(start as int)
                =~= after_last(t.drop_last(), c) + s@.skip(start - 1));
        }
        start -= 1;
    }
    proof {
        let t = s@.take(start as int);
        if start > 0 {
            assert(t.last() == s@[start - 1]);
        }
        assert(after_last(t, c) =~= Seq::<char>::empty());
        assert(s@.subrange(start as int, s@.len() as int) =~= after_last(s@, c));
    }
    slice_subrange(s, start, s.len())
}

/// What stands before the first `c` of a text; the whole text where none is.
pub open spec fn before_first(s: Seq<char>, c: char) -> Seq<char>
    decreases s.len(),
{
    if s.len() == 0 || s[0] == c {
        Seq::empty()
    } else {
        seq![s[0]] + before_first(s.skip(1), c)
    }
}

/// What stands before the first `c`.
pub fn ahead_of_first(s: &[char], c: char) -> (r: &[char])
    ensures
        r@ == before_first(s@, c),
{
    let mut end: usize = 0;
    proof {
        assert(s@.skip(0) =~= s@);
        assert(s@.take(0) =~= Seq::<char>::empty());
    }
    while end < s.len() && s[end] != c
        invariant
            end <= s.len(),
            before_first(s@, c) == s@.take(end as int) + before_first(s@.skip(end as int), c),
        decreases s.len() - end,
    {
        proof {
            let t = s@.skip(end as int);
            assert(t[0] == s@[end as int]);
            assert(t.skip(1) =~= s@.skip(end + 1));
            assert(s@.take(end as int) + (seq![t[0]] + before_first(t.skip(1), c)) =~= s@.take(
                end + 1,
            ) + before_first(t.skip(1), c));
        }
        end += 1;
    }
    proof {
        let t = s@.skip(end as int);
        assert(end < s@.len() ==> t[0] == s@[end as int]);
        assert(before_first(t, c) =~= Seq::<char>::empty());
        assert(s@.subrange(0, end as int) =~= before_first(s@, c));
    }
    slice_subrange(s, 0, end)
}

// ---------------------------------------------------------- words, lines --

/// What vectors of characters hold.
pub open spec fn texts(v: Seq<Vec<char>>) -> Seq<Seq<char>> {
    v.map_values(|w: Vec<char>| w@)
}

/// What strings hold.
pub open spec fn strings(v: Seq<String>) -> Seq<Seq<char>> {
    v.map_values(|w: String| w@)
}

/// How many characters a text has before its first white space.
pub open spec fn word_len(s: Seq<char>) -> nat
    decreases s.len(),
{
    if s.len() == 0 || is_space(s[0]) {
        0
    } else {
        1 + word_len(s.skip(1))
    }
}

/// The runs of characters that white space separates.
pub open spec fn words(s: Seq<char>) -> Seq<Seq<char>>
    decreases s.len(),
{
    if s.len() == 0 {
        Seq::empty()
    } else if is_space(s[0]) {
        words(s.skip(1))
    } else {
        proof {
            lemma_word_len(s);
        }
        seq![s.take(word_len(s) as int)] + words(s.skip(word_len(s) as int))
    }
}

/// A text begins with that many characters that are no white space.
pub proof fn lemma_word_len(s: Seq<char>)
    ensures
        word_len(s) <= s.len(),
        forall|i: int| 0 <= i < word_len(s) ==> !is_space(#[trigger] s[i]),
        word_len(s) < s.len() ==> is_space(s[word_len(s) as int]),
    decreases s.len(),
{
    if s.len() == 0 || is_space(s[0]) {
    } else {
        lemma_word_len(s.skip(1));
        assert forall|i: int| 0 <= i < word_len(s) implies !is_space(#[trigger] s[i]) by {
            if i > 0 {
                assert(s[i] == s.skip(1)[i - 1]);
            }
        }
    }
}

/// Splits at white space.
pub fn split_words(s: &[char]) -> (r: Vec<Vec<char>>)
    ensures
        texts(r@) == words(s@),
{
    let mut out: Vec<Vec<char>> = Vec::new();
    let mut i: usize = 0;
    proof {
        assert(s@.skip(0) =~= s@);
        assert(texts(out@) + words(s@) =~= words(s@));
    }
    while i < s.len()
        invariant
            i <= s.len(),
            texts(out@) + words(s@.skip(i as int)) == words(s@),
        decreases s.len() - i,
    {
        let ghost rest = s@.skip(i as int);
        assert(rest[0] == s@[i as int]);
        if space(s[i]) {
            proof {
                assert(rest.skip(1) =~= s@.skip(i + 1));
            }
            i += 1;
        } else {
            let mut word: Vec<char> = Vec::new();
            let start: usize = i;
            proof {
                assert(s@.subrange(start as int, start as int) =~= Seq::<char>::empty());
            }
            while i < s.len() && !space(s[i])
                invariant
                    start <= i <= s.len(),
                    word@ == s@.subrange(start as int, i as int),
                    word_len(s@.skip(start as int)) == i - start + word_len(s@.skip(i as int)),
                    i == start ==> i < s.len() && !is_space(s@[i as int]),
                decreases s.len() - i,
            {
                proof {
                    assert(s@.skip(i as int)[0] == s@[i as int]);
                    assert(s@.skip(i as int).skip(1) =~= s@.skip(i + 1));
                    assert(s@.subrange(start as int, i + 1) =~= s@.subrange(
                        start as int,
                        i as int,
                    ).push(s@[i as int]));
                }
                word.push(s[i]);
                i += 1;
            }
            let ghost before = texts(out@);
            let ghost w = word@;
            proof {
                if i < s@.len() {
                    assert(s@.skip(i as int)[0] == s@[i as int]);
                }
                assert(word_len(rest) == i - start);
                assert(rest.take(i - start) =~= w);
                assert(rest.skip(i - start) =~= s@.skip(i as int));
            }
            out.push(word);
            proof {
                assert(texts(out@) =~= before.push(w));
                assert(texts(out@) + words(s@.skip(i as int)) =~= before + (seq![w] + words(
                    s@.skip(i as int),
                )));
            }
        }
    }
    proof {
        assert(s@.skip(i as int) =~= Seq::<char>::empty());
        assert(texts(out@) + words(s@.skip(i as int)) =~= texts(out@));
    }
    out
}

/// The texts of a list with `sep` between each two.
pub open spec fn joined(parts: Seq<Seq<char>>, sep: Seq<char>) -> Seq<char>
    decreases parts.len(),
{
    if parts.len() == 0 {
        Seq::empty()
    } else if parts.len() == 1 {
        parts[0]
    } else {
        joined(parts.drop_last(), sep) + sep + parts.last()
    }
}

/// How many characters stand before the first `c`.
pub open spec fn piece_len(s: Seq<char>, c: char) -> nat
    decreases s.len(),
{
    if s.len() == 0 || s[0] == c {
        0
    } else {
        1 + piece_len(s.skip(1), c)
    }
}

/// The pieces that `c` separates; a text without it is one piece.
pub open spec fn pieces(s: Seq<char>, c: char) -> Seq<Seq<char>>
    decreases s.len(),
{
    if piece_len(s, c) >= s.len() {
        seq![s]
    } else {
        seq![s.take(piece_len(s, c) as int)] + pieces(s.skip(piece_len(s, c) as int + 1), c)
    }
}

/// Splits at a character.
pub fn split_pieces(s: &[char], c: char) -> (r: Vec<Vec<char>>)
    ensures
        texts(r@) == pieces(s@, c),
{
    let mut out: Vec<Vec<char>> = Vec::new();
    let mut piece: Vec<char> = Vec::new();
    let mut start: usize = 0;
    let mut i: usize = 0;
    proof {
        assert(s@.skip(0) =~= s@);
        assert(s@.subrange(0, 0) =~= Seq::<char>::empty());
        assert(texts(out@) + pieces(s@, c) =~= pieces(s@, c));
    }
    while i < s.len()
        invariant
            start <= i <= s.len(),
            piece@ == s@.subrange(start as int, i as int),
            piece_len(s@.skip(start as int), c) == i - start + piece_len(s@.skip(i as int), c),
            texts(out@) + pieces(s@.skip(start as int), c) == pieces(s@, c),
        decreases s.len() - i,
    {
        proof {
            assert(s@.skip(i as int)[0] == s@[i as int]);
            assert(s@.skip(i as int).skip(1) =~= s@.skip(i + 1));
        }
        if s[i] == c {
            let ghost before = texts(out@);
            let ghost w = piece@;
            proof {
                let rest = s@.skip(start as int);
                assert(rest.take(i - start) =~= w);
                assert(rest.skip(i - start + 1) =~= s@.skip(i + 1));
                assert(pieces(rest, c) == seq![w] + pieces(s@.skip(i + 1), c));
                assert(s@.subrange(i + 1, i + 1) =~= Seq::<char>::empty());
            }
            out.push(piece);
            proof {
                assert(texts(out@) =~= before.push(w));
                assert(texts(out@) + pieces(s@.skip(i + 1), c) =~= before + (seq![w] + pieces(
                    s@.skip(i + 1),
                    c,
                )));
            }
            piece = Vec::new();
            i += 1;
            start = i;
        } else {
            proof {
                assert(s@.subrange(start as int, i + 1) =~= s@.subrange(
                    start as int,
                    i as int,
                ).push(s@[i as int]));
            }
            piece.push(s[i]);
            i += 1;
        }
    }
    let ghost before = texts(out@);
    let ghost w = piece@;
    proof {
        let rest = s@.skip(start as int);
        assert(s@.skip(i as int) =~= Seq::<char>::empty());
        assert(rest =~= w);
        assert(pieces(rest, c) == seq![rest]);
    }
    out.push(piece);
    proof {
        assert(texts(out@) =~= before.push(w));
        assert(texts(out@) =~= before + seq![w]);
    }
    out
}

/// The number of characters before the first line feed.
pub open spec fn line_len(s: Seq<char>) -> nat
    decreases s.len(),
{
    if s.len() == 0 || s[0] == '\n' {
        0
    } else {
        1 + line_len(s.skip(1))
    }
}

/// A line without the carriage return that stands before its line feed.
pub open spec fn without_return(s: Seq<char>) -> Seq<char> {
    if s.len() > 0 && s.last() == '\r' {
        s.drop_last()
    } else {
        s
    }
}

/// The lines of a text. A line ends with a line feed, which belongs to none of
/// them, nor does a carriage return before it; the last line may go without.
pub open spec fn lines(s: Seq<char>) -> Seq<Seq<char>>
    decreases s.len(),
{
    if s.len() == 0 {
        Seq::empty()
    } else if line_len(s) >= s.len() {
        seq![s]
    } else {
        seq![without_return(s.take(line_len(s) as int))] + lines(s.skip(line_len(s) as int + 1))
    }
}

/// Splits into lines.
pub fn split_lines(s: &[char]) -> (r: Vec<Vec<char>>)
    ensures
        texts(r@) == lines(s@),
{
    let mut out: Vec<Vec<char>> = Vec::new();
    let mut i: usize = 0;
    proof {
        assert(s@.skip(0) =~= s@);
        assert(texts(out@) + lines(s@) =~= lines(s@));
    }
    while i < s.len()
        invariant
            i <= s.len(),
            texts(out@) + lines(s@.skip(i as int)) == lines(s@),
        decreases s.len() - i,
    {
        let ghost rest = s@.skip(i as int);
        let ghost before = texts(out@);
        let mut line: Vec<char> = Vec::new();
        let start: usize = i;
        proof {
            assert(s@.subrange(start as int, start as int) =~= Seq::<char>::empty());
        }
        while i < s.len() && s[i] != '\n'
            invariant
                start <= i <= s.len(),
                line@ == s@.subrange(start as int, i as int),
                line_len(s@.skip(start as int)) == i - start + line_len(s@.skip(i as int)),
            decreases s.len() - i,
        {
            proof {
                assert(s@.skip(i as int)[0] == s@[i as int]);
                assert(s@.skip(i as int).skip(1) =~= s@.skip(i + 1));
                assert(s@.subrange(start as int, i + 1) =~= s@.subrange(
                    start as int,
                    i as int,
                ).push(s@[i as int]));
            }
            line.push(s[i]);
            i += 1;
        }
        proof {
            if i < s@.len() {
                assert(s@.skip(i as int)[0] == s@[i as int]);
            }
            assert(line_len(s@.skip(i as int)) == 0);
            assert(rest.take(i - start) =~= line@);
        }
        if i < s.len() {
            i += 1;
            proof {
                assert(rest.skip(i - start) =~= s@.skip(i as int));
            }
            let last: usize = line.len();
            if last > 0 && line[last - 1] == '\r' {
                line.pop();
            }
            let ghost l = line@;
            out.push(line);
            proof {
                assert(texts(out@) =~= before.push(l));
                assert(texts(out@) + lines(s@.skip(i as int)) =~= before + (seq![l] + lines(
                    s@.skip(i as int),
                )));
            }
        } else {
            let ghost l = line@;
            out.push(line);
            proof {
                assert(rest =~= l);
                assert(texts(out@) =~= before.push(l));
                assert(s@.skip(i as int) =~= Seq::<char>::empty());
                assert(texts(out@) + lines(s@.skip(i as int)) =~= before + lines(rest));
            }
        }
    }
    proof {
        assert(s@.skip(i as int) =~= Seq::<char>::empty());
        assert(texts(out@) + lines(s@.skip(i as int)) =~= texts(out@));
    }
    out
}

// ---------------------------------------------------------------- numbers --

/// The character of a digit.
pub open spec fn digit_char(d: nat) -> char {
    (('0' as nat) + d) as char
}

/// A number in decimal digits, without leading zeros.
pub open spec fn decimal(n: nat) -> Seq<char>
    decreases n,
{
    if n < 10 {
        seq![digit_char(n)]
    } else {
        decimal(n / 10).push(digit_char(n % 10))
    }
}

/// Whether a character is a decimal digit.
pub open spec fn is_digit(c: char) -> bool {
    '0' <= c <= '9'
}

/// The number that a run of digits spells.
pub open spec fn digits_value(s: Seq<char>) -> nat
    decreases s.len(),
{
    if s.len() == 0 {
        0
    } else {
        digits_value(s.drop_last()) * 10 + ((s.last() as nat) - ('0' as nat)) as nat
    }
}

/// The digits of a number that is written with or without a plus sign.
pub open spec fn unsigned_digits(s: Seq<char>) -> Seq<char> {
    if s.len() > 0 && s[0] == '+' {
        s.skip(1)
    } else {
        s
    }
}

/// The number that a text spells, if it spells one that is at most `max`.
pub open spec fn number(s: Seq<char>, max: nat) -> Option<nat> {
    let d = unsigned_digits(s);
    if d.len() > 0 && (forall|i: int| 0 <= i < d.len() ==> is_digit(#[trigger] d[i]))
        && digits_value(d) <= max {
        Some(digits_value(d))
    } else {
        None
    }
}

fn push_digits(out: &mut String, n: u64)
    ensures
        final(out)@ == old(out)@ + decimal(n as nat),
    decreases n,
{
    if n >= 10 {
        push_digits(out, n / 10);
    }
    let d: u8 = (n % 10) as u8;
    let c: char = (48u8 + d) as char;
    out.push(c);
    proof {
        assert(c == digit_char((n % 10) as nat));
        if n < 10 {
            assert(old(out)@.push(c) =~= old(out)@ + decimal(n as nat));
        } else {
            assert((old(out)@ + decimal((n / 10) as nat)).push(c) =~= old(out)@ + decimal(n as nat));
        }
    }
}

/// Appends a number in decimal digits.
pub fn push_decimal(out: &mut String, n: u64)
    ensures
        final(out)@ == old(out)@ + decimal(n as nat),
{
    push_digits(out, n)
}

proof fn lemma_digits_grow(s: Seq<char>, k: int)
    requires
        0 <= k <= s.len(),
    ensures
        digits_value(s.take(k)) <= digits_value(s),
    decreases s.len(),
{
    if k < s.len() {
        lemma_digits_grow(s.drop_last(), k);
        assert(s.drop_last().take(k) =~= s.take(k));
    } else {
        assert(s.take(k) =~= s);
    }
}

/// Reads a number that is at most `max`, with or without a plus sign.
pub fn parse_number(s: &[char], max: u64) -> (r: Option<u64>)
    ensures
        match r {
            Some(n) => number(s@, max as nat) == Some(n as nat),
            None => number(s@, max as nat) is None,
        },
{
    let start: usize = if s.len() > 0 && s[0] == '+' {
        1
    } else {
        0
    };
    let ghost d = unsigned_digits(s@);
    proof {
        assert(d =~= s@.skip(start as int));
    }
    if start == s.len() {
        return None;
    }
    let mut i: usize = start;
    let mut n: u64 = 0;
    while i < s.len()
        invariant
            start <= i <= s.len(),
            d == s@.skip(start as int),
            d == unsigned_digits(s@),
            n == digits_value(d.take(i - start)),
            n <= max,
            forall|k: int| 0 <= k < i - start ==> is_digit(#[trigger] d[k]),
        decreases s.len() - i,
    {
        let c: char = s[i];
        assert(d[i - start] == c);
        if !('0' <= c && c <= '9') {
            return None;
        }
        let v: u64 = (c as u32 - '0' as u32) as u64;
        proof {
            let t = d.take(i + 1 - start);
            assert(t.drop_last() =~= d.take(i - start));
            assert(t.last() == c);
            lemma_digits_grow(d, i + 1 - start);
        }
        if max < v || n > (max - v) / 10 {
            return None;
        }
        n = n * 10 + v;
        i += 1;
    }
    proof {
        assert(d.take(i - start) =~= d);
    }
    Some(n)
}

/// A number is spelled by its decimal digits.
pub proof fn lemma_decimal_digits(n: nat)
    ensures
        decimal(n).len() > 0,
        forall|i: int| 0 <= i < decimal(n).len() ==> is_digit(#[trigger] decimal(n)[i]),
        digits_value(decimal(n)) == n,
    decreases n,
{
    if n < 10 {
        let s = decimal(n);
        assert(s.drop_last() =~= Seq::<char>::empty());
        assert(digits_value(s.drop_last()) == 0);
    } else {
        lemma_decimal_digits(n / 10);
        assert(decimal(n).drop_last() =~= decimal(n / 10));
    }
}

/// Reading the decimal digits of a number gives the number back.
pub proof fn law_number_of_decimal(n: nat, max: nat)
    requires
        n <= max,
    ensures
        number(decimal(n), max) == Some(n),
{
    lemma_decimal_digits(n);
    assert(is_digit(decimal(n)[0]));
}

/// Different numbers have different digits.
pub proof fn law_decimal_injective(a: nat, b: nat)
    requires
        decimal(a) == decimal(b),
    ensures
        a == b,
{
    lemma_decimal_digits(a);
    lemma_decimal_digits(b);
}

// ----------------------------------------------------- words and lines --

/// A word: not empty, and without white space.
pub open spec fn is_word(w: Seq<char>) -> bool {
    w.len() > 0 && forall|i: int| 0 <= i < w.len() ==> !is_space(#[trigger] w[i])
}

proof fn lemma_word_len_split(a: Seq<char>, b: Seq<char>)
    requires
        b.len() == 0 || is_space(b[0]),
    ensures
        word_len(a + b) == word_len(a),
    decreases a.len(),
{
    if a.len() == 0 {
        assert(a + b =~= b);
    } else if !is_space(a[0]) {
        assert((a + b)[0] == a[0]);
        assert((a + b).skip(1) =~= a.skip(1) + b);
        lemma_word_len_split(a.skip(1), b);
    } else {
        assert((a + b)[0] == a[0]);
    }
}

/// White space separates words: those before it, then those behind it.
pub proof fn lemma_words_split(a: Seq<char>, b: Seq<char>)
    requires
        b.len() == 0 || is_space(b[0]),
    ensures
        words(a + b) == words(a) + words(b),
    decreases a.len(),
{
    if a.len() == 0 {
        assert(a + b =~= b);
        assert(words(a) + words(b) =~= words(b));
    } else {
        assert((a + b)[0] == a[0]);
        if is_space(a[0]) {
            assert((a + b).skip(1) =~= a.skip(1) + b);
            lemma_words_split(a.skip(1), b);
        } else {
            lemma_word_len(a);
            lemma_word_len_split(a, b);
            let n = word_len(a) as int;
            assert((a + b).take(n) =~= a.take(n));
            assert((a + b).skip(n) =~= a.skip(n) + b);
            lemma_words_split(a.skip(n), b);
            assert(words(a + b) =~= words(a) + words(b));
        }
    }
}

/// A word by itself is the one word of its text.
pub proof fn lemma_words_of_word(w: Seq<char>)
    requires
        is_word(w),
    ensures
        words(w) == seq![w],
{
    lemma_word_len(w);
    assert(!is_space(w[0]));
    assert(word_len(w) == w.len());
    assert(w.take(w.len() as int) =~= w);
    assert(w.skip(w.len() as int) =~= Seq::<char>::empty());
    reveal_with_fuel(words, 2);
    assert(words(w) =~= seq![w]);
}

/// The runs that white space separates are words.
pub proof fn law_words_are_words(s: Seq<char>)
    ensures
        forall|i: int| 0 <= i < words(s).len() ==> is_word(#[trigger] words(s)[i]),
    decreases s.len(),
{
    if s.len() > 0 {
        if is_space(s[0]) {
            law_words_are_words(s.skip(1));
            assert(words(s) == words(s.skip(1)));
        } else {
            lemma_word_len(s);
            let n = word_len(s) as int;
            law_words_are_words(s.skip(n));
            assert forall|i: int| 0 <= i < words(s).len() implies is_word(#[trigger] words(s)[i]) by {
                if i == 0 {
                    assert forall|k: int| 0 <= k < n implies !is_space(#[trigger] s.take(n)[k]) by {
                        assert(s.take(n)[k] == s[k]);
                    }
                } else {
                    assert(words(s)[i] == words(s.skip(n))[i - 1]);
                }
            }
        }
    }
}

/// Words that are joined by a space are found again.
pub proof fn law_words_of_joined(ws: Seq<Seq<char>>)
    requires
        forall|i: int| 0 <= i < ws.len() ==> is_word(#[trigger] ws[i]),
    ensures
        words(joined(ws, " "@)) == ws,
    decreases ws.len(),
{
    reveal_strlit(" ");
    if ws.len() == 0 {
        assert(words(joined(ws, " "@)) =~= ws);
    } else if ws.len() == 1 {
        lemma_words_of_word(ws[0]);
        assert(words(joined(ws, " "@)) =~= ws);
    } else {
        let init = ws.drop_last();
        let last = ws.last();
        assert(last == ws[ws.len() - 1]);
        assert forall|i: int| 0 <= i < init.len() implies is_word(#[trigger] init[i]) by {
            assert(init[i] == ws[i]);
        }
        law_words_of_joined(init);
        let tail = " "@ + last;
        assert(tail[0] == ' ');
        assert(joined(ws, " "@) =~= joined(init, " "@) + tail);
        lemma_words_split(joined(init, " "@), tail);
        assert(tail.skip(1) =~= last);
        lemma_words_of_word(last);
        assert(words(tail) == words(last));
        assert(init + seq![last] =~= ws);
    }
}

/// A line that reads back as it is: no line feed in it, and no carriage return
/// at its end.
pub open spec fn is_line(l: Seq<char>) -> bool {
    (forall|i: int| 0 <= i < l.len() ==> #[trigger] l[i] != '\n') && (l.len() > 0 ==> l.last()
        != '\r')
}

proof fn lemma_line_len(l: Seq<char>, rest: Seq<char>)
    requires
        forall|i: int| 0 <= i < l.len() ==> #[trigger] l[i] != '\n',
        rest.len() == 0 || rest[0] == '\n',
    ensures
        line_len(l + rest) == l.len(),
    decreases l.len(),
{
    if l.len() == 0 {
        assert(l + rest =~= rest);
    } else {
        assert((l + rest)[0] == l[0]);
        assert((l + rest).skip(1) =~= l.skip(1) + rest);
        assert forall|i: int| 0 <= i < l.skip(1).len() implies #[trigger] l.skip(1)[i] != '\n' by {
            assert(l.skip(1)[i] == l[i + 1]);
        }
        lemma_line_len(l.skip(1), rest);
    }
}

/// A line and its line feed at the front of a text are its first line.
pub proof fn law_first_line(l: Seq<char>, rest: Seq<char>)
    requires
        is_line(l),
    ensures
        lines(l + "\n"@ + rest) == seq![l] + lines(rest),
{
    reveal_strlit("\n");
    let tail = "\n"@ + rest;
    let s = l + "\n"@ + rest;
    assert(s =~= l + tail);
    assert(tail[0] == '\n');
    lemma_line_len(l, tail);
    assert(s.take(l.len() as int) =~= l);
    assert(s.skip(l.len() as int + 1) =~= rest);
}

proof fn lemma_lines_ended(ls: Seq<Seq<char>>, rest: Seq<char>)
    requires
        ls.len() > 0,
        forall|i: int| 0 <= i < ls.len() ==> is_line(#[trigger] ls[i]),
    ensures
        lines(joined(ls, "\n"@) + "\n"@ + rest) == ls + lines(rest),
    decreases ls.len(),
{
    if ls.len() == 1 {
        law_first_line(ls[0], rest);
        assert(seq![ls[0]] + lines(rest) =~= ls + lines(rest));
    } else {
        let init = ls.drop_last();
        let last = ls.last();
        assert(last == ls[ls.len() - 1]);
        assert forall|i: int| 0 <= i < init.len() implies is_line(#[trigger] init[i]) by {
            assert(init[i] == ls[i]);
        }
        let more = last + "\n"@ + rest;
        lemma_lines_ended(init, more);
        law_first_line(last, rest);
        assert(joined(ls, "\n"@) + "\n"@ + rest =~= joined(init, "\n"@) + "\n"@ + more);
        assert(init + (seq![last] + lines(rest)) =~= ls + lines(rest));
    }
}

/// Lines that are joined by a line feed are found again, if the last of them is
/// not empty.
pub proof fn law_lines_of_joined(ls: Seq<Seq<char>>)
    requires
        ls.len() > 0,
        ls.last().len() > 0,
        forall|i: int| 0 <= i < ls.len() ==> is_line(#[trigger] ls[i]),
    ensures
        lines(joined(ls, "\n"@)) == ls,
{
    let last = ls.last();
    assert(last == ls[ls.len() - 1]);
    lemma_line_len(last, Seq::empty());
    assert(last + Seq::<char>::empty() =~= last);
    assert(lines(last) == seq![last]);
    if ls.len() == 1 {
        assert(lines(joined(ls, "\n"@)) =~= ls);
    } else {
        let init = ls.drop_last();
        assert forall|i: int| 0 <= i < init.len() implies is_line(#[trigger] init[i]) by {
            assert(init[i] == ls[i]);
        }
        lemma_lines_ended(init, last);
        assert(init + seq![last] =~= ls);
    }
}

proof fn lemma_line_len_free(s: Seq<char>)
    ensures
        line_len(s) <= s.len(),
        forall|i: int| 0 <= i < line_len(s) ==> #[trigger] s[i] != '\n',
    decreases s.len(),
{
    if s.len() > 0 && s[0] != '\n' {
        lemma_line_len_free(s.skip(1));
        assert forall|i: int| 0 <= i < line_len(s) implies #[trigger] s[i] != '\n' by {
            if i > 0 {
                assert(s[i] == s.skip(1)[i - 1]);
            }
        }
    }
}

/// No line holds a line feed.
pub proof fn law_lines_are_lines(s: Seq<char>)
    ensures
        forall|i: int, k: int|
            0 <= i < lines(s).len() && 0 <= k < lines(s)[i].len() ==> #[trigger] lines(s)[i][k]
                != '\n',
    decreases s.len(),
{
    lemma_line_len_free(s);
    if s.len() == 0 {
    } else if line_len(s) >= s.len() {
        assert(lines(s) == seq![s]);
    } else {
        let n = line_len(s) as int;
        let rest = s.skip(n + 1);
        law_lines_are_lines(rest);
        assert forall|i: int, k: int|
            0 <= i < lines(s).len() && 0 <= k < lines(s)[i].len() implies #[trigger] lines(s)[i][k]
            != '\n' by {
            if i == 0 {
                assert(lines(s)[0][k] == s[k]);
            } else {
                assert(lines(s)[i] == lines(rest)[i - 1]);
            }
        }
    }
}

proof fn lemma_piece_len(l: Seq<char>, c: char, rest: Seq<char>)
    requires
        forall|i: int| 0 <= i < l.len() ==> #[trigger] l[i] != c,
    ensures
        piece_len(l + seq![c] + rest, c) == l.len(),
    decreases l.len(),
{
    let s = l + seq![c] + rest;
    if l.len() == 0 {
        assert(s[0] == c);
    } else {
        assert(s[0] == l[0]);
        assert(s.skip(1) =~= l.skip(1) + seq![c] + rest);
        assert forall|i: int| 0 <= i < l.skip(1).len() implies #[trigger] l.skip(1)[i] != c by {
            assert(l.skip(1)[i] == l[i + 1]);
        }
        lemma_piece_len(l.skip(1), c, rest);
    }
}

/// What stands before the first `c` of a text is its first piece.
pub proof fn law_first_piece(l: Seq<char>, c: char, rest: Seq<char>)
    requires
        forall|i: int| 0 <= i < l.len() ==> #[trigger] l[i] != c,
    ensures
        pieces(l + seq![c] + rest, c) == seq![l] + pieces(rest, c),
{
    let s = l + seq![c] + rest;
    lemma_piece_len(l, c, rest);
    assert(s.take(l.len() as int) =~= l);
    assert(s.skip(l.len() as int + 1) =~= rest);
}

// ------------------------------------------------------ what the parts are --

/// Trimming at the end takes away white space, all of it, and nothing else.
pub proof fn law_trimmed_end(s: Seq<char>)
    ensures
        trimmed_end(s).len() <= s.len(),
        trimmed_end(s) == s.take(trimmed_end(s).len() as int),
        forall|i: int| trimmed_end(s).len() <= i < s.len() ==> is_space(#[trigger] s[i]),
        trimmed_end(s).len() > 0 ==> !is_space(trimmed_end(s).last()),
    decreases s.len(),
{
    if s.len() > 0 && is_space(s.last()) {
        let t = s.drop_last();
        law_trimmed_end(t);
        let n = trimmed_end(s).len() as int;
        assert(t.take(n) =~= s.take(n));
        assert forall|i: int| n <= i < s.len() implies is_space(#[trigger] s[i]) by {
            if i < t.len() {
                assert(s[i] == t[i]);
            }
        }
    } else {
        assert(s.take(s.len() as int) =~= s);
    }
}

/// Trimming at the start takes away white space, all of it, and nothing else.
pub proof fn law_trimmed_start(s: Seq<char>)
    ensures
        trimmed_start(s).len() <= s.len(),
        trimmed_start(s) == s.skip(s.len() - trimmed_start(s).len()),
        forall|i: int| 0 <= i < s.len() - trimmed_start(s).len() ==> is_space(#[trigger] s[i]),
        trimmed_start(s).len() > 0 ==> !is_space(trimmed_start(s)[0]),
    decreases s.len(),
{
    if s.len() > 0 && is_space(s[0]) {
        let t = s.skip(1);
        law_trimmed_start(t);
        let n = trimmed_start(s).len() as int;
        assert(t.skip(t.len() - n) =~= s.skip(s.len() - n));
        assert forall|i: int| 0 <= i < s.len() - n implies is_space(#[trigger] s[i]) by {
            if i > 0 {
                assert(s[i] == t[i - 1]);
            }
        }
    } else {
        assert(s.skip(0) =~= s);
    }
}

/// Trimming takes away the white space around a text, all of it, and nothing
/// else.
pub proof fn law_trimmed(lead: Seq<char>, t: Seq<char>, trail: Seq<char>)
    requires
        forall|i: int| 0 <= i < lead.len() ==> is_space(#[trigger] lead[i]),
        forall|i: int| 0 <= i < trail.len() ==> is_space(#[trigger] trail[i]),
        t.len() > 0 ==> !is_space(t[0]) && !is_space(t.last()),
    ensures
        trimmed(lead + t + trail) == t,
{
    let s = lead + t + trail;
    let a = trimmed_start(s);
    law_trimmed_start(s);
    let k = s.len() - a.len();
    if t.len() == 0 {
        assert forall|i: int| 0 <= i < s.len() implies is_space(#[trigger] s[i]) by {
            if i < lead.len() {
                assert(s[i] == lead[i]);
            } else {
                assert(s[i] == trail[i - lead.len()]);
            }
        }
        if a.len() > 0 {
            assert(a[0] == s[k]);
        }
        assert(a =~= Seq::empty());
        assert(trimmed_end(a) =~= t);
    } else {
        if k < lead.len() {
            assert(a[0] == s[k]);
            assert(s[k] == lead[k]);
        }
        if k > lead.len() {
            assert(s[lead.len() as int] == t[0]);
        }
        assert(a =~= t + trail);
        law_trimmed_end(a);
        let e = trimmed_end(a);
        if e.len() > t.len() {
            assert(e.last() == a[e.len() - 1]);
            assert(a[e.len() - 1] == trail[e.len() - 1 - t.len()]);
        }
        if e.len() < t.len() {
            assert(a[t.len() - 1] == t.last());
        }
        assert(e =~= t);
    }
}

/// The characters at the end that are taken away are all those that are `c`.
pub proof fn law_without_end(s: Seq<char>, c: char)
    ensures
        without_end(s, c).len() <= s.len(),
        without_end(s, c) == s.take(without_end(s, c).len() as int),
        forall|i: int| without_end(s, c).len() <= i < s.len() ==> #[trigger] s[i] == c,
        without_end(s, c).len() > 0 ==> without_end(s, c).last() != c,
    decreases s.len(),
{
    if s.len() > 0 && s.last() == c {
        let t = s.drop_last();
        law_without_end(t, c);
        let n = without_end(s, c).len() as int;
        assert(t.take(n) =~= s.take(n));
        assert forall|i: int| n <= i < s.len() implies #[trigger] s[i] == c by {
            if i < t.len() {
                assert(s[i] == t[i]);
            }
        }
    } else {
        assert(s.take(s.len() as int) =~= s);
    }
}

/// The characters at the start that are taken away are all those that are `c`.
pub proof fn law_without_start(s: Seq<char>, c: char)
    ensures
        without_start(s, c).len() <= s.len(),
        without_start(s, c) == s.skip(s.len() - without_start(s, c).len()),
        forall|i: int| 0 <= i < s.len() - without_start(s, c).len() ==> #[trigger] s[i] == c,
        without_start(s, c).len() > 0 ==> without_start(s, c)[0] != c,
    decreases s.len(),
{
    if s.len() > 0 && s[0] == c {
        let t = s.skip(1);
        law_without_start(t, c);
        let n = without_start(s, c).len() as int;
        assert(t.skip(t.len() - n) =~= s.skip(s.len() - n));
        assert forall|i: int| 0 <= i < s.len() - n implies #[trigger] s[i] == c by {
            if i > 0 {
                assert(s[i] == t[i - 1]);
            }
        }
    } else {
        assert(s.skip(0) =~= s);
    }
}

/// The first place of a pattern is one of its places, and none is before it.
pub proof fn law_first_at(s: Seq<char>, pat: Seq<char>, from: int)
    requires
        0 <= from <= s.len(),
    ensures
        from <= first_at(s, pat, from) <= s.len(),
        forall|i: int| from <= i < first_at(s, pat, from) ==> !#[trigger] occurs_at(s, pat, i),
        first_at(s, pat, from) < s.len() ==> occurs_at(s, pat, first_at(s, pat, from)),
    decreases s.len() - from,
{
    if from >= s.len() || occurs_at(s, pat, from) {
    } else {
        law_first_at(s, pat, from + 1);
    }
}

/// What is behind the last `c` of a text.
pub proof fn law_after_last(front: Seq<char>, c: char, t: Seq<char>)
    requires
        forall|i: int| 0 <= i < t.len() ==> #[trigger] t[i] != c,
    ensures
        after_last(front.push(c) + t, c) == t,
        after_last(t, c) == t,
    decreases t.len(),
{
    let s = front.push(c) + t;
    if t.len() == 0 {
        assert(s.last() == c);
        assert(after_last(s, c) =~= t);
        assert(after_last(t, c) =~= t);
    } else {
        let u = t.drop_last();
        assert(s.last() == t[t.len() - 1]);
        assert(s.drop_last() =~= front.push(c) + u);
        assert forall|i: int| 0 <= i < u.len() implies #[trigger] u[i] != c by {
            assert(u[i] == t[i]);
        }
        law_after_last(front, c, u);
        assert(u.push(t.last()) =~= t);
        assert(t.last() == t[t.len() - 1]);
    }
}

/// What is before the first `c` of a text.
pub proof fn law_before_first(t: Seq<char>, c: char, rest: Seq<char>)
    requires
        forall|i: int| 0 <= i < t.len() ==> #[trigger] t[i] != c,
    ensures
        before_first(t + seq![c] + rest, c) == t,
        before_first(t, c) == t,
    decreases t.len(),
{
    let s = t + seq![c] + rest;
    if t.len() == 0 {
        assert(s[0] == c);
        assert(before_first(s, c) =~= t);
        assert(before_first(t, c) =~= t);
    } else {
        let u = t.skip(1);
        assert(s[0] == t[0]);
        assert(s.skip(1) =~= u + seq![c] + rest);
        assert forall|i: int| 0 <= i < u.len() implies #[trigger] u[i] != c by {
            assert(u[i] == t[i + 1]);
        }
        law_before_first(u, c, rest);
        assert(seq![t[0]] + u =~= t);
    }
}

/// A line that a carriage return and a line feed end is the first line without
/// both.
pub proof fn law_first_line_return(l: Seq<char>, rest: Seq<char>)
    requires
        forall|i: int| 0 <= i < l.len() ==> #[trigger] l[i] != '\n',
    ensures
        lines(l + "\r\n"@ + rest) == seq![l] + lines(rest),
{
    reveal_strlit("\r\n");
    let k = l.push('\r');
    let tail = seq!['\n'] + rest;
    let s = l + "\r\n"@ + rest;
    assert(s =~= k + tail);
    lemma_line_len(k, tail);
    assert(s.take(k.len() as int) =~= k);
    assert(k.drop_last() =~= l);
    assert(s.skip(k.len() as int + 1) =~= rest);
}

/// A last line without a line feed is a line as it is, and nothing has no lines.
pub proof fn law_last_line(l: Seq<char>)
    requires
        forall|i: int| 0 <= i < l.len() ==> #[trigger] l[i] != '\n',
    ensures
        lines(l) == if l.len() > 0 {
            seq![l]
        } else {
            Seq::empty()
        },
{
    lemma_line_len(l, Seq::empty());
    assert(l + Seq::<char>::empty() =~= l);
}

/// A text without the separator is one piece.
pub proof fn law_last_piece(l: Seq<char>, c: char)
    requires
        forall|i: int| 0 <= i < l.len() ==> #[trigger] l[i] != c,
    ensures
        pieces(l, c) == seq![l],
    decreases l.len(),
{
    lemma_piece_len_free(l, c);
}

proof fn lemma_piece_len_free(l: Seq<char>, c: char)
    requires
        forall|i: int| 0 <= i < l.len() ==> #[trigger] l[i] != c,
    ensures
        piece_len(l, c) == l.len(),
    decreases l.len(),
{
    if l.len() > 0 {
        assert(l[0] != c);
        assert forall|i: int| 0 <= i < l.skip(1).len() implies #[trigger] l.skip(1)[i] != c by {
            assert(l.skip(1)[i] == l[i + 1]);
        }
        lemma_piece_len_free(l.skip(1), c);
    }
}

/// A number is written without zeros in front, and as ten times the number before
/// its last digit, and that digit.
pub proof fn law_decimal(n: nat, d: nat)
    requires
        d < 10,
    ensures
        n > 0 ==> decimal(n)[0] != '0',
        decimal(d) == seq![('0' as nat + d) as char],
        n > 0 ==> decimal(10 * n + d) == decimal(n).push(('0' as nat + d) as char),
    decreases n,
{
    if n >= 10 {
        law_decimal(n / 10, 0);
        lemma_decimal_digits(n / 10);
        assert(decimal(n)[0] == decimal(n / 10)[0]);
    }
    if n > 0 {
        assert((10 * n + d) / 10 == n);
        assert((10 * n + d) % 10 == d);
    }
}

/// A number may have a plus sign; one that is too large is none, and neither is a
/// text with anything but digits behind the sign.
pub proof fn law_number(n: nat, max: nat, s: Seq<char>)
    ensures
        number(seq!['+'] + decimal(n), max) == number(decimal(n), max),
        n > max ==> number(decimal(n), max) is None,
        number(s, max) is Some ==> s.len() > 0 && number(s, max)->0 <= max && forall|i: int|
            0 < i < s.len() ==> '0' <= #[trigger] s[i] <= '9',
        number(s, max) is Some ==> s[0] == '+' || '0' <= s[0] <= '9',
{
    lemma_decimal_digits(n);
    assert(is_digit(decimal(n)[0]));
    let p = seq!['+'] + decimal(n);
    assert(p.skip(1) =~= decimal(n));
    assert(p[0] == '+');
    if number(s, max) is Some {
        let d = unsigned_digits(s);
        assert forall|i: int| 0 < i < s.len() implies '0' <= #[trigger] s[i] <= '9' by {
            if s[0] == '+' {
                assert(is_digit(d[i - 1]));
            } else {
                assert(is_digit(d[i]));
            }
        }
        if s[0] != '+' {
            assert(is_digit(d[0]));
        }
    }
}

/// To join no texts, one text, and one more than some.
pub proof fn law_joined(parts: Seq<Seq<char>>, last: Seq<char>, sep: Seq<char>)
    ensures
        joined(Seq::empty(), sep) == Seq::<char>::empty(),
        joined(seq![last], sep) == last,
        parts.len() > 0 ==> joined(parts.push(last), sep) == joined(parts, sep) + sep + last,
{
    assert(parts.push(last).drop_last() =~= parts);
}

/// A text begins with what it was put behind, ends with what was put behind it, and
/// holds what was put into it; and what it begins or ends with is a part of it.
pub proof fn law_affixes(a: Seq<char>, p: Seq<char>, b: Seq<char>)
    ensures
        begins(p + b, p),
        ends(a + p, p),
        occurs(a + p + b, p),
        begins(a, p) <==> a == p + a.skip(p.len() as int) && p.len() <= a.len(),
        ends(a, p) <==> p.len() <= a.len() && a == a.take(a.len() - p.len()) + p,
{
    assert((p + b).subrange(0, p.len() as int) =~= p);
    let e = a + p;
    assert(e.subrange(e.len() - p.len(), e.len() as int) =~= p);
    let m = a + p + b;
    assert(m.subrange(a.len() as int, (a.len() + p.len()) as int) =~= p);
    assert(occurs_at(m, p, a.len() as int));
    if begins(a, p) {
        let f = a.subrange(0, p.len() as int);
        assert(f == p);
        assert(a =~= f + a.skip(p.len() as int));
    }
    if p.len() <= a.len() {
        if a == p + a.skip(p.len() as int) {
            assert(a.subrange(0, p.len() as int) =~= (p + a.skip(p.len() as int)).take(
                p.len() as int,
            ));
            assert(a.subrange(0, p.len() as int) =~= p);
        }
        let k = a.len() - p.len();
        if ends(a, p) {
            let f = a.subrange(k, a.len() as int);
            assert(f == p);
            assert(a =~= a.take(k) + f);
        }
        if a == a.take(k) + p {
            let c = a.take(k) + p;
            assert(c.subrange(k, c.len() as int) =~= p);
        }
    }
}

/// Blanks, tabs and line ends are white space, in and beyond ASCII; no other ASCII
/// character is, nor is a space without width.
pub proof fn law_spaces(c: char)
    ensures
        c < '\u{80}' ==> (is_space(c) <==> c == ' ' || c == '\t' || c == '\n' || c == '\r' || c
            == '\u{b}' || c == '\u{c}'),
        is_space('\u{85}') && is_space('\u{a0}') && is_space('\u{1680}') && is_space('\u{2028}')
            && is_space('\u{2029}') && is_space('\u{202f}') && is_space('\u{205f}') && is_space(
            '\u{3000}',
        ),
        '\u{2000}' <= c <= '\u{200a}' ==> is_space(c),
        c == '\u{200b}' || c > '\u{3000}' ==> !is_space(c),
{
}

} // verus!
