//! Text as sequences of characters: white space, lines, words and separators.
//!
//! Every parser of the crate reads its input as a slice of characters and hands
//! out subslices of it. The spec functions say which part of the text each of
//! them means.
use vstd::prelude::*;
use vstd::slice::slice_subrange;

verus! {

/// Appends one character. The contract restates the documentation of
/// [`String::push`]: the character goes to the end, what was there stays.
pub assume_specification[ String::push ](s: &mut String, c: char)
    ensures
        final(s)@ == old(s)@.push(c),
;

/// The characters with the Unicode property `White_Space`.
pub open spec fn is_space(c: char) -> bool {
    ||| '\u{9}' <= c <= '\u{d}'
    ||| c == ' '
    ||| c == '\u{85}'
    ||| c == '\u{a0}'
    ||| c == '\u{1680}'
    ||| '\u{2000}' <= c <= '\u{200a}'
    ||| c == '\u{2028}'
    ||| c == '\u{2029}'
    ||| c == '\u{202f}'
    ||| c == '\u{205f}'
    ||| c == '\u{3000}'
}

/// Whether `c` is white space.
pub fn is_whitespace(c: char) -> (r: bool)
    ensures
        r == is_space(c),
{
    ('\u{9}' <= c && c <= '\u{d}') || c == ' ' || c == '\u{85}' || c == '\u{a0}' || c == '\u{1680}'
        || ('\u{2000}' <= c && c <= '\u{200a}') || c == '\u{2028}' || c == '\u{2029}' || c
        == '\u{202f}' || c == '\u{205f}' || c == '\u{3000}'
}

/// The texts that the strings of a list hold.
pub open spec fn texts(list: Seq<String>) -> Seq<Seq<char>> {
    list.map_values(|s: String| s@)
}

/// The texts of a list that was extended by one string.
pub broadcast proof fn lemma_texts_push(list: Seq<String>, s: String)
    ensures
        #[trigger] texts(list.push(s)) == texts(list).push(s@),
{
    assert(texts(list.push(s)) =~= texts(list).push(s@));
}

/// The texts of an empty list.
pub broadcast proof fn lemma_texts_empty()
    ensures
        #[trigger] texts(Seq::<String>::empty()) == Seq::<Seq<char>>::empty(),
{
    assert(texts(Seq::<String>::empty()) =~= Seq::<Seq<char>>::empty());
}

/// The text that an optional string holds.
pub open spec fn opt_text(o: Option<String>) -> Option<Seq<char>> {
    match o {
        Some(s) => Some(s@),
        None => None,
    }
}

/// `s` as a list of characters.
pub fn chars_of(s: &str) -> (chars: Vec<char>)
    ensures
        chars@ == s@,
{
    let mut chars: Vec<char> = Vec::new();
    for c in it: s.chars()
        invariant
            chars@ == s@.take(it.index()),
            it.seq() == s@,
    {
        chars.push(c);
    }
    chars
}

/// The characters as a string.
pub fn string_of(chars: &[char]) -> (s: String)
    ensures
        s@ == chars@,
{
    let mut s: String = String::new();
    let mut i: usize = 0;
    while i < chars.len()
        invariant
            i <= chars@.len(),
            s@ == chars@.take(i as int),
        decreases chars@.len() - i,
    {
        s.push(chars[i]);
        i = i + 1;
    }
    s
}

/// `s` without its leading white space.
pub open spec fn trimmed_start(s: Seq<char>) -> Seq<char>
    decreases s.len(),
{
    if s.len() > 0 && is_space(s[0]) {
        trimmed_start(s.drop_first())
    } else {
        s
    }
}

/// `s` without its trailing white space.
pub open spec fn trimmed_end(s: Seq<char>) -> Seq<char>
    decreases s.len(),
{
    if s.len() > 0 && is_space(s.last()) {
        trimmed_end(s.drop_last())
    } else {
        s
    }
}

/// `s` without its leading and its trailing white space.
pub open spec fn trimmed(s: Seq<char>) -> Seq<char> {
    trimmed_end(trimmed_start(s))
}

/// Skips leading white space.
pub fn trim_start(s: &[char]) -> (r: &[char])
    ensures
        r@ == trimmed_start(s@),
{
    let mut i: usize = 0;
    assert(s@.skip(0) == s@);
    while i < s.len() && is_whitespace(s[i])
        invariant
            i <= s@.len(),
            trimmed_start(s@.skip(i as int)) == trimmed_start(s@),
        decreases s@.len() - i,
    {
        assert(s@.skip(i as int).drop_first() == s@.skip(i + 1));
        i = i + 1;
    }
    slice_subrange(s, i, s.len())
}

/// Drops trailing white space.
pub fn trim_end(s: &[char]) -> (r: &[char])
    ensures
        r@ == trimmed_end(s@),
{
    let mut n: usize = s.len();
    assert(s@.take(n as int) == s@);
    while n > 0 && is_whitespace(s[n - 1])
        invariant
            n <= s@.len(),
            trimmed_end(s@.take(n as int)) == trimmed_end(s@),
        decreases n,
    {
        assert(s@.take(n as int).drop_last() == s@.take(n - 1));
        n = n - 1;
    }
    slice_subrange(s, 0, n)
}

/// Drops leading and trailing white space.
pub fn trim(s: &[char]) -> (r: &[char])
    ensures
        r@ == trimmed(s@),
{
    trim_end(trim_start(s))
}

/// Where `c` first occurs in `s`, or the length of `s` if it does not occur.
pub open spec fn position(s: Seq<char>, c: char) -> nat
    decreases s.len(),
{
    if s.len() == 0 || s[0] == c {
        0
    } else {
        1 + position(s.drop_first(), c)
    }
}

/// [`position`] is the first index at which the character stands.
pub proof fn lemma_position(s: Seq<char>, c: char)
    ensures
        position(s, c) <= s.len(),
        position(s, c) < s.len() ==> s[position(s, c) as int] == c,
        forall|i: int| 0 <= i < position(s, c) ==> s[i] != c,
    decreases s.len(),
{
    if s.len() > 0 && s[0] != c {
        lemma_position(s.drop_first(), c);
        assert forall|i: int| 0 <= i < position(s, c) implies s[i] != c by {
            if i > 0 {
                assert(s[i] == s.drop_first()[i - 1]);
            }
        }
    }
}

/// An index before which `c` does not stand, and at which it does or the text
/// ends, is [`position`].
pub proof fn lemma_position_unique(s: Seq<char>, c: char, n: int)
    requires
        0 <= n <= s.len(),
        n < s.len() ==> s[n] == c,
        forall|i: int| 0 <= i < n ==> s[i] != c,
    ensures
        position(s, c) == n,
{
    lemma_position(s, c);
    let p = position(s, c) as int;
    if p < n {
        assert(s[p] != c);
    } else if n < p {
        assert(s[n] != c);
    }
}

/// Finds the first `c`.
pub fn find(s: &[char], c: char) -> (n: usize)
    ensures
        n == position(s@, c),
        n <= s@.len(),
{
    let mut i: usize = 0;
    while i < s.len() && s[i] != c
        invariant
            i <= s@.len(),
            forall|k: int| 0 <= k < i ==> s@[k] != c,
        decreases s@.len() - i,
    {
        i = i + 1;
    }
    proof {
        lemma_position_unique(s@, c, i as int);
    }
    i
}

/// The parts before and after the first `c`, if there is one.
pub open spec fn split_at_first(s: Seq<char>, c: char) -> Option<(Seq<char>, Seq<char>)> {
    let n = position(s, c);
    if n < s.len() {
        Some((s.take(n as int), s.skip(n as int + 1)))
    } else {
        None
    }
}

/// Splits at the first `c`.
pub fn split_once(s: &[char], c: char) -> (r: Option<(&[char], &[char])>)
    ensures
        match r {
            Some((head, tail)) => split_at_first(s@, c) == Some((head@, tail@)),
            None => split_at_first(s@, c) is None,
        },
{
    let n: usize = find(s, c);
    if n < s.len() {
        Some((slice_subrange(s, 0, n), slice_subrange(s, n + 1, s.len())))
    } else {
        None
    }
}

/// The first line of `s`, without its line ending: a line feed, or a carriage
/// return followed by one. The last line needs no ending.
pub open spec fn first_line(s: Seq<char>) -> Seq<char> {
    let n = position(s, '\n');
    if 0 < n < s.len() && s[n - 1] == '\r' {
        s.take(n - 1)
    } else {
        s.take(n as int)
    }
}

/// What follows the first line of `s` and its line ending.
pub open spec fn after_line(s: Seq<char>) -> Seq<char> {
    let n = position(s, '\n');
    if n < s.len() {
        s.skip(n as int + 1)
    } else {
        Seq::empty()
    }
}

/// The lines of `s`.
pub open spec fn lines(s: Seq<char>) -> Seq<Seq<char>>
    decreases s.len(),
{
    if s.len() == 0 {
        Seq::empty()
    } else {
        seq![first_line(s)] + lines(after_line(s))
    }
}

/// Takes the first line off `s`: the line and the rest.
pub fn take_line(s: &[char]) -> (r: (&[char], &[char]))
    requires
        s@.len() > 0,
    ensures
        r.0@ == first_line(s@),
        r.1@ == after_line(s@),
        r.1@.len() < s@.len(),
{
    let n: usize = find(s, '\n');
    if n < s.len() {
        let end: usize = if n > 0 && s[n - 1] == '\r' {
            n - 1
        } else {
            n
        };
        (slice_subrange(s, 0, end), slice_subrange(s, n + 1, s.len()))
    } else {
        (s, slice_subrange(s, n, n))
    }
}

/// The lines of `s`, each without white space around it.
pub open spec fn trimmed_lines(s: Seq<char>) -> Seq<Seq<char>> {
    lines(s).map_values(|line: Seq<char>| trimmed(line))
}

/// Splits `s` into lines and drops the white space around each.
pub fn split_lines(s: &str) -> (list: Vec<String>)
    ensures
        texts(list@) == trimmed_lines(s@),
{
    broadcast use lemma_texts_empty;

    let chars: Vec<char> = chars_of(s);
    let mut rest: &[char] = chars.as_slice();
    let mut list: Vec<String> = Vec::new();
    let ghost mut done: Seq<Seq<char>> = Seq::empty();
    proof {
        assert(done + lines(rest@) =~= lines(s@));
        assert(texts(list@) =~= done.map_values(|line: Seq<char>| trimmed(line)));
    }
    while rest.len() > 0
        invariant
            done + lines(rest@) == lines(s@),
            texts(list@) == done.map_values(|line: Seq<char>| trimmed(line)),
        decreases rest@.len(),
    {
        broadcast use lemma_texts_push;

        let (line, tail) = take_line(rest);
        list.push(string_of(trim(line)));
        proof {
            let next = done.push(line@);
            assert(next + lines(tail@) =~= done + lines(rest@));
            assert(texts(list@) =~= next.map_values(|line: Seq<char>| trimmed(line)));
            done = next;
        }
        rest = tail;
    }
    assert(done + lines(rest@) =~= done);
    list
}

/// What filtering makes of a list that was extended by one item.
pub proof fn lemma_filter_push<A>(s: Seq<A>, x: A, keep: spec_fn(A) -> bool)
    ensures
        s.push(x).filter(keep) == (if keep(x) {
            s.filter(keep).push(x)
        } else {
            s.filter(keep)
        }),
{
    reveal(Seq::filter);
    assert(s.push(x).drop_last() == s);
}

/// How a filtered prefix grows by one item.
pub proof fn lemma_filter_take<A>(s: Seq<A>, i: int, keep: spec_fn(A) -> bool)
    requires
        0 <= i < s.len(),
    ensures
        s.take(i + 1).filter(keep) == (if keep(s[i]) {
            s.take(i).filter(keep).push(s[i])
        } else {
            s.take(i).filter(keep)
        }),
{
    reveal(Seq::filter);
    assert(s.take(i + 1).drop_last() == s.take(i));
    assert(s.take(i + 1).last() == s[i]);
}

/// The number of characters before the first white space.
pub open spec fn word_length(s: Seq<char>) -> nat
    decreases s.len(),
{
    if s.len() == 0 || is_space(s[0]) {
        0
    } else {
        1 + word_length(s.drop_first())
    }
}

/// [`word_length`] does not exceed the text.
pub proof fn lemma_word_length(s: Seq<char>)
    ensures
        word_length(s) <= s.len(),
    decreases s.len(),
{
    if s.len() > 0 && !is_space(s[0]) {
        lemma_word_length(s.drop_first());
    }
}

/// The maximal runs of characters that are not white space, in order.
pub open spec fn words(s: Seq<char>) -> Seq<Seq<char>>
    decreases s.len(),
{
    if s.len() == 0 {
        Seq::empty()
    } else if is_space(s[0]) {
        words(s.drop_first())
    } else {
        let n = word_length(s);
        if 0 < n <= s.len() {
            seq![s.take(n as int)] + words(s.skip(n as int))
        } else {
            Seq::empty()
        }
    }
}

/// Takes the first word off `s`: the word and the rest, or nothing if there is
/// only white space.
pub fn take_word(s: &[char]) -> (r: Option<(&[char], &[char])>)
    ensures
        match r {
            Some((word, rest)) => {
                &&& words(s@) == seq![word@] + words(rest@)
                &&& rest@.len() < s@.len()
            },
            None => words(s@).len() == 0,
        },
{
    let mut i: usize = 0;
    assert(s@.skip(0) == s@);
    while i < s.len() && is_whitespace(s[i])
        invariant
            i <= s@.len(),
            words(s@.skip(i as int)) == words(s@),
        decreases s@.len() - i,
    {
        assert(s@.skip(i as int).drop_first() == s@.skip(i + 1));
        i = i + 1;
    }
    if i == s.len() {
        return None;
    }
    let ghost tail = s@.skip(i as int);
    let mut j: usize = i;
    while j < s.len() && !is_whitespace(s[j])
        invariant
            i <= j <= s@.len(),
            tail == s@.skip(i as int),
            word_length(tail) == (j - i) + word_length(s@.skip(j as int)),
        decreases s@.len() - j,
    {
        assert(s@.skip(j as int).drop_first() == s@.skip(j + 1));
        j = j + 1;
    }
    proof {
        assert(word_length(s@.skip(j as int)) == 0);
        assert(tail.take(j - i) == s@.subrange(i as int, j as int));
        assert(tail.skip(j - i) == s@.skip(j as int));
        assert(!is_space(tail[0]));
        assert(word_length(tail) == 1 + word_length(tail.drop_first()));
    }
    Some((slice_subrange(s, i, j), slice_subrange(s, j, s.len())))
}

/// The `n`-th word of `s`, counted from zero, if there is one.
pub open spec fn nth_word(s: Seq<char>, n: nat) -> Option<Seq<char>> {
    if n < words(s).len() {
        Some(words(s)[n as int])
    } else {
        None
    }
}

/// The number of words.
pub fn count_words(s: &[char]) -> (n: usize)
    ensures
        n == words(s@).len(),
{
    let total: usize = s.len();
    let mut rest: &[char] = s;
    let mut n: usize = 0;
    let mut more: bool = true;
    while more
        invariant
            total == s@.len(),
            n + rest@.len() <= total,
            words(s@).len() == n + words(rest@).len(),
            !more ==> words(rest@).len() == 0,
        decreases (if more { 1 + rest@.len() } else { 0 }),
    {
        match take_word(rest) {
            Some((_, tail)) => {
                rest = tail;
                n = n + 1;
            },
            None => {
                more = false;
            },
        }
    }
    n
}

/// The texts of a list with `separator` between them.
pub open spec fn joined(list: Seq<Seq<char>>, separator: Seq<char>) -> Seq<char>
    decreases list.len(),
{
    if list.len() == 0 {
        Seq::empty()
    } else if list.len() == 1 {
        list[0]
    } else {
        joined(list.drop_last(), separator) + separator + list.last()
    }
}

/// Joins strings with `separator` between them.
pub fn join(list: &[String], separator: &str) -> (s: String)
    ensures
        s@ == joined(texts(list@), separator@),
{
    let ghost all = texts(list@);
    let mut s: String = String::new();
    let mut i: usize = 0;
    assert(s@ =~= joined(all.take(0), separator@));
    while i < list.len()
        invariant
            i <= list@.len(),
            all == texts(list@),
            s@ == joined(all.take(i as int), separator@),
        decreases list@.len() - i,
    {
        if i > 0 {
            s.append(separator);
        }
        s.append(list[i].as_str());
        proof {
            let next = all.take(i + 1);
            assert(next.drop_last() =~= all.take(i as int));
            assert(next.last() == list@[i as int]@);
            assert(s@ =~= joined(next, separator@));
        }
        i = i + 1;
    }
    assert(all.take(i as int) =~= all);
    s
}

/// Whether the text starts with `prefix`.
pub open spec fn begins_with(s: Seq<char>, prefix: Seq<char>) -> bool {
    prefix.len() <= s.len() && s.take(prefix.len() as int) == prefix
}

/// Whether the characters start with `prefix`.
pub fn starts_with(s: &[char], prefix: &str) -> (r: bool)
    ensures
        r == begins_with(s@, prefix@),
{
    let p: Vec<char> = chars_of(prefix);
    if p.len() > s.len() {
        return false;
    }
    let mut i: usize = 0;
    while i < p.len()
        invariant
            i <= p@.len() <= s@.len(),
            forall|k: int| 0 <= k < i ==> s@[k] == p@[k],
            p@ == prefix@,
        decreases p@.len() - i,
    {
        if s[i] != p[i] {
            assert(s@.take(p@.len() as int)[i as int] != prefix@[i as int]);
            return false;
        }
        i = i + 1;
    }
    assert(s@.take(p@.len() as int) == prefix@);
    true
}

/// Whether the characters are those of `t`.
pub fn same_text(s: &[char], t: &str) -> (r: bool)
    ensures
        r == (s@ == t@),
{
    let starts: bool = starts_with(s, t);
    let n: usize = t.unicode_len();
    assert(s@.len() == t@.len() ==> s@.take(t@.len() as int) == s@);
    starts && s.len() == n
}

/// `c` in lower case if it is an ASCII letter.
pub open spec fn lower(c: char) -> char {
    if 'A' <= c <= 'Z' {
        ((c as u8) + 32) as char
    } else {
        c
    }
}

/// The text with its ASCII letters in lower case.
pub open spec fn lowered(s: Seq<char>) -> Seq<char> {
    s.map_values(|c: char| lower(c))
}

/// Copies the text with its ASCII letters in lower case.
pub fn to_ascii_lowercase(s: &[char]) -> (r: String)
    ensures
        r@ == lowered(s@),
{
    let mut r: String = String::new();
    let mut i: usize = 0;
    while i < s.len()
        invariant
            i <= s@.len(),
            r@ == lowered(s@).take(i as int),
        decreases s@.len() - i,
    {
        let c: char = s[i];
        if 'A' <= c && c <= 'Z' {
            r.push(((c as u8) + 32) as char);
        } else {
            r.push(c);
        }
        i = i + 1;
    }
    r
}

/// Trimming takes out the part between the first and the last character that is
/// not white space.
pub proof fn law_trimmed(s: Seq<char>) -> (range: (int, int))
    ensures
        0 <= range.0 <= range.1 <= s.len(),
        trimmed(s) == s.subrange(range.0, range.1),
        forall|k: int| 0 <= k < range.0 ==> is_space(#[trigger] s[k]),
        forall|k: int| range.1 <= k < s.len() ==> is_space(#[trigger] s[k]),
        range.0 < range.1 ==> !is_space(s[range.0]) && !is_space(s[range.1 - 1]),
{
    let i = lemma_trimmed_start_at(s);
    let t = trimmed_start(s);
    let n = lemma_trimmed_end_at(t);
    assert forall|k: int| i + n <= k < s.len() implies is_space(#[trigger] s[k]) by {
        assert(s[k] == t[k - i]);
    }
    assert(trimmed(s) =~= s.subrange(i, i + n));
    if n > 0 {
        assert(s[i] == t[0]);
        assert(s[i + n - 1] == t[n - 1]);
    }
    (i, i + n)
}

/// Where a text starts without its leading white space.
proof fn lemma_trimmed_start_at(s: Seq<char>) -> (i: int)
    ensures
        0 <= i <= s.len(),
        trimmed_start(s) == s.skip(i),
        forall|k: int| 0 <= k < i ==> is_space(#[trigger] s[k]),
        i < s.len() ==> !is_space(s[i]),
    decreases s.len(),
{
    if s.len() > 0 && is_space(s[0]) {
        let tail = s.drop_first();
        let i = lemma_trimmed_start_at(tail);
        assert(tail.skip(i) =~= s.skip(i + 1));
        assert forall|k: int| 0 <= k < i + 1 implies is_space(#[trigger] s[k]) by {
            if k > 0 {
                assert(s[k] == tail[k - 1]);
            }
        }
        i + 1
    } else {
        assert(s.skip(0) =~= s);
        0
    }
}

/// Where a text ends without its trailing white space.
proof fn lemma_trimmed_end_at(s: Seq<char>) -> (n: int)
    ensures
        0 <= n <= s.len(),
        trimmed_end(s) == s.take(n),
        forall|k: int| n <= k < s.len() ==> is_space(#[trigger] s[k]),
        n > 0 ==> !is_space(s[n - 1]),
    decreases s.len(),
{
    if s.len() > 0 && is_space(s.last()) {
        let front = s.drop_last();
        let n = lemma_trimmed_end_at(front);
        assert(front.take(n) =~= s.take(n));
        assert forall|k: int| n <= k < s.len() implies is_space(#[trigger] s[k]) by {
            if k < front.len() {
                assert(s[k] == front[k]);
            }
        }
        n
    } else {
        assert(s.take(s.len() as int) =~= s);
        s.len() as int
    }
}

/// A text is cut into lines at its line feeds. A carriage return before one of
/// them does not belong to the line, and what follows the last one is a line
/// unless it is empty.
pub proof fn law_lines(line: Seq<char>, rest: Seq<char>)
    requires
        forall|i: int| 0 <= i < line.len() ==> #[trigger] line[i] != '\n',
    ensures
        lines(line.push('\n') + rest) == seq![
            if line.len() > 0 && line.last() == '\r' {
                line.drop_last()
            } else {
                line
            },
        ] + lines(rest),
        line.len() > 0 ==> lines(line) == seq![line],
        lines(Seq::empty()).len() == 0,
{
    let s = line.push('\n') + rest;
    let n = line.len() as int;
    assert forall|i: int| 0 <= i < n implies s[i] != '\n' by {
        assert(s[i] == line[i]);
    }
    lemma_position_unique(s, '\n', n);
    assert(s.take(n) =~= line);
    if n > 0 {
        assert(s.take(n - 1) =~= line.drop_last());
        lemma_position_unique(line, '\n', n);
        assert(line.take(n) =~= line);
        assert(after_line(line) =~= Seq::<char>::empty());
        assert(lines(Seq::<char>::empty()) =~= Seq::<Seq<char>>::empty());
        assert(lines(line) =~= seq![line]);
    }
    assert(s.skip(n + 1) =~= rest);
}

/// White space separates words: the words of a text are those before it and
/// those behind it. A text without any is a word, unless it is empty.
pub proof fn law_words(a: Seq<char>, space: char, b: Seq<char>)
    requires
        is_space(space),
    ensures
        words(a.push(space) + b) == words(a) + words(b),
        a.len() > 0 && (forall|i: int| 0 <= i < a.len() ==> !is_space(#[trigger] a[i]))
            ==> words(a) == seq![a],
        words(Seq::empty()).len() == 0,
    decreases a.len(),
{
    let s = a.push(space) + b;
    if a.len() == 0 {
        assert(s.drop_first() =~= b);
        assert(words(a) + words(b) =~= words(b));
    } else if is_space(a[0]) {
        assert(s.drop_first() =~= a.drop_first().push(space) + b);
        law_words(a.drop_first(), space, b);
    } else {
        lemma_word_length(a);
        lemma_word_length_before(a, seq![space] + b);
        let n = word_length(a) as int;
        let rest = a.skip(n);
        assert(s =~= a + (seq![space] + b));
        assert(s.take(n) =~= a.take(n));
        assert(s.skip(n) =~= rest.push(space) + b);
        assert(n > 0);
        law_words(rest, space, b);
        assert(words(s) =~= words(a) + words(b));
        if forall|i: int| 0 <= i < a.len() ==> !is_space(#[trigger] a[i]) {
            lemma_word_length_full(a);
            assert(a.take(n) =~= a);
            assert(rest =~= Seq::<char>::empty());
            assert(words(rest) =~= Seq::<Seq<char>>::empty());
            assert(words(a) =~= seq![a]);
        }
    }
}

/// The first word does not grow by what follows white space.
proof fn lemma_word_length_before(a: Seq<char>, b: Seq<char>)
    requires
        b.len() > 0,
        is_space(b[0]),
    ensures
        word_length(a + b) == word_length(a),
    decreases a.len(),
{
    if a.len() == 0 {
        assert(a + b =~= b);
    } else if !is_space(a[0]) {
        assert((a + b).drop_first() =~= a.drop_first() + b);
        lemma_word_length_before(a.drop_first(), b);
    }
}

/// A text without white space is one word.
proof fn lemma_word_length_full(a: Seq<char>)
    requires
        forall|i: int| 0 <= i < a.len() ==> !is_space(#[trigger] a[i]),
    ensures
        word_length(a) == a.len(),
    decreases a.len(),
{
    if a.len() > 0 {
        let tail = a.drop_first();
        assert forall|i: int| 0 <= i < tail.len() implies !is_space(#[trigger] tail[i]) by {
            assert(tail[i] == a[i + 1]);
        }
        lemma_word_length_full(tail);
    }
}

/// A text is split at the first separator, and only if there is one.
pub proof fn law_split_at_first(a: Seq<char>, c: char, b: Seq<char>)
    requires
        forall|i: int| 0 <= i < a.len() ==> #[trigger] a[i] != c,
    ensures
        split_at_first(a.push(c) + b, c) == Some((a, b)),
        split_at_first(a, c) is None,
{
    let s = a.push(c) + b;
    let n = a.len() as int;
    assert forall|i: int| 0 <= i < n implies s[i] != c by {
        assert(s[i] == a[i]);
    }
    lemma_position_unique(s, c, n);
    lemma_position_unique(a, c, n);
    assert(s.take(n) =~= a);
    assert(s.skip(n + 1) =~= b);
}

/// Lower case changes the letters from `A` to `Z` into those from `a` to `z`,
/// and nothing else.
pub proof fn law_lowered(s: Seq<char>)
    ensures
        lowered(s).len() == s.len(),
        forall|i: int|
            0 <= i < s.len() ==> lowered(s)[i] as int == (if 'A' <= #[trigger] s[i] <= 'Z' {
                s[i] as int + 'a' as int - 'A' as int
            } else {
                s[i] as int
            }),
{
}

/// A text starts with its first part, and with nothing else of that length.
pub proof fn law_begins_with(a: Seq<char>, b: Seq<char>, p: Seq<char>)
    ensures
        begins_with(a + b, a),
        begins_with(a + b, p) && p.len() == a.len() ==> p == a,
        p.len() > (a + b).len() ==> !begins_with(a + b, p),
{
    assert((a + b).take(a.len() as int) =~= a);
}

/// Joined lists are joined with the separator between them.
pub proof fn law_joined(a: Seq<Seq<char>>, b: Seq<Seq<char>>, separator: Seq<char>)
    ensures
        a.len() > 0 && b.len() > 0 ==> joined(a + b, separator) == joined(a, separator) + separator
            + joined(b, separator),
        a.len() == 1 ==> joined(a, separator) == a[0],
        a.len() == 0 ==> joined(a, separator).len() == 0,
    decreases b.len(),
{
    if a.len() > 0 && b.len() > 0 {
        let front = b.drop_last();
        assert((a + b).drop_last() =~= a + front);
        assert((a + b).last() == b.last());
        law_joined(a, front, separator);
        if front.len() == 0 {
            assert(a + front =~= a);
        }
        assert(joined(a + b, separator) =~= joined(a, separator) + separator + joined(
            b,
            separator,
        ));
    }
}

/// Filtering goes part by part.
pub proof fn lemma_filter_first<A>(x: A, rest: Seq<A>, keep: spec_fn(A) -> bool)
    ensures
        (seq![x] + rest).filter(keep) == (if keep(x) {
            seq![x] + rest.filter(keep)
        } else {
            rest.filter(keep)
        }),
{
    Seq::filter_distributes_over_add(seq![x], rest, keep);
    lemma_filter_push(Seq::<A>::empty(), x, keep);
    assert(Seq::<A>::empty().push(x) =~= seq![x]);
    assert(Seq::<A>::empty().filter(keep) =~= Seq::<A>::empty()) by {
        reveal(Seq::filter);
    }
    assert(Seq::<A>::empty() + rest.filter(keep) =~= rest.filter(keep));
    assert(Seq::<A>::empty().push(x) + rest.filter(keep) =~= seq![x] + rest.filter(keep));
}

/// The trimmed lines of a text whose first part ends with a line.
pub proof fn lemma_trimmed_lines_concat(a: Seq<char>, b: Seq<char>)
    requires
        a.len() > 0 ==> a.last() == '\n',
    ensures
        trimmed_lines(a + b) == trimmed_lines(a) + trimmed_lines(b),
{
    crate::dialogue::lemma_lines_concat(a, b);
    assert(trimmed_lines(a + b) =~= trimmed_lines(a) + trimmed_lines(b));
}

/// The trimmed line of a text of one line.
pub proof fn lemma_trimmed_lines_single(line: Seq<char>)
    requires
        forall|i: int| 0 <= i < line.len() ==> #[trigger] line[i] != '\n',
    ensures
        trimmed_lines(line.push('\n')) == seq![trimmed(line)],
{
    law_lines(line, Seq::empty());
    assert(line.push('\n') + Seq::<char>::empty() =~= line.push('\n'));
    assert(lines(Seq::<char>::empty()) =~= Seq::<Seq<char>>::empty());
    let content = if line.len() > 0 && line.last() == '\r' {
        line.drop_last()
    } else {
        line
    };
    assert(lines(line.push('\n')) =~= seq![content]);
    if line.len() > 0 && line.last() == '\r' {
        assert(line =~= content.push('\r'));
        crate::exchange::lemma_trimmed_start_push(content, '\r');
        let start = trimmed_start(content);
        if start.len() > 0 {
            assert(start.push('\r').drop_last() =~= start);
        }
        assert(trimmed(line) == trimmed(content));
    }
    assert(trimmed_lines(line.push('\n')) =~= seq![trimmed(line)]);
}

/// The characters that count as white space, by their numbers: the controls
/// from the tab to the carriage return, the space, and the spaces and line
/// separators beyond ASCII.
pub proof fn law_white_space(c: char)
    ensures
        ({
            let n = c as int;
            is_space(c) <==> 9 <= n <= 13 || n == 32 || n == 0x85 || n == 0xa0 || n == 0x1680 || 0x2000
                <= n <= 0x200a || n == 0x2028 || n == 0x2029 || n == 0x202f || n == 0x205f || n
                == 0x3000
        }),
{
}

} // verus!
