//! Text handling: splitting, trimming, lines and decimal numbers.
//!
//! Every function here works on Unicode scalar values, the view of a Rust string.

use vstd::prelude::*;
use vstd::string::StringExecFns;

verus! {

/// `String::push` appends one character and changes nothing else.
pub assume_specification[ String::push ](s: &mut String, c: char)
    ensures
        final(s)@ == old(s)@.push(c),
;

/// The view of an optional string.
pub open spec fn text_model(s: Option<String>) -> Option<Seq<char>> {
    match s {
        Some(s) => Some(s@),
        None => None,
    }
}

/// The view of an optional string is its text, if there is one.
pub proof fn law_text_model(s: String)
    ensures
        text_model(Some(s)) == Some(s@),
        text_model(None) is None,
{
}

/// The characters of `s`, in order.
pub fn characters(s: &str) -> (chars: Vec<char>)
    ensures
        chars@ == s@,
{
    let mut chars: Vec<char> = Vec::new();
    for c in it: s.chars()
        invariant
            it.seq() == s@,
            chars@ == s@.take(it.index()),
    {
        chars.push(c);
    }
    chars
}

/// The text made of `chars[from..to]`.
pub fn text_between(chars: &Vec<char>, from: usize, to: usize) -> (s: String)
    requires
        from <= to <= chars.len(),
    ensures
        s@ == chars@.subrange(from as int, to as int),
{
    let mut s = String::new();
    for i in from..to
        invariant
            from <= to <= chars.len(),
            s@ == chars@.subrange(from as int, i as int),
    {
        s.push(chars[i]);
    }
    s
}

/// Whether two texts are the same.
pub fn same(a: &str, b: &str) -> (r: bool)
    ensures
        r == (a@ == b@),
{
    let first = characters(a);
    let second = characters(b);
    if first.len() != second.len() {
        return false;
    }
    for i in 0..first.len()
        invariant
            first@ == a@,
            second@ == b@,
            first@.len() == second@.len(),
            forall|j: int| 0 <= j < i ==> first@[j] == second@[j],
    {
        if first[i] != second[i] {
            return false;
        }
    }
    assert(a@ == b@);
    true
}

/// The two texts one behind the other.
pub fn concat2(a: &str, b: &str) -> (s: String)
    ensures
        s@ == a@ + b@,
{
    let mut s = a.to_owned();
    s.append(b);
    s
}

/// The four texts one behind the other.
pub fn concat4(a: &str, b: &str, c: &str, d: &str) -> (s: String)
    ensures
        s@ == a@ + b@ + c@ + d@,
{
    let mut s = concat2(a, b);
    s.append(c);
    s.append(d);
    s
}

/// The six texts one behind the other.
pub fn concat6(a: &str, b: &str, c: &str, d: &str, e: &str, f: &str) -> (s: String)
    ensures
        s@ == a@ + b@ + c@ + d@ + e@ + f@,
{
    let mut s = concat4(a, b, c, d);
    s.append(e);
    s.append(f);
    s
}

// ---------------------------------------------------------------------------------------------
// White space

/// The characters with the Unicode property `White_Space`.
pub open spec fn white_space(c: char) -> bool {
    let code = c as u32;
    ||| 0x9 <= code <= 0xd
    ||| code == 0x20
    ||| code == 0x85
    ||| code == 0xa0
    ||| code == 0x1680
    ||| 0x2000 <= code <= 0x200a
    ||| code == 0x2028
    ||| code == 0x2029
    ||| code == 0x202f
    ||| code == 0x205f
    ||| code == 0x3000
}

/// Whether `c` has the Unicode property `White_Space`.
pub fn is_white_space(c: char) -> (b: bool)
    ensures
        b == white_space(c),
{
    let code: u32 = c as u32;
    (0x9 <= code && code <= 0xd) || code == 0x20 || code == 0x85 || code == 0xa0 || code == 0x1680
        || (0x2000 <= code && code <= 0x200a) || code == 0x2028 || code == 0x2029 || code == 0x202f
        || code == 0x205f || code == 0x3000
}

/// `s` without its leading white space.
pub open spec fn trimmed_start(s: Seq<char>) -> Seq<char>
    decreases s.len(),
{
    if s.len() > 0 && white_space(s[0]) {
        trimmed_start(s.skip(1))
    } else {
        s
    }
}

/// `s` without its trailing white space.
pub open spec fn trimmed_end(s: Seq<char>) -> Seq<char>
    decreases s.len(),
{
    if s.len() > 0 && white_space(s.last()) {
        trimmed_end(s.drop_last())
    } else {
        s
    }
}

/// `s` without the white space around it.
pub open spec fn trimmed(s: Seq<char>) -> Seq<char> {
    trimmed_end(trimmed_start(s))
}

/// A copy of `s` without the white space around it.
pub fn trim(s: &str) -> (t: String)
    ensures
        t@ == trimmed(s@),
{
    let chars = characters(s);
    let mut start: usize = 0;
    assert(chars@.skip(0) == chars@);
    while start < chars.len() && is_white_space(chars[start])
        invariant
            start <= chars.len(),
            trimmed_start(chars@) == trimmed_start(chars@.skip(start as int)),
        decreases chars.len() - start,
    {
        assert(chars@.skip(start as int).skip(1) == chars@.skip(start + 1));
        start += 1;
    }
    let ghost kept = chars@.skip(start as int);
    assert(trimmed_start(chars@) == kept);
    let mut end: usize = chars.len();
    assert(chars@.subrange(start as int, end as int) == kept);
    while start < end && is_white_space(chars[end - 1])
        invariant
            start <= end <= chars.len(),
            trimmed_end(kept) == trimmed_end(chars@.subrange(start as int, end as int)),
        decreases end - start,
    {
        let ghost rest = chars@.subrange(start as int, end as int);
        assert(rest.drop_last() == chars@.subrange(start as int, end - 1));
        assert(rest.last() == chars@[end - 1]);
        end -= 1;
    }
    assert(end > start ==> chars@.subrange(start as int, end as int).last() == chars@[end - 1]);
    text_between(&chars, start, end)
}

/// A trimmed text neither starts nor ends with white space, and trimming it again changes nothing.
pub proof fn law_trimmed(s: Seq<char>)
    ensures
        trimmed(s).len() > 0 ==> !white_space(trimmed(s)[0]) && !white_space(trimmed(s).last()),
        trimmed(trimmed(s)) == trimmed(s),
{
    lemma_trimmed_start(s);
    lemma_trimmed_end(trimmed_start(s));
}

proof fn lemma_trimmed_start(s: Seq<char>)
    ensures
        trimmed_start(s).len() > 0 ==> !white_space(trimmed_start(s)[0]),
    decreases s.len(),
{
    if s.len() > 0 && white_space(s[0]) {
        lemma_trimmed_start(s.skip(1));
    }
}

proof fn lemma_trimmed_end(s: Seq<char>)
    ensures
        trimmed_end(s).len() > 0 ==> !white_space(trimmed_end(s).last()) && trimmed_end(s)[0]
            == s[0],
    decreases s.len(),
{
    if s.len() > 0 && white_space(s.last()) {
        lemma_trimmed_end(s.drop_last());
    }
}

proof fn lemma_trim_start_of(before: Seq<char>, rest: Seq<char>)
    requires
        forall|i: int| 0 <= i < before.len() ==> white_space(#[trigger] before[i]),
        rest.len() > 0 ==> !white_space(rest[0]),
    ensures
        trimmed_start(before + rest) == rest,
    decreases before.len(),
{
    let s = before + rest;
    if before.len() == 0 {
        assert(s == rest);
    } else {
        assert(s[0] == before[0]);
        assert(s.skip(1) == before.skip(1) + rest);
        lemma_trim_start_of(before.skip(1), rest);
    }
}

proof fn lemma_trim_end_of(rest: Seq<char>, after: Seq<char>)
    requires
        forall|i: int| 0 <= i < after.len() ==> white_space(#[trigger] after[i]),
        rest.len() > 0 ==> !white_space(rest.last()),
    ensures
        trimmed_end(rest + after) == rest,
    decreases after.len(),
{
    let s = rest + after;
    if after.len() == 0 {
        assert(s == rest);
    } else {
        assert(s.last() == after[after.len() - 1]);
        assert(s.drop_last() == rest + after.drop_last());
        lemma_trim_end_of(rest, after.drop_last());
    }
}

/// A text with white space around it is trimmed to that text, whole. One that neither starts nor
/// ends with white space is its own trimmed text, and white space alone is trimmed to nothing.
pub proof fn law_trim_keeps_the_text(before: Seq<char>, kept: Seq<char>, after: Seq<char>)
    requires
        forall|i: int| 0 <= i < before.len() ==> white_space(#[trigger] before[i]),
        forall|i: int| 0 <= i < after.len() ==> white_space(#[trigger] after[i]),
        kept.len() > 0 ==> !white_space(kept[0]) && !white_space(kept.last()),
    ensures
        trimmed(before + kept + after) == kept,
        trimmed(kept) == kept,
{
    let s = before + kept + after;
    if kept.len() > 0 {
        assert(s == before + (kept + after));
        lemma_trim_start_of(before, kept + after);
        lemma_trim_end_of(kept, after);
    } else {
        let white = before + after;
        assert forall|i: int| 0 <= i < white.len() implies white_space(#[trigger] white[i]) by {
            if i < before.len() {
                assert(white[i] == before[i]);
            } else {
                assert(white[i] == after[i - before.len()]);
            }
        }
        assert(s == white + Seq::<char>::empty());
        lemma_trim_start_of(white, Seq::empty());
        assert(trimmed_end(Seq::empty()) == Seq::<char>::empty());
        assert(kept == Seq::<char>::empty());
    }
    assert(Seq::<char>::empty() + kept == kept);
    assert(kept + Seq::<char>::empty() == kept);
    lemma_trim_start_of(Seq::empty(), kept);
    lemma_trim_end_of(kept, Seq::empty());
}

/// Trimming drops nothing but white space: every text is its trimmed text with white space before it
/// and behind it.
pub proof fn law_trim_drops_only_white_space(s: Seq<char>) -> (around: (Seq<char>, Seq<char>))
    ensures
        s == around.0 + trimmed(s) + around.1,
        forall|i: int| 0 <= i < around.0.len() ==> white_space(#[trigger] around.0[i]),
        forall|i: int| 0 <= i < around.1.len() ==> white_space(#[trigger] around.1[i]),
{
    let before = lemma_dropped_at_start(s);
    let after = lemma_dropped_at_end(trimmed_start(s));
    assert(s == before + trimmed(s) + after);
    (before, after)
}

proof fn lemma_dropped_at_start(s: Seq<char>) -> (before: Seq<char>)
    ensures
        s == before + trimmed_start(s),
        forall|i: int| 0 <= i < before.len() ==> white_space(#[trigger] before[i]),
    decreases s.len(),
{
    if s.len() > 0 && white_space(s[0]) {
        let rest = lemma_dropped_at_start(s.skip(1));
        let before = seq![s[0]] + rest;
        assert(s == before + trimmed_start(s)) by {
            assert(s == seq![s[0]] + s.skip(1));
        }
        assert forall|i: int| 0 <= i < before.len() implies white_space(#[trigger] before[i]) by {
            if i > 0 {
                assert(before[i] == rest[i - 1]);
            }
        }
        before
    } else {
        assert(s == Seq::<char>::empty() + s);
        Seq::empty()
    }
}

proof fn lemma_dropped_at_end(s: Seq<char>) -> (after: Seq<char>)
    ensures
        s == trimmed_end(s) + after,
        forall|i: int| 0 <= i < after.len() ==> white_space(#[trigger] after[i]),
    decreases s.len(),
{
    if s.len() > 0 && white_space(s.last()) {
        let rest = lemma_dropped_at_end(s.drop_last());
        let after = rest.push(s.last());
        assert(s == s.drop_last().push(s.last()));
        assert(s == trimmed_end(s) + after);
        after
    } else {
        assert(s == s + Seq::<char>::empty());
        Seq::empty()
    }
}

// ---------------------------------------------------------------------------------------------
// Splitting and joining

/// The pieces of `s` between the occurrences of `delimiter`: one more than there are occurrences.
pub open spec fn pieces(s: Seq<char>, delimiter: char) -> Seq<Seq<char>>
    decreases s.len(),
{
    if s.len() == 0 {
        seq![Seq::empty()]
    } else {
        let before = pieces(s.drop_last(), delimiter);
        if s.last() == delimiter {
            before.push(Seq::empty())
        } else {
            before.drop_last().push(before.last().push(s.last()))
        }
    }
}

/// The texts of `parts` with `separator` between each two neighbours.
pub open spec fn joined(parts: Seq<Seq<char>>, separator: char) -> Seq<char>
    decreases parts.len(),
{
    if parts.len() == 0 {
        Seq::empty()
    } else if parts.len() == 1 {
        parts[0]
    } else {
        joined(parts.drop_last(), separator).push(separator) + parts.last()
    }
}

/// The views of some strings.
pub open spec fn texts(strings: Seq<String>) -> Seq<Seq<char>> {
    strings.map_values(|s: String| s@)
}

/// There is always at least one piece.
pub proof fn lemma_pieces_len(s: Seq<char>, delimiter: char)
    ensures
        pieces(s, delimiter).len() >= 1,
    decreases s.len(),
{
    if s.len() > 0 {
        lemma_pieces_len(s.drop_last(), delimiter);
    }
}

/// The views of some strings are their texts, one for one.
pub proof fn law_texts(strings: Seq<String>)
    ensures
        texts(strings).len() == strings.len(),
        forall|i: int| 0 <= i < strings.len() ==> (#[trigger] texts(strings)[i]) == strings[i]@,
{
}

/// The pieces of `s` between the occurrences of `delimiter`.
pub fn split(s: &str, delimiter: char) -> (parts: Vec<String>)
    ensures
        texts(parts@) == pieces(s@, delimiter),
{
    let chars = characters(s);
    let mut parts: Vec<String> = Vec::new();
    let mut part = String::new();
    for i in 0..chars.len()
        invariant
            chars@ == s@,
            texts(parts@).push(part@) == pieces(s@.take(i as int), delimiter),
    {
        let c = chars[i];
        let ghost prefix = s@.take(i + 1);
        assert(prefix.drop_last() == s@.take(i as int));
        let ghost before = texts(parts@);
        if c == delimiter {
            parts.push(part);
            part = String::new();
            assert(texts(parts@) == pieces(s@.take(i as int), delimiter));
        } else {
            part.push(c);
        }
        assert(texts(parts@).push(part@) == pieces(prefix, delimiter));
    }
    assert(s@.take(s@.len() as int) == s@);
    let ghost before = texts(parts@).push(part@);
    parts.push(part);
    assert(texts(parts@) == before);
    parts
}

/// The texts of `parts[from..]` with `separator` between each two neighbours.
pub fn join_from(parts: &Vec<String>, from: usize, separator: char) -> (s: String)
    requires
        from <= parts.len(),
    ensures
        s@ == joined(texts(parts@).skip(from as int), separator),
{
    let mut s = String::new();
    for i in from..parts.len()
        invariant
            from <= i <= parts.len(),
            s@ == joined(texts(parts@).subrange(from as int, i as int), separator),
    {
        let ghost upto = texts(parts@).subrange(from as int, i + 1);
        assert(upto.drop_last() == texts(parts@).subrange(from as int, i as int));
        if i > from {
            s.push(separator);
        }
        s.append(parts[i].as_str());
        assert(s@ == joined(upto, separator));
    }
    assert(texts(parts@).skip(from as int) == texts(parts@).subrange(from as int, parts.len() as int));
    s
}

/// Texts are joined as they are, with one separator between each two: what joins some texts and
/// others is what joins the ones, the separator, and what joins the others.
pub proof fn law_joins_add_up(first: Seq<Seq<char>>, second: Seq<Seq<char>>, separator: char)
    requires
        first.len() > 0,
        second.len() > 0,
    ensures
        joined(first + second, separator) == joined(first, separator) + seq![separator] + joined(
            second,
            separator,
        ),
        joined(Seq::empty(), separator) == Seq::<char>::empty(),
        second.len() == 1 ==> joined(second, separator) == second[0],
    decreases second.len(),
{
    let all = first + second;
    assert(all.last() == second.last());
    if second.len() == 1 {
        assert(all.drop_last() == first);
    } else {
        assert(all.drop_last() == first + second.drop_last());
        law_joins_add_up(first, second.drop_last(), separator);
    }
    assert(joined(all, separator) == joined(first, separator) + seq![separator] + joined(
        second,
        separator,
    ));
}

/// Splitting loses nothing: joining the pieces of a text with the delimiter gives the text back.
pub proof fn law_join_of_pieces(s: Seq<char>, delimiter: char)
    ensures
        joined(pieces(s, delimiter), delimiter) == s,
    decreases s.len(),
{
    if s.len() > 0 {
        let before = pieces(s.drop_last(), delimiter);
        lemma_pieces_len(s.drop_last(), delimiter);
        law_join_of_pieces(s.drop_last(), delimiter);
        let after = pieces(s, delimiter);
        if s.last() == delimiter {
            assert(after.drop_last() == before);
            assert(joined(after, delimiter) == s);
        } else {
            assert(after.drop_last() == before.drop_last());
            assert(joined(after, delimiter) == joined(before, delimiter).push(s.last()));
        }
        assert(s.drop_last().push(s.last()) == s);
    }
}

/// No piece holds the delimiter.
pub proof fn law_pieces_hold_no_delimiter(s: Seq<char>, delimiter: char)
    ensures
        forall|i: int|
            0 <= i < pieces(s, delimiter).len() ==> !(#[trigger] pieces(s, delimiter)[i]).contains(
                delimiter,
            ),
    decreases s.len(),
{
    if s.len() > 0 {
        let before = pieces(s.drop_last(), delimiter);
        lemma_pieces_len(s.drop_last(), delimiter);
        law_pieces_hold_no_delimiter(s.drop_last(), delimiter);
        let after = pieces(s, delimiter);
        assert forall|i: int| 0 <= i < after.len() implies !(#[trigger] after[i]).contains(
            delimiter,
        ) by {
            if s.last() != delimiter && i == after.len() - 1 {
                assert(!before.last().contains(delimiter));
                assert(after[i] == before.last().push(s.last()));
                if after[i].contains(delimiter) {
                    let k = choose|k: int| 0 <= k < after[i].len() && after[i][k] == delimiter;
                    assert(before.last()[k] == delimiter);
                }
            } else if i < before.len() {
                assert(after[i] == before[i]);
            }
        }
    }
}

/// Joining loses nothing either: texts that do not hold the separator are the pieces of the text
/// that joins them.
pub proof fn law_pieces_of_join(parts: Seq<Seq<char>>, separator: char)
    requires
        parts.len() > 0,
        forall|i: int| 0 <= i < parts.len() ==> !(#[trigger] parts[i]).contains(separator),
    ensures
        pieces(joined(parts, separator), separator) == parts,
    decreases parts.len(),
{
    if parts.len() == 1 {
        lemma_pieces_grow(Seq::empty(), parts[0], separator);
        assert(Seq::empty() + parts[0] == parts[0]);
        assert(pieces(parts[0], separator) == parts) by {
            assert(pieces(Seq::empty(), separator) == seq![Seq::<char>::empty()]);
            assert(Seq::empty() + parts[0] == parts[0]);
        }
    } else {
        let front = parts.drop_last();
        assert forall|i: int| 0 <= i < front.len() implies !(#[trigger] front[i]).contains(
            separator,
        ) by {
            assert(front[i] == parts[i]);
        }
        law_pieces_of_join(front, separator);
        let head = joined(front, separator).push(separator);
        assert(head.drop_last() == joined(front, separator));
        assert(pieces(head, separator) == front.push(Seq::empty()));
        assert(!parts.last().contains(separator));
        lemma_pieces_grow(head, parts.last(), separator);
        assert(Seq::empty() + parts.last() == parts.last());
        assert(pieces(head, separator).drop_last() == front);
    }
}

/// Text without the delimiter lengthens the last piece.
proof fn lemma_pieces_grow(s: Seq<char>, more: Seq<char>, delimiter: char)
    requires
        !more.contains(delimiter),
    ensures
        pieces(s + more, delimiter) == pieces(s, delimiter).drop_last().push(
            pieces(s, delimiter).last() + more,
        ),
    decreases more.len(),
{
    lemma_pieces_len(s, delimiter);
    let before = pieces(s, delimiter);
    if more.len() == 0 {
        assert(s + more == s);
        assert(before.last() + more == before.last());
        assert(before.drop_last().push(before.last()) == before);
    } else {
        let less = more.drop_last();
        assert(!less.contains(delimiter)) by {
            if less.contains(delimiter) {
                let k = choose|k: int| 0 <= k < less.len() && less[k] == delimiter;
                assert(more[k] == delimiter);
            }
        }
        assert(more[more.len() - 1] != delimiter) by {
            assert(more.contains(more[more.len() - 1]));
        }
        lemma_pieces_grow(s, less, delimiter);
        assert((s + more).drop_last() == s + less);
        assert((s + more).last() == more.last());
        assert((before.last() + less).push(more.last()) == before.last() + more);
        assert(pieces(s + less, delimiter).drop_last() == before.drop_last());
    }
}

// ---------------------------------------------------------------------------------------------
// The first occurrence of a character

/// Where `c` stands first in `s`, or the length of `s` if it does not occur.
pub open spec fn index_of(s: Seq<char>, c: char) -> int
    decreases s.len(),
{
    if s.len() == 0 || s[0] == c {
        0
    } else {
        1 + index_of(s.skip(1), c)
    }
}

/// The index that `index_of` names is the one before which `c` does not occur, and at which it
/// does, unless that is the end.
pub proof fn lemma_index_of(s: Seq<char>, c: char)
    ensures
        0 <= index_of(s, c) <= s.len(),
        index_of(s, c) < s.len() ==> s[index_of(s, c)] == c,
        forall|j: int| 0 <= j < index_of(s, c) ==> s[j] != c,
    decreases s.len(),
{
    if s.len() > 0 && s[0] != c {
        let rest = s.skip(1);
        lemma_index_of(rest, c);
        assert forall|j: int| 0 <= j < index_of(s, c) implies s[j] != c by {
            if j > 0 {
                assert(rest[j - 1] == s[j]);
            }
        }
    }
}

/// Where `c` stands first in `chars`, or the length of `chars` if it does not occur.
pub fn find(chars: &Vec<char>, c: char) -> (i: usize)
    ensures
        i == index_of(chars@, c),
        i <= chars.len(),
{
    let mut i: usize = 0;
    proof {
        lemma_index_of(chars@, c);
    }
    while i < chars.len() && chars[i] != c
        invariant
            i <= chars.len(),
            i <= index_of(chars@, c) <= chars.len(),
            index_of(chars@, c) < chars.len() ==> chars@[index_of(chars@, c)] == c,
            forall|j: int| 0 <= j < index_of(chars@, c) ==> chars@[j] != c,
        decreases chars.len() - i,
    {
        i += 1;
    }
    i
}

// ---------------------------------------------------------------------------------------------
// Lines

/// A line without the carriage return before its line feed.
pub open spec fn without_return(line: Seq<char>) -> Seq<char> {
    if line.len() > 0 && line.last() == '\r' {
        line.drop_last()
    } else {
        line
    }
}

/// The lines of `s`. A line ends at a line feed, which may follow a carriage return; neither
/// belongs to the line. What follows the last line feed is a line of its own unless it is empty,
/// and is taken as it stands.
pub open spec fn lines_of(s: Seq<char>) -> Seq<Seq<char>> {
    let parts = pieces(s, '\n');
    let ended = parts.drop_last().map_values(|line: Seq<char>| without_return(line));
    if parts.last().len() > 0 {
        ended.push(parts.last())
    } else {
        ended
    }
}

/// A copy of `line` without the carriage return at its end, if it has one.
fn strip_return(line: &str) -> (s: String)
    ensures
        s@ == without_return(line@),
{
    let chars = characters(line);
    if chars.len() > 0 && chars[chars.len() - 1] == '\r' {
        text_between(&chars, 0, chars.len() - 1)
    } else {
        text_between(&chars, 0, chars.len())
    }
}

/// The lines of `s`.
pub fn lines(s: &str) -> (found: Vec<String>)
    ensures
        texts(found@) == lines_of(s@),
{
    let parts = split(s, '\n');
    proof {
        lemma_pieces_len(s@, '\n');
        assert(texts(parts@).len() == parts@.len());
    }
    let last: usize = parts.len() - 1;
    let mut found: Vec<String> = Vec::new();
    for i in 0..last
        invariant
            parts@.len() == last + 1,
            texts(found@) == texts(parts@).take(i as int).map_values(
                |line: Seq<char>| without_return(line),
            ),
    {
        let line = strip_return(parts[i].as_str());
        let ghost before = texts(found@);
        found.push(line);
        assert(texts(found@) == before.push(line@));
        assert(texts(parts@).take(i + 1) == texts(parts@).take(i as int).push(parts@[i as int]@));
    }
    assert(texts(parts@).take(last as int) == texts(parts@).drop_last());
    if !parts[last].as_str().is_empty() {
        let ghost before = texts(found@);
        found.push(parts[last].clone());
        assert(texts(found@) == before.push(parts@[last as int]@));
    }
    found
}

/// Whether a text can be one line: it holds no line feed, and does not end in a carriage return.
pub open spec fn is_line(s: Seq<char>) -> bool {
    !s.contains('\n') && (s.len() > 0 ==> s.last() != '\r')
}

/// Lines that are written with a line feed behind each are read back as they are.
pub proof fn law_lines_of_join(lines: Seq<Seq<char>>)
    requires
        lines.len() > 0,
        forall|i: int| 0 <= i < lines.len() ==> is_line(#[trigger] lines[i]),
    ensures
        lines_of(joined(lines, '\n').push('\n')) == lines,
{
    let written = joined(lines, '\n').push('\n');
    law_pieces_of_join(lines, '\n');
    assert(written.drop_last() == joined(lines, '\n'));
    let parts = pieces(written, '\n');
    assert(parts == lines.push(Seq::empty()));
    assert(parts.drop_last() == lines);
    assert(lines.map_values(|line: Seq<char>| without_return(line)) == lines);
}

/// The pieces of two texts with the delimiter between them are those of the one and those of the
/// other.
proof fn lemma_pieces_add_up(s: Seq<char>, more: Seq<char>, delimiter: char)
    ensures
        pieces(s.push(delimiter) + more, delimiter) == pieces(s, delimiter) + pieces(
            more,
            delimiter,
        ),
    decreases more.len(),
{
    let head = s.push(delimiter);
    let whole = head + more;
    if more.len() == 0 {
        assert(whole == head);
        assert(head.drop_last() == s);
    } else {
        let less = more.drop_last();
        lemma_pieces_add_up(s, less, delimiter);
        lemma_pieces_len(less, delimiter);
        assert(whole.drop_last() == head + less);
        assert(whole.last() == more.last());
    }
}

/// A text without a line feed is one line with a line feed behind it, and with a carriage return
/// before the line feed, which does not belong to the line. Without a line feed behind it it is one
/// line as it stands, unless it is empty.
pub proof fn law_one_line(line: Seq<char>)
    requires
        !line.contains('\n'),
    ensures
        lines_of(line.push('\r').push('\n')) == seq![line],
        line.len() == 0 || line.last() != '\r' ==> lines_of(line.push('\n')) == seq![line],
        line.len() > 0 ==> lines_of(line) == seq![line],
        lines_of(Seq::empty()) == Seq::<Seq<char>>::empty(),
{
    lemma_one_piece(line);
    let returned = line.push('\r');
    assert(!returned.contains('\n')) by {
        if returned.contains('\n') {
            let k = choose|k: int| 0 <= k < returned.len() && returned[k] == '\n';
            assert(line[k] == '\n');
        }
    }
    lemma_one_piece(returned);
    assert(returned.drop_last() == line);
    assert(pieces(Seq::empty(), '\n') == seq![Seq::<char>::empty()]);
    assert(lines_of(returned.push('\n')) == seq![line]);
    assert(line.len() > 0 ==> lines_of(line) == seq![line]);
}

proof fn lemma_one_piece(line: Seq<char>)
    requires
        !line.contains('\n'),
    ensures
        pieces(line, '\n') == seq![line],
        lines_of(line.push('\n')) == seq![without_return(line)],
{
    law_pieces_of_join(seq![line], '\n');
    assert(joined(seq![line], '\n') == line);
    assert(line.push('\n').drop_last() == line);
    assert(pieces(line.push('\n'), '\n').drop_last() == seq![line]);
}

/// What follows a line feed starts lines of its own.
pub proof fn law_lines_add_up(s: Seq<char>, more: Seq<char>)
    requires
        s.len() > 0,
        s.last() == '\n',
    ensures
        lines_of(s + more) == lines_of(s) + lines_of(more),
{
    let head = s.drop_last();
    assert(head.push('\n') == s);
    lemma_pieces_add_up(head, more, '\n');
    lemma_pieces_len(more, '\n');
    let strip = |line: Seq<char>| without_return(line);
    let parts = pieces(s + more, '\n');
    assert(parts.drop_last() == pieces(head, '\n') + pieces(more, '\n').drop_last());
    assert(parts.drop_last().map_values(strip) == pieces(head, '\n').map_values(strip) + pieces(
        more,
        '\n',
    ).drop_last().map_values(strip));
    assert(pieces(s, '\n').drop_last() == pieces(head, '\n'));
    assert(lines_of(s) == pieces(head, '\n').map_values(strip));
}

/// A line feed behind the last line makes no difference to the lines, unless the text is empty or
/// ends in a line feed or a carriage return.
pub proof fn law_final_line_feed_adds_no_line(s: Seq<char>)
    requires
        s.len() > 0,
        s.last() != '\n',
        s.last() != '\r',
    ensures
        lines_of(s.push('\n')) == lines_of(s),
{
    lemma_pieces_len(s.drop_last(), '\n');
    let parts = pieces(s, '\n');
    let strip = |line: Seq<char>| without_return(line);
    assert(parts.last().last() == s.last());
    assert(without_return(parts.last()) == parts.last());
    assert(s.push('\n').drop_last() == s);
    assert(pieces(s.push('\n'), '\n').drop_last() == parts);
    assert(parts.map_values(strip) == parts.drop_last().map_values(strip).push(parts.last()));
}

/// The lines of a text that ends in an empty line: there are two or more, and the last is empty.
pub proof fn lemma_empty_last_line(s: Seq<char>)
    ensures
        lines_of(s.push('\n').push('\n')).len() >= 2,
        lines_of(s.push('\n').push('\n')).last().len() == 0,
        lines_of(s.push('\n').push('\r').push('\n')).len() >= 2,
        lines_of(s.push('\n').push('\r').push('\n')).last().len() == 0,
{
    let head = s.push('\n');
    lemma_pieces_len(s, '\n');
    assert(head.drop_last() == s);
    assert(head.push('\n').drop_last() == head);
    let returned = head.push('\r');
    assert(returned.drop_last() == head);
    assert(returned.push('\n').drop_last() == returned);
    assert(pieces(head, '\n').last() == Seq::<char>::empty());
    assert(pieces(returned, '\n').last() == Seq::<char>::empty().push('\r'));
    assert(pieces(head.push('\n'), '\n').drop_last() == pieces(head, '\n'));
    assert(pieces(returned.push('\n'), '\n').drop_last() == pieces(returned, '\n'));
}

// ---------------------------------------------------------------------------------------------
// UTF-8

/// Bytes that are UTF-8 decode one part after the other.
pub proof fn lemma_decode_concat(a: Seq<u8>, b: Seq<u8>)
    requires
        vstd::utf8::valid_utf8(a),
        vstd::utf8::valid_utf8(b),
    ensures
        vstd::utf8::valid_utf8(a + b),
        vstd::utf8::decode_utf8(a + b) == vstd::utf8::decode_utf8(a) + vstd::utf8::decode_utf8(b),
    decreases a.len(),
{
    vstd::utf8::valid_utf8_concat(a, b);
    if a.len() == 0 {
        assert(a + b == b);
    } else {
        let rest = vstd::utf8::pop_first_scalar(a);
        assert(vstd::utf8::pop_first_scalar(a + b) == rest + b);
        lemma_decode_concat(rest, b);
    }
}

/// A byte of the ASCII range decodes to its character.
proof fn lemma_decode_ascii(b: u8)
    requires
        b < 128,
    ensures
        vstd::utf8::valid_utf8(seq![b]),
        vstd::utf8::decode_utf8(seq![b]) == seq![b as char],
{
    reveal_with_fuel(vstd::utf8::valid_utf8, 2);
    reveal_with_fuel(vstd::utf8::decode_utf8, 2);
    assert(b & 0x7f == b) by (bit_vector)
        requires
            b < 128,
    ;
    assert(vstd::utf8::pop_first_scalar(seq![b]) == Seq::<u8>::empty());
}

/// A byte of the ASCII range behind others leaves them UTF-8 or not, and decodes to its character.
pub proof fn lemma_decode_push(bytes: Seq<u8>, b: u8)
    requires
        b < 128,
    ensures
        vstd::utf8::valid_utf8(bytes.push(b)) <==> vstd::utf8::valid_utf8(bytes),
        vstd::utf8::valid_utf8(bytes) ==> vstd::utf8::decode_utf8(bytes.push(b))
            == vstd::utf8::decode_utf8(bytes).push(b as char),
{
    let longer = bytes.push(b);
    assert(longer == bytes + seq![b]);
    lemma_decode_ascii(b);
    if vstd::utf8::valid_utf8(bytes) {
        lemma_decode_concat(bytes, seq![b]);
    } else if vstd::utf8::valid_utf8(longer) {
        vstd::utf8::is_char_boundary_iff_not_is_continuation_byte(longer, bytes.len() as int);
        vstd::utf8::valid_utf8_split(longer, bytes.len() as int);
        assert(longer.subrange(0, bytes.len() as int) == bytes);
    }
}

/// Bytes with another last byte than `b`, one of the ASCII range, make a text with another last
/// character than that of `b`.
pub proof fn lemma_last_byte(bytes: Seq<u8>, b: u8)
    requires
        b < 128,
        bytes.len() > 0,
        vstd::utf8::valid_utf8(bytes),
        bytes.last() != b,
    ensures
        vstd::utf8::decode_utf8(bytes).len() > 0,
        vstd::utf8::decode_utf8(bytes).last() != b as char,
{
    let s = vstd::utf8::decode_utf8(bytes);
    vstd::utf8::decode_utf8_encode_utf8(bytes);
    if s.last() == b as char {
        let front = s.drop_last();
        let written = vstd::utf8::encode_utf8(front);
        vstd::utf8::encode_utf8_valid_utf8(front);
        vstd::utf8::encode_utf8_decode_utf8(front);
        lemma_decode_push(written, b);
        assert(front.push(b as char) == s);
        vstd::utf8::decode_utf8_encode_utf8(written.push(b));
        assert(bytes == written.push(b));
    }
}

// ---------------------------------------------------------------------------------------------
// Decimal numbers

/// Whether `c` is one of the ten ASCII digits.
pub open spec fn digit(c: char) -> bool {
    '0' <= c && c <= '9'
}

/// The number that a text of digits writes in base ten.
pub open spec fn digits_value(s: Seq<char>) -> nat
    decreases s.len(),
{
    if s.len() == 0 {
        0
    } else {
        10 * digits_value(s.drop_last()) + (s.last() as nat - '0' as nat) as nat
    }
}

/// Whether `s` is made of one or more digits.
pub open spec fn all_digits(s: Seq<char>) -> bool {
    s.len() > 0 && forall|i: int| 0 <= i < s.len() ==> digit(#[trigger] s[i])
}

/// `s` without a plus sign before it.
pub open spec fn without_plus(s: Seq<char>) -> Seq<char> {
    if s.len() > 0 && s[0] == '+' {
        s.skip(1)
    } else {
        s
    }
}

/// The unsigned number that `s` writes: an optional plus sign, then one or more digits.
pub open spec fn number(s: Seq<char>) -> Option<nat> {
    if all_digits(without_plus(s)) {
        Some(digits_value(without_plus(s)))
    } else {
        None
    }
}

/// A text writes a number if and only if it is made of one or more digits, with at most one plus sign
/// before them, which makes no difference. One digit writes its own value, and one more digit behind
/// a number makes it ten times as much and that digit.
pub proof fn law_number(s: Seq<char>, c: char)
    ensures
        s.len() == 0 || s[0] != '+' ==> (number(s) is Some <==> s.len() > 0 && forall|i: int|
            0 <= i < s.len() ==> '0' <= #[trigger] s[i] && s[i] <= '9'),
        s.len() > 0 && s[0] == '+' ==> number(seq!['+'] + s) is None,
        '0' <= c && c <= '9' ==> number(seq![c]) == Some((c as nat - '0' as nat) as nat),
        number(s) is Some && '0' <= c && c <= '9' ==> number(s.push(c)) == Some(
            (10 * number(s)->0 + (c as nat - '0' as nat)) as nat,
        ),
        s.len() == 0 || s[0] != '+' ==> number(seq!['+'] + s) == number(s),
{
    let digits = without_plus(s);
    let longer = digits.push(c);
    let one = seq![c];
    assert(one.drop_last() == Seq::<char>::empty());
    assert(digits_value(Seq::empty()) == 0);
    if '0' <= c && c <= '9' {
        assert(all_digits(one));
        assert(number(one) == Some((c as nat - '0' as nat) as nat));
    }
    if number(s) is Some {
        assert(without_plus(s.push(c)) == longer);
        assert(longer.drop_last() == digits);
        if '0' <= c && c <= '9' {
            assert forall|i: int| 0 <= i < longer.len() implies digit(#[trigger] longer[i]) by {
                if i < digits.len() {
                    assert(longer[i] == digits[i]);
                    assert(digit(digits[i]));
                }
            }
        }
    }
    assert((seq!['+'] + s).skip(1) == s);
    if all_digits(s) {
        assert forall|i: int| 0 <= i < s.len() implies '0' <= #[trigger] s[i] && s[i] <= '9' by {
            assert(digit(s[i]));
        }
    }
    if s.len() > 0 && s[0] == '+' {
        assert(!digit(s[0]));
    }
}

/// The error of the standard library's integer parsers.
#[verifier::external_type_specification]
#[verifier::external_body]
pub struct ExParseIntError(core::num::ParseIntError);

/// `str::parse::<usize>` reads an optional plus sign and one or more decimal digits, and fails on
/// any other text and on a number that a `usize` cannot hold.
#[verifier::external_body]
pub(crate) fn parse_usize(s: &str) -> (r: Result<usize, core::num::ParseIntError>)
    ensures
        r matches Ok(n) ==> number(s@) == Some(n as nat),
        r is Err ==> (number(s@) matches Some(n) ==> n > usize::MAX),
{
    s.parse::<usize>()
}

/// `str::parse::<u16>` reads an optional plus sign and one or more decimal digits, and fails on
/// any other text and on a number that a `u16` cannot hold.
#[verifier::external_body]
pub(crate) fn parse_u16(s: &str) -> (r: Result<u16, core::num::ParseIntError>)
    ensures
        r matches Ok(n) ==> number(s@) == Some(n as nat),
        r is Err ==> (number(s@) matches Some(n) ==> n > u16::MAX),
{
    s.parse::<u16>()
}

/// The error of `String::from_utf8`.
#[verifier::external_type_specification]
#[verifier::external_body]
pub struct ExFromUtf8Error(std::string::FromUtf8Error);

/// `String::from_utf8` accepts the bytes that are UTF-8, and the text that it makes of them is the
/// one that they encode.
#[verifier::external_body]
pub(crate) fn from_utf8(bytes: Vec<u8>) -> (r: Result<String, std::string::FromUtf8Error>)
    ensures
        r is Ok <==> vstd::utf8::valid_utf8(bytes@),
        r matches Ok(s) ==> s@ == vstd::utf8::decode_utf8(bytes@),
{
    String::from_utf8(bytes)
}

/// The decimal digits of `n`, without leading zeros.
pub open spec fn digits_of(n: nat) -> Seq<char>
    decreases n,
{
    let last = ('0' as nat + n % 10) as char;
    if n < 10 {
        seq![last]
    } else {
        digits_of(n / 10).push(last)
    }
}

/// The decimal form of `n`: its digits, after a minus sign where it is negative.
pub open spec fn decimal(n: int) -> Seq<char> {
    if n < 0 {
        seq!['-'] + digits_of((-n) as nat)
    } else {
        digits_of(n as nat)
    }
}

/// Appends the decimal digits of `n`.
fn append_digits(s: &mut String, n: u32)
    ensures
        final(s)@ == old(s)@ + digits_of(n as nat),
    decreases n,
{
    if n >= 10 {
        append_digits(s, n / 10);
    }
    let last: u8 = 48 + (n % 10) as u8;
    s.push(last as char);
}

/// The decimal form of `n`.
pub fn decimal_of(n: i32) -> (s: String)
    ensures
        s@ == decimal(n as int),
{
    let mut s = String::new();
    let wide: i64 = n as i64;
    if wide < 0 {
        s.push('-');
        append_digits(&mut s, (-wide) as u32);
    } else {
        append_digits(&mut s, wide as u32);
    }
    s
}

proof fn lemma_digits_of(n: nat)
    ensures
        all_digits(digits_of(n)),
        digits_value(digits_of(n)) == n,
    decreases n,
{
    let s = digits_of(n);
    if n < 10 {
        assert(s.drop_last() == Seq::<char>::empty());
        assert(digits_value(s.drop_last()) == 0);
    } else {
        lemma_digits_of(n / 10);
        assert(s.drop_last() == digits_of(n / 10));
        assert forall|i: int| 0 <= i < s.len() implies digit(#[trigger] s[i]) by {
            if i < s.len() - 1 {
                assert(s[i] == digits_of(n / 10)[i]);
            }
        }
    }
}

/// Reading the decimal form of a natural number gives the number back.
pub proof fn lemma_number_of_decimal(n: nat)
    ensures
        number(decimal(n as int)) == Some(n),
{
    lemma_digits_of(n);
    assert(digit(digits_of(n)[0]));
}

/// The decimal form of a number is read as that number, has no zero before other digits, and has a
/// minus sign before it where the number is negative.
pub proof fn law_decimal(n: nat)
    ensures
        number(decimal(n as int)) == Some(n),
        decimal(n as int).len() > 0,
        '0' <= decimal(n as int)[0] && decimal(n as int)[0] <= '9',
        decimal(n as int)[0] == '0' ==> n == 0 && decimal(n as int).len() == 1,
        n > 0 ==> decimal(-n) == seq!['-'] + decimal(n as int),
    decreases n,
{
    lemma_number_of_decimal(n);
    lemma_digits_of(n);
    assert(digit(digits_of(n)[0]));
    if n >= 10 {
        law_decimal(n / 10);
        assert(digits_of(n)[0] == digits_of(n / 10)[0]);
    }
}

/// The decimal form of a natural number can be one line.
pub proof fn lemma_decimal_is_line(n: nat)
    ensures
        is_line(decimal(n as int)),
{
    lemma_digits_of(n);
    let s = digits_of(n);
    assert(digit(s[s.len() - 1]));
    if s.contains('\n') {
        let k = choose|k: int| 0 <= k < s.len() && s[k] == '\n';
        assert(digit(s[k]));
    }
}

} // verus!
