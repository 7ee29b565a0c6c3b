//! Character-level helpers on strings: conversion between strings and
//! character vectors, substring replacement, splitting and ordering.

use vstd::prelude::*;
use vstd::string::*;

verus! {

/// `String::push` appends exactly the given character to the end of the string.
pub assume_specification[ String::push ](s: &mut String, c: char)
    ensures
        final(s)@ == old(s)@.push(c),
;

/// The characters of `s`, in order.
pub fn chars_of(s: &str) -> (v: Vec<char>)
    ensures
        v@ == s@,
{
    let mut v: Vec<char> = Vec::new();
    for c in it: s.chars()
        invariant
            v@ == it.seq().take(it.index()),
            it.seq() == s@,
    {
        v.push(c);
    }
    v
}

/// The string made of the characters of `v`, in order.
pub fn string_of(v: &Vec<char>) -> (s: String)
    ensures
        s@ == v@,
{
    let mut s = String::new();
    let mut i: usize = 0;
    while i < v.len()
        invariant
            i <= v.len(),
            s@ == v@.take(i as int),
        decreases v.len() - i,
    {
        s.push(v[i]);
        i = i + 1;
    }
    s
}

/// The views of a list of strings.
pub open spec fn views(items: Seq<String>) -> Seq<Seq<char>> {
    items.map_values(|s: String| s@)
}

/// The view of an optional string.
pub open spec fn opt_view(o: Option<String>) -> Option<Seq<char>> {
    match o {
        Some(s) => Some(s@),
        None => None,
    }
}

/// A copy of an optional string.
pub fn copy_opt(o: &Option<String>) -> (copy: Option<String>)
    ensures
        opt_view(copy) == opt_view(*o),
{
    match o {
        Some(s) => Some(s.clone()),
        None => None,
    }
}

/// Whether two optional strings hold the same.
pub fn same_opt(a: &Option<String>, b: &Option<String>) -> (same: bool)
    ensures
        same == (opt_view(*a) == opt_view(*b)),
{
    match a {
        Some(x) => match b {
            Some(y) => *x == *y,
            None => false,
        },
        None => b.is_none(),
    }
}

/// `text` with every occurrence of `pat` replaced by `with`. Occurrences are
/// found from the left and do not overlap. An empty pattern occurs before
/// every character and once more at the end.
pub open spec fn replaced(text: Seq<char>, pat: Seq<char>, with: Seq<char>) -> Seq<char>
    decreases text.len(),
{
    if pat.len() == 0 {
        if text.len() == 0 {
            with
        } else {
            with + seq![text[0]] + replaced(text.drop_first(), pat, with)
        }
    } else if text.len() < pat.len() {
        text
    } else if text.subrange(0, pat.len() as int) == pat {
        with + replaced(text.subrange(pat.len() as int, text.len() as int), pat, with)
    } else {
        seq![text[0]] + replaced(text.drop_first(), pat, with)
    }
}

/// Whether `pat` stands in `text` at position `at`.
fn occurs_at(text: &Vec<char>, pat: &Vec<char>, at: usize) -> (found: bool)
    requires
        at + pat.len() <= text.len(),
    ensures
        found == (text@.subrange(at as int, at + pat.len()) == pat@),
{
    let mut k: usize = 0;
    while k < pat.len()
        invariant
            k <= pat.len(),
            at + pat.len() <= text.len(),
            text@.subrange(at as int, at + k) == pat@.take(k as int),
        decreases pat.len() - k,
    {
        if text[at + k] != pat[k] {
            assert(text@.subrange(at as int, at + pat.len())[k as int] != pat@[k as int]);
            return false;
        }
        assert(text@.subrange(at as int, at + k + 1) == text@.subrange(at as int, at + k).push(
            text@[at + k],
        ));
        assert(pat@.take(k + 1) == pat@.take(k as int).push(pat@[k as int]));
        k = k + 1;
    }
    assert(pat@.take(pat.len() as int) == pat@);
    true
}

/// Appends the characters of `extra` to `out`.
fn push_all(out: &mut Vec<char>, extra: &Vec<char>)
    ensures
        final(out)@ == old(out)@ + extra@,
{
    let mut k: usize = 0;
    while k < extra.len()
        invariant
            k <= extra.len(),
            out@ == old(out)@ + extra@.take(k as int),
        decreases extra.len() - k,
    {
        out.push(extra[k]);
        assert(extra@.take(k + 1) == extra@.take(k as int).push(extra@[k as int]));
        k = k + 1;
    }
    assert(extra@.take(extra.len() as int) == extra@);
}

/// Replaces every occurrence of `pat` in `text` by `with`.
pub fn replace_chars(text: &Vec<char>, pat: &Vec<char>, with: &Vec<char>) -> (out: Vec<char>)
    ensures
        out@ == replaced(text@, pat@, with@),
{
    let n = text.len();
    let m = pat.len();
    let mut out: Vec<char> = Vec::new();
    let mut i: usize = 0;
    assert(text@.subrange(0, n as int) == text@);
    while i < n
        invariant
            i <= n,
            n == text.len(),
            m == pat.len(),
            replaced(text@, pat@, with@) == out@ + replaced(
                text@.subrange(i as int, n as int),
                pat@,
                with@,
            ),
        decreases n - i,
    {
        let ghost rest = text@.subrange(i as int, n as int);
        if m == 0 {
            push_all(&mut out, with);
            out.push(text[i]);
            assert(rest.drop_first() == text@.subrange(i + 1, n as int));
            i = i + 1;
        } else if n - i < m {
            let ghost before = out@;
            while i < n
                invariant
                    i <= n,
                    n == text.len(),
                    out@ + text@.subrange(i as int, n as int) == before + rest,
                decreases n - i,
            {
                out.push(text[i]);
                assert(text@.subrange(i as int, n as int) == seq![text@[i as int]]
                    + text@.subrange(i + 1, n as int));
                i = i + 1;
            }
            assert(text@.subrange(n as int, n as int) == Seq::<char>::empty());
            assert(replaced(Seq::<char>::empty(), pat@, with@) == Seq::<char>::empty());
            assert(out@ == before + rest);
        } else if occurs_at(text, pat, i) {
            assert(rest.subrange(0, m as int) == text@.subrange(i as int, i + m));
            assert(rest.subrange(m as int, rest.len() as int) == text@.subrange(i + m, n as int));
            push_all(&mut out, with);
            i = i + m;
        } else {
            assert(rest.subrange(0, m as int) == text@.subrange(i as int, i + m));
            assert(rest.drop_first() == text@.subrange(i + 1, n as int));
            out.push(text[i]);
            i = i + 1;
        }
    }
    assert(text@.subrange(n as int, n as int) == Seq::<char>::empty());
    if m == 0 {
        push_all(&mut out, with);
    }
    out
}

/// Replaces every occurrence of `pattern` in `text` by `with`.
pub fn replace(text: &str, pattern: &str, with: &str) -> (out: String)
    ensures
        out@ == replaced(text@, pattern@, with@),
{
    let t = chars_of(text);
    let p = chars_of(pattern);
    let w = chars_of(with);
    let r = replace_chars(&t, &p, &w);
    string_of(&r)
}

/// The pieces of `text` that lie between occurrences of `sep`. There is one
/// piece more than there are separators, so the result is never empty; pieces
/// may be empty.
pub open spec fn split_on(text: Seq<char>, sep: char) -> Seq<Seq<char>>
    decreases text.len(),
{
    if text.len() == 0 {
        seq![Seq::<char>::empty()]
    } else {
        let init = split_on(text.drop_last(), sep);
        if text.last() == sep {
            init.push(Seq::<char>::empty())
        } else {
            init.update(init.len() - 1, init.last().push(text.last()))
        }
    }
}

/// `split_on` never yields an empty list.
pub proof fn lemma_split_nonempty(text: Seq<char>, sep: char)
    ensures
        split_on(text, sep).len() >= 1,
    decreases text.len(),
{
    if text.len() > 0 {
        lemma_split_nonempty(text.drop_last(), sep);
    }
}

/// Splits `text` at every occurrence of `sep`.
pub fn split(text: &str, sep: char) -> (pieces: Vec<String>)
    ensures
        views(pieces@) == split_on(text@, sep),
        pieces@.len() >= 1,
{
    let chars = chars_of(text);
    let mut pieces: Vec<String> = Vec::new();
    let mut current = String::new();
    let mut i: usize = 0;
    assert(chars@.take(0) == Seq::<char>::empty());
    assert(views(pieces@).push(current@) == seq![Seq::<char>::empty()]);
    while i < chars.len()
        invariant
            i <= chars.len(),
            views(pieces@).push(current@) == split_on(chars@.take(i as int), sep),
        decreases chars.len() - i,
    {
        let c = chars[i];
        let ghost prefix = chars@.take(i as int);
        let ghost next = chars@.take(i + 1);
        assert(next.drop_last() == prefix);
        assert(next.last() == c);
        if c == sep {
            let ghost before = views(pieces@);
            pieces.push(current);
            assert(views(pieces@) == before.push(current@));
            current = String::new();
        } else {
            current.push(c);
        }
        i = i + 1;
    }
    assert(chars@.take(chars.len() as int) == chars@);
    let ghost before = views(pieces@);
    pieces.push(current);
    assert(views(pieces@) == before.push(current@));
    pieces
}

/// Whether `a` comes strictly before `b` in dictionary order, where single
/// characters are ordered by their code points.
pub open spec fn lex_lt(a: Seq<char>, b: Seq<char>) -> bool
    decreases a.len(),
{
    if b.len() == 0 {
        false
    } else if a.len() == 0 {
        true
    } else if a[0] != b[0] {
        a[0] < b[0]
    } else {
        lex_lt(a.drop_first(), b.drop_first())
    }
}

/// Whether `a` comes strictly before `b` in dictionary order.
pub fn less(a: &str, b: &str) -> (r: bool)
    ensures
        r == lex_lt(a@, b@),
{
    let x = chars_of(a);
    let y = chars_of(b);
    let mut i: usize = 0;
    assert(x@.skip(0) == x@ && y@.skip(0) == y@);
    while i < x.len() && i < y.len()
        invariant
            i <= x.len(),
            i <= y.len(),
            x@ == a@,
            y@ == b@,
            lex_lt(x@, y@) == lex_lt(x@.skip(i as int), y@.skip(i as int)),
        decreases x.len() - i,
    {
        let ghost xs = x@.skip(i as int);
        let ghost ys = y@.skip(i as int);
        assert(xs[0] == x@[i as int] && ys[0] == y@[i as int]);
        if x[i] != y[i] {
            assert(lex_lt(xs, ys) == (xs[0] < ys[0]));
            return x[i] < y[i];
        }
        assert(xs.drop_first() == x@.skip(i + 1));
        assert(ys.drop_first() == y@.skip(i + 1));
        i = i + 1;
    }
    i < y.len()
}

/// Whether `c` is white space: whether it has the Unicode property
/// `White_Space`. These are the tab, the line feed, the vertical tab, the form
/// feed, the carriage return, the space, the next-line character, the
/// no-break space, the Ogham space mark, the spaces from the en quad to the
/// hair space, the line and the paragraph separator, the narrow no-break
/// space, the medium mathematical space and the ideographic space.
pub open spec fn white_space(c: char) -> bool {
    let n: u32 = c as u32;
    ||| 0x09 <= n <= 0x0D
    ||| n == 0x20
    ||| n == 0x85
    ||| n == 0xA0
    ||| n == 0x1680
    ||| 0x2000 <= n <= 0x200A
    ||| n == 0x2028
    ||| n == 0x2029
    ||| n == 0x202F
    ||| n == 0x205F
    ||| n == 0x3000
}

/// `char::is_whitespace` tells whether the character has the Unicode property
/// `White_Space`.
pub assume_specification[ char::is_whitespace ](c: char) -> (r: bool)
    ensures
        r == white_space(c),
;

/// `text` without the white space it starts with.
pub open spec fn trimmed_start(text: Seq<char>) -> Seq<char>
    decreases text.len(),
{
    if text.len() > 0 && white_space(text[0]) {
        trimmed_start(text.drop_first())
    } else {
        text
    }
}

/// `text` without the white space it ends with.
pub open spec fn trimmed_end(text: Seq<char>) -> Seq<char>
    decreases text.len(),
{
    if text.len() > 0 && white_space(text.last()) {
        trimmed_end(text.drop_last())
    } else {
        text
    }
}

/// `text` without the white space at either end.
pub open spec fn trimmed(text: Seq<char>) -> Seq<char> {
    trimmed_end(trimmed_start(text))
}

/// A text that neither starts nor ends with white space is left as it is.
pub proof fn lemma_trimmed_plain(text: Seq<char>)
    requires
        text.len() > 0 ==> !white_space(text[0]) && !white_space(text.last()),
    ensures
        trimmed(text) == text,
{
}

/// White space around a text that neither starts nor ends with white space
/// is all that trimming removes.
pub proof fn lemma_trimmed_around(before: Seq<char>, text: Seq<char>, after: Seq<char>)
    requires
        forall|i: int| 0 <= i < before.len() ==> white_space(#[trigger] before[i]),
        forall|i: int| 0 <= i < after.len() ==> white_space(#[trigger] after[i]),
        text.len() > 0 ==> !white_space(text[0]) && !white_space(text.last()),
    ensures
        trimmed(before + text + after) == text,
    decreases before.len() + after.len(),
{
    let whole = before + text + after;
    if before.len() > 0 {
        assert(whole[0] == before[0]);
        assert(whole.drop_first() =~= before.drop_first() + text + after);
        lemma_trimmed_around(before.drop_first(), text, after);
    } else if after.len() > 0 {
        assert(whole =~= text + after);
        lemma_trimmed_end_white(text, after);
        if text.len() > 0 {
            assert(whole[0] == text[0]);
        } else {
            lemma_trimmed_start_white(after);
        }
    } else {
        assert(whole =~= text);
    }
}

/// A text of white space only has nothing left when trimmed at the start.
pub proof fn lemma_trimmed_start_white(white: Seq<char>)
    requires
        forall|i: int| 0 <= i < white.len() ==> white_space(#[trigger] white[i]),
    ensures
        trimmed_start(white) == Seq::<char>::empty(),
    decreases white.len(),
{
    if white.len() > 0 {
        assert(white_space(white[0]));
        let rest = white.drop_first();
        assert forall|i: int| 0 <= i < rest.len() implies white_space(#[trigger] rest[i]) by {
            assert(rest[i] == white[i + 1]);
        }
        lemma_trimmed_start_white(rest);
    } else {
        assert(white =~= Seq::<char>::empty());
    }
}

/// Trimming at the end removes white space that follows a text which does
/// not end with white space.
pub proof fn lemma_trimmed_end_white(text: Seq<char>, after: Seq<char>)
    requires
        forall|i: int| 0 <= i < after.len() ==> white_space(#[trigger] after[i]),
        text.len() > 0 ==> !white_space(text.last()),
    ensures
        trimmed_end(text + after) == text,
    decreases after.len(),
{
    let whole = text + after;
    if after.len() > 0 {
        assert(whole.last() == after.last());
        assert(whole.drop_last() =~= text + after.drop_last());
        let shorter = after.drop_last();
        assert forall|i: int| 0 <= i < shorter.len() implies white_space(#[trigger] shorter[i]) by {
            assert(shorter[i] == after[i]);
        }
        lemma_trimmed_end_white(text, shorter);
    } else {
        assert(whole =~= text);
        if text.len() == 0 {
            assert(text =~= Seq::<char>::empty());
        }
    }
}

/// The characters of `v` from position `from` up to, not including, `to`.
fn slice_of(v: &Vec<char>, from: usize, to: usize) -> (s: String)
    requires
        from <= to <= v.len(),
    ensures
        s@ == v@.subrange(from as int, to as int),
{
    let mut s = String::new();
    let mut i: usize = from;
    while i < to
        invariant
            from <= i <= to <= v.len(),
            s@ == v@.subrange(from as int, i as int),
        decreases to - i,
    {
        s.push(v[i]);
        i = i + 1;
    }
    s
}

/// How many characters of white space `chars` starts with.
fn leading_white_space(chars: &Vec<char>) -> (i: usize)
    ensures
        i <= chars.len(),
        trimmed_start(chars@) == chars@.subrange(i as int, chars.len() as int),
{
    let mut i: usize = 0;
    assert(chars@.skip(0) == chars@);
    while i < chars.len() && chars[i].is_whitespace()
        invariant
            i <= chars.len(),
            trimmed_start(chars@) == trimmed_start(chars@.skip(i as int)),
        decreases chars.len() - i,
    {
        assert(chars@.skip(i as int)[0] == chars@[i as int]);
        assert(chars@.skip(i as int).drop_first() == chars@.skip(i + 1));
        i = i + 1;
    }
    assert(i < chars.len() ==> chars@.skip(i as int)[0] == chars@[i as int]);
    assert(chars@.skip(i as int) == chars@.subrange(i as int, chars.len() as int));
    i
}

/// Removes leading white space.
pub fn trim_start(text: &str) -> (out: String)
    ensures
        out@ == trimmed_start(text@),
{
    let chars = chars_of(text);
    let i = leading_white_space(&chars);
    slice_of(&chars, i, chars.len())
}

/// Removes white space at both ends.
pub fn trim(text: &str) -> (out: String)
    ensures
        out@ == trimmed(text@),
{
    let chars = chars_of(text);
    let i = leading_white_space(&chars);
    let mut j: usize = chars.len();
    while j > i && chars[j - 1].is_whitespace()
        invariant
            i <= j <= chars.len(),
            trimmed(chars@) == trimmed_end(chars@.subrange(i as int, j as int)),
        decreases j,
    {
        assert(chars@.subrange(i as int, j as int).last() == chars@[j - 1]);
        assert(chars@.subrange(i as int, j as int).drop_last() == chars@.subrange(
            i as int,
            j - 1,
        ));
        j = j - 1;
    }
    assert(j > i ==> chars@.subrange(i as int, j as int).last() == chars@[j - 1]);
    slice_of(&chars, i, j)
}

/// `line` without the carriage return at its end, if it ends with one.
pub open spec fn without_cr(line: Seq<char>) -> Seq<char> {
    if line.len() > 0 && line.last() == '\r' {
        line.drop_last()
    } else {
        line
    }
}

/// The lines of a text. A line ends with a line feed, or with a carriage
/// return and a line feed; neither belongs to the line. What follows the last
/// line feed is a line as it stands, unless it is empty.
pub open spec fn lines_of(text: Seq<char>) -> Seq<Seq<char>> {
    let pieces = split_on(text, '\n');
    let ended = pieces.drop_last().map_values(|p: Seq<char>| without_cr(p));
    if pieces.last().len() == 0 {
        ended
    } else {
        ended.push(pieces.last())
    }
}

/// The lines of a text.
pub fn lines(text: &str) -> (out: Vec<String>)
    ensures
        views(out@) == lines_of(text@),
{
    let mut pieces = split(text, '\n');
    let ghost all = views(pieces@);
    let last = pieces.pop().unwrap();
    assert(views(pieces@) =~= all.drop_last());
    assert(last@ == all.last());
    let ghost ended = all.drop_last().map_values(|p: Seq<char>| without_cr(p));
    let mut out: Vec<String> = Vec::new();
    let mut i: usize = 0;
    assert(views(out@) =~= ended.take(0));
    while i < pieces.len()
        invariant
            i <= pieces.len(),
            views(pieces@) == all.drop_last(),
            ended == all.drop_last().map_values(|p: Seq<char>| without_cr(p)),
            views(out@) == ended.take(i as int),
        decreases pieces.len() - i,
    {
        let chars = chars_of(pieces[i].as_str());
        let n = chars.len();
        let ghost before = views(out@);
        assert(all.drop_last()[i as int] == pieces@[i as int]@);
        let line = if n > 0 && chars[n - 1] == '\r' {
            slice_of(&chars, 0, n - 1)
        } else {
            assert(chars@.subrange(0, n as int) =~= chars@);
            slice_of(&chars, 0, n)
        };
        assert(line@ =~= without_cr(chars@));
        out.push(line);
        assert(views(out@) =~= before.push(line@));
        assert(ended.take(i + 1) =~= ended.take(i as int).push(ended[i as int]));
        i = i + 1;
    }
    assert(ended.take(pieces.len() as int) =~= ended);
    if last.as_str().unicode_len() > 0 {
        let ghost before = views(out@);
        out.push(last);
        assert(views(out@) =~= before.push(last@));
    }
    out
}

/// The items of a list, each of them once, in the order in which they come
/// first.
pub open spec fn distinct_of(items: Seq<Seq<char>>) -> Seq<Seq<char>>
    decreases items.len(),
{
    if items.len() == 0 {
        Seq::empty()
    } else {
        let before = distinct_of(items.drop_last());
        if before.contains(items.last()) {
            before
        } else {
            before.push(items.last())
        }
    }
}

/// Whether `item` is among `items`.
pub fn holds(items: &Vec<String>, item: &String) -> (found: bool)
    ensures
        found == views(items@).contains(item@),
{
    let ghost all = views(items@);
    let mut i: usize = 0;
    while i < items.len()
        invariant
            i <= items.len(),
            all == views(items@),
            forall|j: int| 0 <= j < i ==> all[j] != item@,
        decreases items.len() - i,
    {
        assert(all[i as int] == items@[i as int]@);
        if items[i] == *item {
            return true;
        }
        i = i + 1;
    }
    false
}

/// The items of a list, each of them once.
pub fn distinct(items: &Vec<String>) -> (out: Vec<String>)
    ensures
        views(out@) == distinct_of(views(items@)),
{
    let ghost all = views(items@);
    let mut out: Vec<String> = Vec::new();
    let mut i: usize = 0;
    assert(all.take(0) =~= Seq::empty());
    assert(views(out@) =~= distinct_of(all.take(0)));
    while i < items.len()
        invariant
            i <= items.len(),
            all == views(items@),
            views(out@) == distinct_of(all.take(i as int)),
        decreases items.len() - i,
    {
        assert(all.take(i + 1).drop_last() =~= all.take(i as int));
        assert(all.take(i + 1).last() == items@[i as int]@);
        if !holds(&out, &items[i]) {
            let ghost before = views(out@);
            out.push(items[i].clone());
            assert(views(out@) =~= before.push(items@[i as int]@));
        }
        i = i + 1;
    }
    assert(all.take(items.len() as int) =~= all);
    out
}

/// A text that the user left empty counts as not given.
pub fn non_empty(text: String) -> (given: Option<String>)
    ensures
        given is Some <==> text@.len() > 0,
        given is Some ==> given->Some_0@ == text@,
{
    if text.as_str().unicode_len() == 0 {
        None
    } else {
        Some(text)
    }
}

/// Whether the user has said yes: the line, without the white space around
/// it, is `y`.
pub fn is_yes(answer: &str) -> (yes: bool)
    ensures
        yes == (trimmed(answer@) == "y"@),
{
    trim(answer) == String::from_str("y")
}

} // verus!
