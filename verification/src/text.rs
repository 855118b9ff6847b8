//! Text as a sequence of characters: searching, splitting, trimming and joining.
//!
//! The specification functions speak of `Seq<char>`, the view of `str` and `String`; the
//! executable ones take `&str` and hand out owned text.

use vstd::prelude::*;
use vstd::string::*;

verus! {

/// The index of the first `c` in `s` at or after `from`; the length of `s` if there is none.
pub open spec fn find_from(s: Seq<char>, c: char, from: int) -> int
    decreases s.len() - from,
{
    if from >= s.len() {
        s.len() as int
    } else if s[from] == c {
        from
    } else {
        find_from(s, c, from + 1)
    }
}

/// The index of the first `c` in `s`; the length of `s` if there is none.
pub open spec fn find(s: Seq<char>, c: char) -> int {
    find_from(s, c, 0)
}

/// The index of the last `c` in `s` before `end`; `-1` if there is none.
pub open spec fn rfind_before(s: Seq<char>, c: char, end: int) -> int
    decreases end,
{
    if end <= 0 {
        -1
    } else if s[end - 1] == c {
        end - 1
    } else {
        rfind_before(s, c, end - 1)
    }
}

/// What stands before the first `c` in `s` and what stands after it.
pub open spec fn split_once(s: Seq<char>, c: char) -> Option<(Seq<char>, Seq<char>)> {
    let at = find(s, c);
    if at < s.len() {
        Some((s.subrange(0, at), s.subrange(at + 1, s.len() as int)))
    } else {
        None
    }
}

/// What stands before the last `c` in `s` and what stands after it.
pub open spec fn rsplit_once(s: Seq<char>, c: char) -> Option<(Seq<char>, Seq<char>)> {
    let at = rfind_before(s, c, s.len() as int);
    if at >= 0 {
        Some((s.subrange(0, at), s.subrange(at + 1, s.len() as int)))
    } else {
        None
    }
}

/// The pieces of `s` between its `c`s: one more than there are `c`s.
pub open spec fn split(s: Seq<char>, c: char) -> Seq<Seq<char>>
    decreases s.len(),
{
    let at = find(s, c);
    if 0 <= at < s.len() {
        seq![s.subrange(0, at)] + split(s.subrange(at + 1, s.len() as int), c)
    } else {
        seq![s]
    }
}

/// The index of the first occurrence of `pattern` in `s` at or after `from`; the length of `s`
/// if there is none.
pub open spec fn find_text_from(s: Seq<char>, pattern: Seq<char>, from: int) -> int
    decreases s.len() - from,
{
    if from >= s.len() || from + pattern.len() > s.len() {
        s.len() as int
    } else if s.subrange(from, from + pattern.len()) == pattern {
        from
    } else {
        find_text_from(s, pattern, from + 1)
    }
}

/// The pieces of `s` between the occurrences of `pattern`, taken from left to right.
pub open spec fn split_text(s: Seq<char>, pattern: Seq<char>) -> Seq<Seq<char>>
    decreases s.len(),
{
    let at = find_text_from(s, pattern, 0);
    if pattern.len() > 0 && 0 <= at && at + pattern.len() <= s.len() {
        seq![s.subrange(0, at)] + split_text(
            s.subrange(at + pattern.len(), s.len() as int),
            pattern,
        )
    } else {
        seq![s]
    }
}

/// `s` without `prefix` at its start.
pub open spec fn strip_prefix(s: Seq<char>, prefix: Seq<char>) -> Option<Seq<char>> {
    if prefix.is_prefix_of(s) {
        Some(s.skip(prefix.len() as int))
    } else {
        None
    }
}

/// `s` without `suffix` at its end.
pub open spec fn strip_suffix(s: Seq<char>, suffix: Seq<char>) -> Option<Seq<char>> {
    if suffix.is_suffix_of(s) {
        Some(s.take(s.len() - suffix.len()))
    } else {
        None
    }
}

/// `s` without `prefix` at its start, as often as it stands there.
pub open spec fn trim_prefixes(s: Seq<char>, prefix: Seq<char>) -> Seq<char>
    decreases s.len(),
{
    if prefix.len() > 0 && prefix.is_prefix_of(s) {
        trim_prefixes(s.skip(prefix.len() as int), prefix)
    } else {
        s
    }
}

/// `s` without the `c`s at its end.
pub open spec fn trim_end_char(s: Seq<char>, c: char) -> Seq<char>
    decreases s.len(),
{
    if s.len() > 0 && s.last() == c {
        trim_end_char(s.drop_last(), c)
    } else {
        s
    }
}

/// The characters with the Unicode property `White_Space`.
pub open spec fn is_space(c: char) -> bool {
    ||| '\u{9}' <= c <= '\u{d}'
    ||| c == ' '
    ||| c == '\u{85}'
    ||| c == '\u{a0}'
    ||| c == '\u{1680}'
    ||| '\u{2000}' <= c <= '\u{200a}'
    ||| c == '\u{2028}'
    ||| c == '\u{2029}'
    ||| c == '\u{202f}'
    ||| c == '\u{205f}'
    ||| c == '\u{3000}'
}

/// `s` without the white space at its start.
pub open spec fn trim_start(s: Seq<char>) -> Seq<char>
    decreases s.len(),
{
    if s.len() > 0 && is_space(s[0]) {
        trim_start(s.skip(1))
    } else {
        s
    }
}

/// `s` without the white space at its end.
pub open spec fn trim_end(s: Seq<char>) -> Seq<char>
    decreases s.len(),
{
    if s.len() > 0 && is_space(s.last()) {
        trim_end(s.drop_last())
    } else {
        s
    }
}

/// `s` without the white space around it.
pub open spec fn trim(s: Seq<char>) -> Seq<char> {
    trim_end(trim_start(s))
}

/// The pieces with `separator` between each two of them.
pub open spec fn join(pieces: Seq<Seq<char>>, separator: Seq<char>) -> Seq<char>
    decreases pieces.len(),
{
    if pieces.len() == 0 {
        Seq::empty()
    } else if pieces.len() == 1 {
        pieces[0]
    } else {
        join(pieces.drop_last(), separator) + separator + pieces.last()
    }
}

/// Whether `a` comes before `b` in the order that compares texts character by character, a
/// text coming before all that it is a proper prefix of.
pub open spec fn precedes(a: Seq<char>, b: Seq<char>) -> bool
    decreases a.len(),
{
    if b.len() == 0 {
        false
    } else if a.len() == 0 {
        true
    } else if a[0] != b[0] {
        a[0] < b[0]
    } else {
        precedes(a.skip(1), b.skip(1))
    }
}

/// The characters of a text, one by one.
pub fn chars_of(s: &str) -> (r: Vec<char>)
    ensures
        r@ == s@,
{
    let mut out: Vec<char> = Vec::new();
    for c in it: s.chars()
        invariant
            out@ == it.seq().take(it.index() as int),
            it.seq() == s@,
    {
        out.push(c);
    }
    out
}

/// Whether two texts are the same.
pub fn same(a: &str, b: &str) -> (r: bool)
    ensures
        r == (a@ == b@),
{
    let x: String = a.to_owned();
    let y: String = b.to_owned();
    x == y
}

/// The characters of `s` from `from` up to `to`.
pub fn slice(s: &str, from: usize, to: usize) -> (r: String)
    requires
        from <= to <= s@.len(),
    ensures
        r@ == s@.subrange(from as int, to as int),
{
    s.substring_char(from, to).to_owned()
}

/// A copy of `s`.
pub fn owned(s: &str) -> (r: String)
    ensures
        r@ == s@,
{
    s.to_owned()
}

/// Whether `c` stands in `s`.
pub fn has_char(s: &str, c: char) -> (r: bool)
    ensures
        r == s@.contains(c),
{
    let chars = chars_of(s);
    let mut i: usize = 0;
    while i < chars.len()
        invariant
            i <= chars.len(),
            chars@ == s@,
            forall|k: int| 0 <= k < i ==> s@[k] != c,
        decreases chars.len() - i,
    {
        if chars[i] == c {
            assert(s@[i as int] == c);
            return true;
        }
        i = i + 1;
    }
    false
}

proof fn lemma_find_unique(s: Seq<char>, c: char, from: int, at: int)
    requires
        0 <= from <= at <= s.len(),
        at < s.len() ==> s[at] == c,
        forall|k: int| from <= k < at ==> s[k] != c,
    ensures
        find_from(s, c, from) == at,
    decreases s.len() - from,
{
    if from < at {
        lemma_find_unique(s, c, from + 1, at);
    }
}

/// `find_text_from` is the first place where the pattern stands.
pub proof fn lemma_find_text_unique(s: Seq<char>, pattern: Seq<char>, from: int, at: int)
    requires
        pattern.len() > 0,
        0 <= from <= at <= s.len(),
        at < s.len() ==> at + pattern.len() <= s.len() && s.subrange(at, at + pattern.len())
            == pattern,
        forall|k: int|
            from <= k < at && k + pattern.len() <= s.len() ==> #[trigger] s.subrange(
                k,
                k + pattern.len(),
            ) != pattern,
    ensures
        find_text_from(s, pattern, from) == at,
    decreases s.len() - from,
{
    if from < at {
        if from + pattern.len() <= s.len() {
            assert(s.subrange(from, from + pattern.len()) != pattern);
            lemma_find_text_unique(s, pattern, from + 1, at);
        }
    }
}

/// Splitting at the first separator: what stands before it, if that holds none, is a piece.
pub proof fn lemma_split_head(head: Seq<char>, c: char, rest: Seq<char>)
    requires
        !head.contains(c),
    ensures
        split(head + seq![c] + rest, c) == seq![head] + split(rest, c),
{
    let s = head + seq![c] + rest;
    assert forall|k: int| 0 <= k < head.len() implies s[k] != c by {
        assert(s[k] == head[k]);
        assert(head.contains(head[k]));
    }
    assert(s[head.len() as int] == c);
    lemma_find_unique(s, c, 0, head.len() as int);
    assert(s.subrange(0, head.len() as int) =~= head);
    assert(s.subrange(head.len() as int + 1, s.len() as int) =~= rest);
}

pub proof fn lemma_split_whole(s: Seq<char>, c: char)
    requires
        !s.contains(c),
    ensures
        split(s, c) == seq![s],
{
    assert forall|k: int| 0 <= k < s.len() implies s[k] != c by {
        assert(s.contains(s[k]));
    }
    lemma_find_unique(s, c, 0, s.len() as int);
}

/// Joining is the first piece, a separator and the join of the rest.
pub proof fn lemma_join_head(p: Seq<Seq<char>>, separator: Seq<char>)
    requires
        p.len() >= 2,
    ensures
        join(p, separator) == p[0] + separator + join(p.skip(1), separator),
    decreases p.len(),
{
    if p.len() == 2 {
        assert(p.drop_last() =~= seq![p[0]]);
        assert(p.skip(1) =~= seq![p[1]]);
        assert(join(p.drop_last(), separator) == p[0]);
        assert(join(p.skip(1), separator) == p[1]);
    } else {
        assert(join(p, separator) == join(p.drop_last(), separator) + separator + p.last());
        lemma_join_head(p.drop_last(), separator);
        assert(p.drop_last().skip(1) =~= p.skip(1).drop_last());
        assert(p.skip(1).last() == p.last());
        assert(join(p, separator) =~= p[0] + separator + (join(
            p.skip(1).drop_last(),
            separator,
        ) + separator + p.last()));
    }
}

/// Splitting at a separator takes apart what was joined with it, where no piece holds it.
pub proof fn lemma_split_join(p: Seq<Seq<char>>, c: char)
    requires
        p.len() > 0,
        forall|i: int| 0 <= i < p.len() ==> !(#[trigger] p[i]).contains(c),
    ensures
        split(join(p, seq![c]), c) == p,
    decreases p.len(),
{
    if p.len() == 1 {
        lemma_split_whole(p[0], c);
        assert(p =~= seq![p[0]]);
    } else {
        lemma_join_head(p, seq![c]);
        lemma_split_head(p[0], c, join(p.skip(1), seq![c]));
        assert forall|i: int| 0 <= i < p.skip(1).len() implies !(#[trigger] p.skip(1)[i]).contains(
            c,
        ) by {
            assert(p.skip(1)[i] == p[i + 1]);
        }
        lemma_split_join(p.skip(1), c);
        assert(p =~= seq![p[0]] + p.skip(1));
    }
}

/// The index that `find` names.
fn find_char(chars: &Vec<char>, c: char) -> (r: usize)
    ensures
        r == find(chars@, c),
        r <= chars@.len(),
{
    let mut i: usize = 0;
    while i < chars.len()
        invariant
            i <= chars.len(),
            find(chars@, c) == find_from(chars@, c, i as int),
        decreases chars.len() - i,
    {
        if chars[i] == c {
            return i;
        }
        i = i + 1;
    }
    i
}

/// Splits a text at its first `c`.
pub fn split_at_first(s: &str, c: char) -> (r: Option<(String, String)>)
    ensures
        r.deep_view() == split_once(s@, c),
{
    let chars = chars_of(s);
    let at = find_char(&chars, c);
    if at < chars.len() {
        Some((slice(s, 0, at), slice(s, at + 1, chars.len())))
    } else {
        None
    }
}

/// Splits a text at its last `c`.
pub fn split_at_last(s: &str, c: char) -> (r: Option<(String, String)>)
    ensures
        r.deep_view() == rsplit_once(s@, c),
{
    let chars = chars_of(s);
    let mut end: usize = chars.len();
    while end > 0
        invariant
            end <= chars.len(),
            chars@ == s@,
            rfind_before(s@, c, s@.len() as int) == rfind_before(s@, c, end as int),
        decreases end,
    {
        if chars[end - 1] == c {
            return Some((slice(s, 0, end - 1), slice(s, end, chars.len())));
        }
        end = end - 1;
    }
    None
}

/// The pieces of a text between its `c`s.
pub fn pieces(s: &str, c: char) -> (r: Vec<String>)
    ensures
        r.deep_view() == split(s@, c),
{
    let mut out: Vec<String> = Vec::new();
    let mut rest: String = owned(s);
    let mut chars: Vec<char> = chars_of(s);
    let mut at: usize = find_char(&chars, c);
    assert(out.deep_view() + split(rest@, c) =~= split(s@, c));
    while at < chars.len()
        invariant
            chars@ == rest@,
            at == find(rest@, c),
            at <= rest@.len(),
            out.deep_view() + split(rest@, c) == split(s@, c),
        decreases rest@.len(),
    {
        let ghost before = out.deep_view();
        let ghost whole = rest@;
        let head = slice(rest.as_str(), 0, at);
        let tail = slice(rest.as_str(), at + 1, chars.len());
        out.push(head);
        assert(out.deep_view() =~= before.push(whole.subrange(0, at as int)));
        assert(out.deep_view() + split(tail@, c) =~= before + split(whole, c));
        rest = tail;
        chars = chars_of(rest.as_str());
        at = find_char(&chars, c);
    }
    let ghost before = out.deep_view();
    out.push(rest);
    assert(out.deep_view() =~= before + split(rest@, c));
    out
}

/// Whether `pattern` stands in `chars` at `at`.
fn stands_at(chars: &Vec<char>, pattern: &Vec<char>, at: usize) -> (r: bool)
    requires
        at + pattern@.len() <= chars@.len(),
    ensures
        r == (chars@.subrange(at as int, at + pattern@.len()) == pattern@),
{
    let total: usize = chars.len();
    let mut i: usize = 0;
    while i < pattern.len()
        invariant
            i <= pattern.len(),
            total == chars@.len(),
            at + pattern@.len() <= total,
            forall|k: int| 0 <= k < i ==> chars@[at + k] == pattern@[k],
        decreases pattern.len() - i,
    {
        if chars[at + i] != pattern[i] {
            assert(chars@.subrange(at as int, at + pattern@.len())[i as int] != pattern@[i as int]);
            return false;
        }
        i = i + 1;
    }
    assert(chars@.subrange(at as int, at + pattern@.len()) =~= pattern@);
    true
}

/// The index that `find_text_from` names, from the start of the text.
fn find_text(chars: &Vec<char>, pattern: &Vec<char>) -> (r: usize)
    ensures
        r == find_text_from(chars@, pattern@, 0),
        r <= chars@.len(),
{
    let mut i: usize = 0;
    while i < chars.len() && pattern.len() <= chars.len() - i
        invariant
            i <= chars.len(),
            find_text_from(chars@, pattern@, 0) == find_text_from(chars@, pattern@, i as int),
        decreases chars.len() - i,
    {
        if stands_at(chars, pattern, i) {
            return i;
        }
        i = i + 1;
    }
    chars.len()
}

/// The pieces of a text between the occurrences of `pattern`.
pub fn text_pieces(s: &str, pattern: &str) -> (r: Vec<String>)
    ensures
        r.deep_view() == split_text(s@, pattern@),
{
    let p = chars_of(pattern);
    let mut out: Vec<String> = Vec::new();
    let mut rest: String = owned(s);
    let mut chars: Vec<char> = chars_of(s);
    let mut at: usize = find_text(&chars, &p);
    assert(out.deep_view() + split_text(rest@, pattern@) =~= split_text(s@, pattern@));
    while p.len() > 0 && at <= chars.len() && p.len() <= chars.len() - at
        invariant
            p@ == pattern@,
            chars@ == rest@,
            at == find_text_from(rest@, pattern@, 0),
            at <= rest@.len(),
            out.deep_view() + split_text(rest@, pattern@) == split_text(s@, pattern@),
        decreases rest@.len(),
    {
        let ghost before = out.deep_view();
        let ghost whole = rest@;
        let head = slice(rest.as_str(), 0, at);
        let tail = slice(rest.as_str(), at + p.len(), chars.len());
        out.push(head);
        assert(out.deep_view() =~= before.push(whole.subrange(0, at as int)));
        assert(out.deep_view() + split_text(tail@, pattern@) =~= before + split_text(
            whole,
            pattern@,
        ));
        rest = tail;
        chars = chars_of(rest.as_str());
        at = find_text(&chars, &p);
    }
    let ghost before = out.deep_view();
    out.push(rest);
    assert(out.deep_view() =~= before + split_text(rest@, pattern@));
    out
}

/// Whether a text begins with `prefix`.
pub fn begins_with(s: &str, prefix: &str) -> (r: bool)
    ensures
        r == prefix@.is_prefix_of(s@),
{
    let chars = chars_of(s);
    let p = chars_of(prefix);
    if p.len() > chars.len() {
        return false;
    }
    stands_at(&chars, &p, 0)
}

/// A text without `prefix` at its start.
pub fn without_prefix(s: &str, prefix: &str) -> (r: Option<String>)
    ensures
        r.deep_view() == strip_prefix(s@, prefix@),
{
    if begins_with(s, prefix) {
        let n: usize = s.unicode_len();
        let m: usize = prefix.unicode_len();
        assert(s@.subrange(m as int, n as int) =~= s@.skip(m as int));
        Some(slice(s, m, n))
    } else {
        None
    }
}

/// A text without `suffix` at its end.
pub fn without_suffix(s: &str, suffix: &str) -> (r: Option<String>)
    ensures
        r.deep_view() == strip_suffix(s@, suffix@),
{
    let chars = chars_of(s);
    let p = chars_of(suffix);
    if p.len() > chars.len() {
        return None;
    }
    let keep: usize = chars.len() - p.len();
    assert(chars@.subrange(keep as int, keep + p@.len()) =~= s@.subrange(
        s@.len() - suffix@.len(),
        s@.len() as int,
    ));
    if stands_at(&chars, &p, keep) {
        assert(s@.subrange(0, keep as int) =~= s@.take(s@.len() - suffix@.len()));
        Some(slice(s, 0, keep))
    } else {
        None
    }
}

/// A text without `prefix` at its start, as often as it stands there.
pub fn without_prefixes(s: &str, prefix: &str) -> (r: String)
    ensures
        r@ == trim_prefixes(s@, prefix@),
{
    let mut rest: String = owned(s);
    if prefix.is_empty() {
        return rest;
    }
    while begins_with(rest.as_str(), prefix)
        invariant
            prefix@.len() > 0,
            trim_prefixes(rest@, prefix@) == trim_prefixes(s@, prefix@),
        decreases rest@.len(),
    {
        let n: usize = rest.as_str().unicode_len();
        let m: usize = prefix.unicode_len();
        assert(rest@.subrange(m as int, n as int) =~= rest@.skip(m as int));
        rest = slice(rest.as_str(), m, n);
    }
    rest
}

/// A text without the `c`s at its end.
pub fn without_trailing(s: &str, c: char) -> (r: String)
    ensures
        r@ == trim_end_char(s@, c),
{
    let chars = chars_of(s);
    let mut end: usize = chars.len();
    assert(s@.take(end as int) =~= s@);
    while end > 0 && chars[end - 1] == c
        invariant
            end <= chars.len(),
            chars@ == s@,
            trim_end_char(s@.take(end as int), c) == trim_end_char(s@, c),
        decreases end,
    {
        assert(s@.take(end as int).drop_last() =~= s@.take(end - 1));
        end = end - 1;
    }
    assert(s@.subrange(0, end as int) =~= s@.take(end as int));
    slice(s, 0, end)
}

/// Whether a character is white space.
pub fn is_white(c: char) -> (r: bool)
    ensures
        r == is_space(c),
{
    ('\u{9}' <= c && c <= '\u{d}') || c == ' ' || c == '\u{85}' || c == '\u{a0}' || c
        == '\u{1680}' || ('\u{2000}' <= c && c <= '\u{200a}') || c == '\u{2028}' || c == '\u{2029}'
        || c == '\u{202f}' || c == '\u{205f}' || c == '\u{3000}'
}

/// A text without the white space around it.
pub fn trimmed(s: &str) -> (r: String)
    ensures
        r@ == trim(s@),
{
    let chars = chars_of(s);
    let mut start: usize = 0;
    assert(s@.skip(0) =~= s@);
    while start < chars.len() && is_white(chars[start])
        invariant
            start <= chars.len(),
            chars@ == s@,
            trim_start(s@.skip(start as int)) == trim_start(s@),
        decreases chars.len() - start,
    {
        assert(s@.skip(start as int).skip(1) =~= s@.skip(start + 1));
        start = start + 1;
    }
    let ghost rest = s@.skip(start as int);
    assert(trim_start(s@) == rest);
    let mut end: usize = chars.len();
    assert(s@.subrange(start as int, end as int) =~= rest);
    while end > start && is_white(chars[end - 1])
        invariant
            start <= end <= chars.len(),
            chars@ == s@,
            trim_end(s@.subrange(start as int, end as int)) == trim_end(rest),
        decreases end,
    {
        assert(s@.subrange(start as int, end as int).drop_last() =~= s@.subrange(
            start as int,
            end - 1,
        ));
        end = end - 1;
    }
    slice(s, start, end)
}

/// The pieces with `separator` between each two of them.
pub fn joined(parts: &Vec<String>, separator: &str) -> (r: String)
    ensures
        r@ == join(parts.deep_view(), separator@),
{
    let mut out: String = String::new();
    let mut i: usize = 0;
    let ghost all = parts.deep_view();
    while i < parts.len()
        invariant
            i <= parts.len(),
            all == parts.deep_view(),
            out@ == join(all.take(i as int), separator@),
        decreases parts.len() - i,
    {
        proof {
            assert(all.take(i + 1).drop_last() =~= all.take(i as int));
            assert(all.take(i + 1).last() == parts[i as int]@);
        }
        if i > 0 {
            out.append(separator);
        }
        out.append(parts[i].as_str());
        assert(i == 0 ==> out@ =~= parts[0]@);
        i = i + 1;
    }
    assert(all.take(i as int) =~= all);
    out
}

/// Whether `x` is one of the texts.
pub fn holds(texts: &[String], x: &str) -> (r: bool)
    ensures
        r == texts.deep_view().contains(x@),
{
    let ghost d = texts.deep_view();
    let mut i: usize = 0;
    while i < texts.len()
        invariant
            i <= texts@.len(),
            d == texts.deep_view(),
            forall|k: int| 0 <= k < i ==> d[k] != x@,
        decreases texts@.len() - i,
    {
        assert(d[i as int] == texts[i as int]@);
        if same(texts[i].as_str(), x) {
            return true;
        }
        i = i + 1;
    }
    false
}

/// Whether `a` comes before `b` in the order of `precedes`.
pub fn comes_before(a: &str, b: &str) -> (r: bool)
    ensures
        r == precedes(a@, b@),
{
    let x = chars_of(a);
    let y = chars_of(b);
    let mut i: usize = 0;
    assert(a@.skip(0) =~= a@);
    assert(b@.skip(0) =~= b@);
    while i < x.len() && i < y.len()
        invariant
            i <= x.len(),
            i <= y.len(),
            x@ == a@,
            y@ == b@,
            precedes(a@.skip(i as int), b@.skip(i as int)) == precedes(a@, b@),
        decreases x.len() - i,
    {
        if x[i] != y[i] {
            return x[i] < y[i];
        }
        assert(a@.skip(i as int).skip(1) =~= a@.skip(i + 1));
        assert(b@.skip(i as int).skip(1) =~= b@.skip(i + 1));
        i = i + 1;
    }
    i < y.len()
}

proof fn lemma_find(s: Seq<char>, c: char, from: int)
    requires
        0 <= from <= s.len(),
    ensures
        from <= find_from(s, c, from) <= s.len(),
        find_from(s, c, from) < s.len() ==> s[find_from(s, c, from)] == c,
        forall|k: int| from <= k < find_from(s, c, from) ==> s[k] != c,
    decreases s.len() - from,
{
    if from < s.len() && s[from] != c {
        lemma_find(s, c, from + 1);
    }
}

proof fn lemma_rfind(s: Seq<char>, c: char, end: int)
    requires
        0 <= end <= s.len(),
    ensures
        -1 <= rfind_before(s, c, end) < end || (end == 0 && rfind_before(s, c, end) == -1),
        rfind_before(s, c, end) >= 0 ==> s[rfind_before(s, c, end)] == c,
        forall|k: int| rfind_before(s, c, end) < k < end ==> s[k] != c,
    decreases end,
{
    if end > 0 && s[end - 1] != c {
        lemma_rfind(s, c, end - 1);
    }
}

/// A text is split at its first `c`: what stands in front of it holds none, and the two with `c`
/// between them are the text. A text without `c` is not split.
pub proof fn law_split_once(s: Seq<char>, c: char)
    ensures
        split_once(s, c) is None <==> !s.contains(c),
        split_once(s, c) matches Some((a, b)) ==> s == a + seq![c] + b && !a.contains(c),
{
    lemma_find(s, c, 0);
    let at = find(s, c);
    if at < s.len() {
        assert(s.contains(s[at]));
        assert(s =~= s.subrange(0, at) + seq![c] + s.subrange(at + 1, s.len() as int));
    }
}

/// There is only one way to split a text at its first `c`.
pub proof fn law_split_once_of(a: Seq<char>, c: char, b: Seq<char>)
    requires
        !a.contains(c),
    ensures
        split_once(a + seq![c] + b, c) == Some((a, b)),
{
    let s = a + seq![c] + b;
    assert forall|k: int| 0 <= k < a.len() implies s[k] != c by {
        assert(a.contains(a[k]));
    }
    assert(s[a.len() as int] == c);
    lemma_find_unique(s, c, 0, a.len() as int);
    assert(s.subrange(0, a.len() as int) =~= a);
    assert(s.subrange(a.len() as int + 1, s.len() as int) =~= b);
}

/// A text is split at its last `c`: what stands behind it holds none, and the two with `c` between
/// them are the text. A text without `c` is not split.
pub proof fn law_rsplit_once(s: Seq<char>, c: char)
    ensures
        rsplit_once(s, c) is None <==> !s.contains(c),
        rsplit_once(s, c) matches Some((a, b)) ==> s == a + seq![c] + b && !b.contains(c),
{
    lemma_rfind(s, c, s.len() as int);
    let at = rfind_before(s, c, s.len() as int);
    if at >= 0 {
        assert(s.contains(s[at]));
        assert(s =~= s.subrange(0, at) + seq![c] + s.subrange(at + 1, s.len() as int));
    }
}

/// There is only one way to split a text at its last `c`.
pub proof fn law_rsplit_once_of(a: Seq<char>, c: char, b: Seq<char>)
    requires
        !b.contains(c),
    ensures
        rsplit_once(a + seq![c] + b, c) == Some((a, b)),
{
    let s = a + seq![c] + b;
    lemma_rfind(s, c, s.len() as int);
    let at = rfind_before(s, c, s.len() as int);
    assert(s[a.len() as int] == c);
    if at > a.len() {
        assert(s[at] == b[at - a.len() - 1]);
        assert(b.contains(b[at - a.len() - 1]));
    }
    assert(at == a.len());
    assert(s.subrange(0, a.len() as int) =~= a);
    assert(s.subrange(a.len() as int + 1, s.len() as int) =~= b);
}

/// Nothing joined is empty, one text joined is itself, and each further one comes behind a
/// separator.
pub proof fn law_join(p: Seq<Seq<char>>, x: Seq<char>, separator: Seq<char>)
    ensures
        join(Seq::empty(), separator) == Seq::<char>::empty(),
        join(seq![x], separator) == x,
        p.len() > 0 ==> join(p.push(x), separator) == join(p, separator) + separator + x,
{
    assert(p.push(x).drop_last() =~= p);
}

/// The pieces of a text hold no separator, and joined with it they are the text.
pub proof fn law_split(s: Seq<char>, c: char)
    ensures
        split(s, c).len() > 0,
        forall|i: int| 0 <= i < split(s, c).len() ==> !(#[trigger] split(s, c)[i]).contains(c),
        join(split(s, c), seq![c]) == s,
    decreases s.len(),
{
    lemma_find(s, c, 0);
    let at = find(s, c);
    if at < s.len() {
        let head = s.subrange(0, at);
        let rest = s.subrange(at + 1, s.len() as int);
        assert(!head.contains(c));
        assert(s =~= head + seq![c] + rest);
        lemma_split_head(head, c, rest);
        law_split(rest, c);
        let p = split(s, c);
        assert(p == seq![head] + split(rest, c));
        assert forall|i: int| 0 <= i < p.len() implies !(#[trigger] p[i]).contains(c) by {
            if i > 0 {
                assert(p[i] == split(rest, c)[i - 1]);
            }
        }
        assert(p.skip(1) =~= split(rest, c));
        lemma_join_head(p, seq![c]);
    } else {
        assert(!s.contains(c));
        lemma_split_whole(s, c);
    }
}

/// A text that is `n` times the same one.
pub open spec fn repeated(s: Seq<char>, n: nat) -> Seq<char>
    decreases n,
{
    if n == 0 {
        Seq::empty()
    } else {
        s + repeated(s, (n - 1) as nat)
    }
}

/// A text without a prefix as often as it stands there: some copies of the prefix in front of the
/// result are the text, and the result does not start with one.
pub proof fn law_trim_prefixes(s: Seq<char>, prefix: Seq<char>) -> (n: nat)
    requires
        prefix.len() > 0,
    ensures
        s == repeated(prefix, n) + trim_prefixes(s, prefix),
        !prefix.is_prefix_of(trim_prefixes(s, prefix)),
    decreases s.len(),
{
    if prefix.is_prefix_of(s) {
        let m = law_trim_prefixes(s.skip(prefix.len() as int), prefix);
        let n = m + 1;
        assert(repeated(prefix, n) == prefix + repeated(prefix, m));
        assert(s =~= prefix + s.skip(prefix.len() as int));
        assert(s =~= repeated(prefix, n) + trim_prefixes(s, prefix));
        n
    } else {
        assert(s =~= repeated(prefix, 0) + trim_prefixes(s, prefix));
        0
    }
}

/// A text without the `c`s at its end: the result does not end in one, and `c`s behind it make the
/// text.
pub proof fn law_trim_end_char(s: Seq<char>, c: char)
    ensures
        trim_end_char(s, c).is_prefix_of(s),
        forall|i: int| trim_end_char(s, c).len() <= i < s.len() ==> s[i] == c,
        trim_end_char(s, c).len() > 0 ==> trim_end_char(s, c).last() != c,
    decreases s.len(),
{
    if s.len() > 0 && s.last() == c {
        law_trim_end_char(s.drop_last(), c);
        let t = trim_end_char(s, c);
        assert(t =~= s.subrange(0, t.len() as int));
        assert forall|i: int| t.len() <= i < s.len() implies s[i] == c by {
            if i < s.len() - 1 {
                assert(s[i] == s.drop_last()[i]);
            }
        }
    } else {
        assert(s =~= s.subrange(0, s.len() as int));
    }
}

/// A text without the white space around it: it starts and ends in none, and nothing but white
/// space was taken off.
pub proof fn law_trim(s: Seq<char>) -> (at: int)
    ensures
        0 <= at <= at + trim(s).len() <= s.len(),
        trim(s) == s.subrange(at, at + trim(s).len()),
        forall|i: int| 0 <= i < at ==> is_space(#[trigger] s[i]),
        forall|i: int| at + trim(s).len() <= i < s.len() ==> is_space(#[trigger] s[i]),
        trim(s).len() > 0 ==> !is_space(trim(s)[0]) && !is_space(trim(s).last()),
{
    let at = lemma_trim_start(s);
    let t = trim_start(s);
    lemma_trim_end(t);
    let r = trim(s);
    assert(r =~= s.subrange(at, at + r.len()));
    assert forall|i: int| at + r.len() <= i < s.len() implies is_space(#[trigger] s[i]) by {
        assert(t[i - at] == s[i]);
    }
    if r.len() > 0 {
        assert(r[0] == t[0]);
    }
    at
}

proof fn lemma_trim_start(s: Seq<char>) -> (at: int)
    ensures
        0 <= at <= s.len(),
        trim_start(s) == s.skip(at),
        forall|i: int| 0 <= i < at ==> is_space(#[trigger] s[i]),
        trim_start(s).len() > 0 ==> !is_space(trim_start(s)[0]),
    decreases s.len(),
{
    if s.len() > 0 && is_space(s[0]) {
        let m = lemma_trim_start(s.skip(1));
        assert(s.skip(1).skip(m) =~= s.skip(m + 1));
        assert forall|i: int| 0 <= i < m + 1 implies is_space(#[trigger] s[i]) by {
            if i > 0 {
                assert(s.skip(1)[i - 1] == s[i]);
            }
        }
        m + 1
    } else {
        assert(s.skip(0) =~= s);
        0
    }
}

proof fn lemma_trim_end(s: Seq<char>)
    ensures
        trim_end(s).len() <= s.len(),
        trim_end(s) == s.take(trim_end(s).len() as int),
        forall|i: int| trim_end(s).len() <= i < s.len() ==> is_space(#[trigger] s[i]),
        trim_end(s).len() > 0 ==> !is_space(trim_end(s).last()),
    decreases s.len(),
{
    if s.len() > 0 && is_space(s.last()) {
        lemma_trim_end(s.drop_last());
        let t = trim_end(s);
        assert(s.drop_last().take(t.len() as int) =~= s.take(t.len() as int));
        assert forall|i: int| t.len() <= i < s.len() implies is_space(#[trigger] s[i]) by {
            if i < s.len() - 1 {
                assert(s[i] == s.drop_last()[i]);
            }
        }
    } else {
        assert(s.take(s.len() as int) =~= s);
    }
}

/// A prefix or a suffix is taken off exactly if it is there, and put back gives the text.
pub proof fn law_strip(s: Seq<char>, x: Seq<char>)
    ensures
        strip_prefix(x + s, x) == Some(s),
        strip_suffix(s + x, x) == Some(s),
        strip_prefix(s, x) matches Some(rest) ==> s == x + rest,
        strip_suffix(s, x) matches Some(rest) ==> s == rest + x,
{
    assert((x + s).subrange(0, x.len() as int) =~= x);
    assert(x.is_prefix_of(x + s));
    assert((x + s).skip(x.len() as int) =~= s);
    assert((s + x).subrange(s.len() as int, (s + x).len() as int) =~= x);
    assert(x.is_suffix_of(s + x));
    assert((s + x).take(s.len() as int) =~= s);
    if let Some(rest) = strip_prefix(s, x) {
        assert(s =~= x + rest);
    }
    if let Some(rest) = strip_suffix(s, x) {
        assert(s =~= rest + x);
    }
}

/// A text comes before another exactly if it is a proper prefix of it, or has the lesser character
/// where they first differ.
pub proof fn law_precedes(a: Seq<char>, b: Seq<char>)
    ensures
        precedes(a, b) <==> exists|k: int| #[trigger] differ_at(a, b, k),
    decreases a.len(),
{
    if a.len() > 0 && b.len() > 0 && a[0] == b[0] {
        law_precedes(a.skip(1), b.skip(1));
        if precedes(a, b) {
            let k = choose|k: int| #[trigger] differ_at(a.skip(1), b.skip(1), k);
            assert forall|i: int| 0 <= i < k + 1 implies a[i] == b[i] by {
                if i > 0 {
                    assert(a.skip(1)[i - 1] == b.skip(1)[i - 1]);
                }
            }
            assert(differ_at(a, b, k + 1));
        }
        if exists|k: int| #[trigger] differ_at(a, b, k) {
            let k = choose|k: int| #[trigger] differ_at(a, b, k);
            assert forall|i: int| 0 <= i < k - 1 implies a.skip(1)[i] == b.skip(1)[i] by {
                assert(a[i + 1] == b[i + 1]);
            }
            assert(differ_at(a.skip(1), b.skip(1), k - 1));
        }
    } else if precedes(a, b) {
        assert(differ_at(a, b, 0));
    }
}

/// Whether `a` and `b` are the same up to `k`, and there `a` ends and `b` does not, or has the
/// lesser character.
pub open spec fn differ_at(a: Seq<char>, b: Seq<char>, k: int) -> bool {
    &&& 0 <= k < b.len() && k <= a.len()
    &&& forall|i: int| 0 <= i < k ==> a[i] == b[i]
    &&& k == a.len() || a[k] < b[k]
}

} // verus!
