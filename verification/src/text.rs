//! Text primitives on strings, stated over sequences of characters.

use vstd::prelude::*;

verus! {

/// `String::push` appends the given character to the end of the string.
pub assume_specification[ String::push ](s: &mut String, c: char)
    ensures
        final(s)@ == old(s)@.push(c),
;

/// The texts that a list of strings holds.
pub open spec fn texts(v: Seq<String>) -> Seq<Seq<char>> {
    Seq::new(v.len(), |i: int| v[i]@)
}

/// The characters of `s`.
pub fn chars_of(s: &str) -> (r: Vec<char>)
    ensures
        r@ == s@,
{
    let mut r: Vec<char> = Vec::new();
    for c in it: s.chars()
        invariant
            r@ == it.seq().take(it.index()),
            it.seq() == s@,
    {
        r.push(c);
        assert(it.seq().take(it.index() + 1) =~= it.seq().take(it.index()).push(c));
    }
    assert(r@ =~= s@);
    r
}

/// The string made of the characters `from..to` of `chars`.
pub fn string_of(chars: &Vec<char>, from: usize, to: usize) -> (r: String)
    requires
        from <= to <= chars@.len(),
    ensures
        r@ == chars@.subrange(from as int, to as int),
{
    let mut r = String::new();
    let mut i: usize = from;
    while i < to
        invariant
            from <= i <= to <= chars@.len(),
            r@ == chars@.subrange(from as int, i as int),
        decreases to - i,
    {
        r.push(chars[i]);
        i += 1;
        assert(r@ =~= chars@.subrange(from as int, i as int));
    }
    r
}

/// Whether two strings hold the same text.
pub fn same(a: &str, b: &str) -> (r: bool)
    ensures
        r == (a@ == b@),
{
    a.to_owned() == b.to_owned()
}

/// A copy of a list of strings.
pub fn copy_strings(v: &Vec<String>) -> (r: Vec<String>)
    ensures
        r@ == v@,
{
    let mut r: Vec<String> = Vec::new();
    let mut i: usize = 0;
    while i < v.len()
        invariant
            i <= v@.len(),
            r@ == v@.take(i as int),
        decreases v@.len() - i,
    {
        r.push(v[i].clone());
        i += 1;
        assert(r@ =~= v@.take(i as int));
    }
    assert(r@ =~= v@);
    r
}

/// The characters that have the Unicode property White_Space.
pub open spec fn white_space(c: char) -> bool {
    ||| '\u{9}' <= c && c <= '\u{d}'
    ||| c == ' '
    ||| c == '\u{85}'
    ||| c == '\u{a0}'
    ||| c == '\u{1680}'
    ||| '\u{2000}' <= c && c <= '\u{200a}'
    ||| c == '\u{2028}'
    ||| c == '\u{2029}'
    ||| c == '\u{202f}'
    ||| c == '\u{205f}'
    ||| c == '\u{3000}'
}

/// Whether `c` is white space.
pub fn is_white_space(c: char) -> (r: bool)
    ensures
        r == white_space(c),
{
    ('\u{9}' <= c && c <= '\u{d}') || c == ' ' || c == '\u{85}' || c == '\u{a0}' || c == '\u{1680}'
        || ('\u{2000}' <= c && c <= '\u{200a}') || c == '\u{2028}' || c == '\u{2029}'
        || c == '\u{202f}' || c == '\u{205f}' || c == '\u{3000}'
}

/// `s` without its leading white space.
pub open spec fn trimmed_start(s: Seq<char>) -> Seq<char>
    decreases s.len(),
{
    if s.len() > 0 && white_space(s[0]) {
        trimmed_start(s.drop_first())
    } else {
        s
    }
}

/// `s` without its trailing white space.
pub open spec fn trimmed_end(s: Seq<char>) -> Seq<char>
    decreases s.len(),
{
    if s.len() > 0 && white_space(s.last()) {
        trimmed_end(s.drop_last())
    } else {
        s
    }
}

/// `s` without leading and trailing white space.
pub open spec fn trimmed(s: Seq<char>) -> Seq<char> {
    trimmed_end(trimmed_start(s))
}

/// Drops leading white space.
pub fn trim_start<'a>(s: &'a str) -> (r: &'a str)
    ensures
        r@ == trimmed_start(s@),
{
    let chars = chars_of(s);
    let n: usize = chars.len();
    let mut i: usize = 0;
    assert(s@.skip(0) =~= s@);
    while i < n && is_white_space(chars[i])
        invariant
            i <= n == chars@.len(),
            chars@ == s@,
            trimmed_start(s@) == trimmed_start(s@.skip(i as int)),
        decreases n - i,
    {
        assert(s@.skip(i as int).drop_first() =~= s@.skip(i + 1));
        i += 1;
    }
    assert(s@.skip(i as int) =~= s@.subrange(i as int, n as int));
    s.substring_char(i, n)
}

/// Drops trailing white space.
pub fn trim_end<'a>(s: &'a str) -> (r: &'a str)
    ensures
        r@ == trimmed_end(s@),
{
    let chars = chars_of(s);
    let mut n: usize = chars.len();
    assert(s@.take(n as int) =~= s@);
    while n > 0 && is_white_space(chars[n - 1])
        invariant
            n <= chars@.len(),
            chars@ == s@,
            trimmed_end(s@) == trimmed_end(s@.take(n as int)),
        decreases n,
    {
        assert(s@.take(n as int).drop_last() =~= s@.take(n - 1));
        n -= 1;
    }
    assert(s@.take(n as int) =~= s@.subrange(0, n as int));
    s.substring_char(0, n)
}

/// Drops leading and trailing white space.
pub fn trim<'a>(s: &'a str) -> (r: &'a str)
    ensures
        r@ == trimmed(s@),
{
    trim_end(trim_start(s))
}

/// The lower case of an ASCII letter; any other character is its own.
pub open spec fn ascii_lower(c: char) -> char {
    if 'A' <= c && c <= 'Z' {
        ((c as u8) + 32) as char
    } else {
        c
    }
}

/// `s` with its ASCII letters in lower case.
pub open spec fn lowered(s: Seq<char>) -> Seq<char> {
    Seq::new(s.len(), |i: int| ascii_lower(s[i]))
}

/// Puts the ASCII letters of `s` in lower case and keeps every other character.
pub fn to_ascii_lowercase(s: &str) -> (r: String)
    ensures
        r@ == lowered(s@),
{
    let chars = chars_of(s);
    let mut r = String::new();
    let mut i: usize = 0;
    while i < chars.len()
        invariant
            i <= chars@.len(),
            chars@ == s@,
            r@ == lowered(s@).take(i as int),
        decreases chars@.len() - i,
    {
        let c = chars[i];
        if 'A' <= c && c <= 'Z' {
            r.push(((c as u8) + 32) as char);
        } else {
            r.push(c);
        }
        i += 1;
        assert(r@ =~= lowered(s@).take(i as int));
    }
    assert(r@ =~= lowered(s@));
    r
}

/// Whether `pattern` stands in `s` at position `i`.
pub open spec fn occurs_at(s: Seq<char>, pattern: Seq<char>, i: int) -> bool {
    0 <= i && i + pattern.len() <= s.len() && s.subrange(i, i + pattern.len()) == pattern
}

/// Whether `pattern` stands somewhere in `s`.
pub open spec fn occurs_in(s: Seq<char>, pattern: Seq<char>) -> bool {
    exists|i: int| occurs_at(s, pattern, i)
}

/// Whether `pattern` stands in `chars` at position `i`.
pub fn matches_at(chars: &Vec<char>, pattern: &Vec<char>, i: usize) -> (r: bool)
    ensures
        r == occurs_at(chars@, pattern@, i as int),
{
    let n: usize = chars.len();
    let m: usize = pattern.len();
    if i > n || m > n - i {
        return false;
    }
    let mut k: usize = 0;
    while k < m
        invariant
            k <= m == pattern@.len(),
            i + m <= n == chars@.len(),
            forall|j: int| 0 <= j < k ==> chars@[i + j] == pattern@[j],
        decreases m - k,
    {
        if chars[i + k] != pattern[k] {
            assert(chars@.subrange(i as int, i + m)[k as int] != pattern@[k as int]);
            return false;
        }
        k += 1;
    }
    assert(chars@.subrange(i as int, i + m) =~= pattern@);
    true
}

/// Whether `pattern` stands somewhere in `s`.
pub fn contains(s: &str, pattern: &str) -> (r: bool)
    ensures
        r == occurs_in(s@, pattern@),
{
    let chars = chars_of(s);
    let wanted = chars_of(pattern);
    let n: usize = chars.len();
    let m: usize = wanted.len();
    if m > n {
        return false;
    }
    let mut i: usize = 0;
    while i <= n - m
        invariant
            i <= n - m + 1,
            m <= n,
            n == chars@.len(),
            m == wanted@.len(),
            chars@ == s@,
            wanted@ == pattern@,
            forall|j: int| 0 <= j < i ==> !occurs_at(s@, pattern@, j),
        decreases n - m + 1 - i,
    {
        if matches_at(&chars, &wanted, i) {
            return true;
        }
        if i == n - m {
            return false;
        }
        i += 1;
    }
    false
}

/// Whether `s` begins with `pattern`.
pub fn starts_with(s: &str, pattern: &str) -> (r: bool)
    ensures
        r == pattern@.is_prefix_of(s@),
{
    let r = matches_at(&chars_of(s), &chars_of(pattern), 0);
    assert(r == pattern@.is_prefix_of(s@));
    r
}

/// Whether `s` ends with `pattern`.
pub fn ends_with(s: &str, pattern: &str) -> (r: bool)
    ensures
        r == pattern@.is_suffix_of(s@),
{
    let chars = chars_of(s);
    let wanted = chars_of(pattern);
    if wanted.len() > chars.len() {
        return false;
    }
    matches_at(&chars, &wanted, chars.len() - wanted.len())
}

/// What follows `prefix` in `s`, if `s` begins with it.
pub open spec fn after_prefix(s: Seq<char>, prefix: Seq<char>) -> Option<Seq<char>> {
    if prefix.is_prefix_of(s) {
        Some(s.skip(prefix.len() as int))
    } else {
        None
    }
}

/// What follows `prefix` in `s`, if `s` begins with it.
pub fn strip_prefix<'a>(s: &'a str, prefix: &str) -> (r: Option<&'a str>)
    ensures
        r is Some <==> after_prefix(s@, prefix@) is Some,
        r is Some ==> after_prefix(s@, prefix@) == Some(r->0@),
{
    if starts_with(s, prefix) {
        let n: usize = s.unicode_len();
        let m: usize = prefix.unicode_len();
        assert(s@.subrange(m as int, n as int) =~= s@.skip(m as int));
        Some(s.substring_char(m, n))
    } else {
        None
    }
}

/// `s` with every occurrence of `pattern`, read from the left and not overlapping, replaced by
/// `with`.
pub open spec fn replaced(s: Seq<char>, pattern: Seq<char>, with: Seq<char>) -> Seq<char>
    decreases s.len(),
{
    if s.len() == 0 || pattern.len() == 0 {
        s
    } else if pattern.is_prefix_of(s) {
        with + replaced(s.skip(pattern.len() as int), pattern, with)
    } else {
        seq![s[0]] + replaced(s.drop_first(), pattern, with)
    }
}

/// Replaces every occurrence of a non-empty `pattern` by `with`.
pub fn replace(s: &str, pattern: &str, with: &str) -> (r: String)
    requires
        pattern@.len() > 0,
    ensures
        r@ == replaced(s@, pattern@, with@),
{
    let chars = chars_of(s);
    let wanted = chars_of(pattern);
    let n: usize = chars.len();
    let mut r = String::new();
    let mut i: usize = 0;
    assert(s@.skip(0) =~= s@);
    assert(r@ + replaced(s@, pattern@, with@) =~= replaced(s@, pattern@, with@));
    while i < n
        invariant
            i <= n == chars@.len(),
            chars@ == s@,
            wanted@ == pattern@,
            pattern@.len() > 0,
            r@ + replaced(s@.skip(i as int), pattern@, with@) == replaced(s@, pattern@, with@),
        decreases n - i,
    {
        let ghost rest = s@.skip(i as int);
        let ghost before = r@;
        if matches_at(&chars, &wanted, i) {
            assert(s@.subrange(i as int, i + pattern@.len()) =~= rest.subrange(
                0,
                pattern@.len() as int,
            ));
            assert(pattern@.is_prefix_of(rest));
            r.append(with);
            i += wanted.len();
            assert(rest.skip(pattern@.len() as int) =~= s@.skip(i as int));
            assert(r@ + replaced(s@.skip(i as int), pattern@, with@) =~= before + (with@
                + replaced(s@.skip(i as int), pattern@, with@)));
        } else {
            assert(!pattern@.is_prefix_of(rest)) by {
                if pattern@.is_prefix_of(rest) {
                    assert(s@.subrange(i as int, i + pattern@.len()) =~= rest.subrange(
                        0,
                        pattern@.len() as int,
                    ));
                }
            }
            r.push(chars[i]);
            i += 1;
            assert(rest.drop_first() =~= s@.skip(i as int));
            assert(r@ + replaced(s@.skip(i as int), pattern@, with@) =~= before + (seq![rest[0]]
                + replaced(s@.skip(i as int), pattern@, with@)));
        }
    }
    assert(s@.skip(n as int) =~= Seq::<char>::empty());
    assert(r@ =~= replaced(s@, pattern@, with@));
    r
}

/// The position of the first line feed of `s`, or the length of `s` if it has none.
pub open spec fn line_end(s: Seq<char>) -> int
    decreases s.len(),
{
    if s.len() == 0 || s[0] == '\n' {
        0
    } else {
        1 + line_end(s.drop_first())
    }
}

/// A line without the carriage return that belongs to its line ending.
pub open spec fn without_return(line: Seq<char>) -> Seq<char> {
    if line.len() > 0 && line.last() == '\r' {
        line.drop_last()
    } else {
        line
    }
}

/// The lines of `s`. A line ends with a line feed, or with a carriage return and a line feed,
/// which are no part of it; the last line may go without.
pub open spec fn lines_of(s: Seq<char>) -> Seq<Seq<char>>
    decreases s.len(),
{
    if s.len() == 0 {
        seq![]
    } else if 0 <= line_end(s) < s.len() {
        seq![without_return(s.take(line_end(s)))] + lines_of(s.skip(line_end(s) + 1))
    } else {
        seq![s]
    }
}

/// Splits `s` into its lines.
pub fn lines(s: &str) -> (r: Vec<String>)
    ensures
        texts(r@) == lines_of(s@),
{
    let chars = chars_of(s);
    let n: usize = chars.len();
    let mut r: Vec<String> = Vec::new();
    let mut start: usize = 0;
    assert(s@.skip(0) =~= s@);
    assert(texts(r@) + lines_of(s@) =~= lines_of(s@));
    while start < n
        invariant
            start <= n == chars@.len(),
            chars@ == s@,
            texts(r@) + lines_of(s@.skip(start as int)) == lines_of(s@),
        decreases n - start,
    {
        let ghost rest = s@.skip(start as int);
        let ghost before = texts(r@);
        let ghost old_r = r@;
        let mut end: usize = start;
        assert(rest.skip(0) =~= rest);
        while end < n && chars[end] != '\n'
            invariant
                start <= end <= n == chars@.len(),
                chars@ == s@,
                rest == s@.skip(start as int),
                line_end(rest) == end - start + line_end(rest.skip(end - start)),
            decreases n - end,
        {
            assert(rest.skip(end - start).drop_first() =~= rest.skip(end + 1 - start));
            end += 1;
        }
        assert(line_end(rest) == end - start);
        if end < n {
            let mut stop: usize = end;
            if stop > start && chars[stop - 1] == '\r' {
                stop -= 1;
            }
            let line = string_of(&chars, start, stop);
            assert(line@ =~= without_return(rest.take(line_end(rest))));
            r.push(line);
            start = end + 1;
            assert(rest.skip(line_end(rest) + 1) =~= s@.skip(start as int));
            assert(texts(r@) =~= before.push(line@));
            assert(texts(r@) + lines_of(s@.skip(start as int)) =~= before + (seq![line@]
                + lines_of(s@.skip(start as int))));
        } else {
            let line = string_of(&chars, start, n);
            assert(line@ =~= rest);
            r.push(line);
            assert(texts(r@) =~= before + seq![rest]);
            start = n;
            assert(s@.skip(n as int) =~= Seq::<char>::empty());
            assert(texts(r@) + lines_of(s@.skip(start as int)) =~= texts(r@));
        }
    }
    assert(s@.skip(n as int) =~= Seq::<char>::empty());
    assert(texts(r@) =~= lines_of(s@));
    r
}

/// The texts of `parts`, with `separator` between each two.
pub open spec fn joined(parts: Seq<Seq<char>>, separator: Seq<char>) -> Seq<char>
    decreases parts.len(),
{
    if parts.len() == 0 {
        seq![]
    } else if parts.len() == 1 {
        parts[0]
    } else {
        joined(parts.drop_last(), separator) + separator + parts.last()
    }
}

/// Writes the texts of `parts` one after another, with `separator` between each two.
pub fn join(parts: &Vec<String>, separator: &str) -> (r: String)
    ensures
        r@ == joined(texts(parts@), separator@),
{
    let mut r = String::new();
    let mut i: usize = 0;
    while i < parts.len()
        invariant
            i <= parts@.len(),
            r@ == joined(texts(parts@).take(i as int), separator@),
        decreases parts@.len() - i,
    {
        if i > 0 {
            r.append(separator);
        }
        r.append(parts[i].as_str());
        i += 1;
        assert(texts(parts@).take(i as int).drop_last() =~= texts(parts@).take(i - 1));
        assert(r@ =~= joined(texts(parts@).take(i as int), separator@));
    }
    assert(texts(parts@).take(i as int) =~= texts(parts@));
    r
}

/// Whether one of the strings holds the text `s`.
pub fn list_contains(list: &Vec<String>, s: &str) -> (r: bool)
    ensures
        r == texts(list@).contains(s@),
{
    let wanted = s.to_owned();
    let mut i: usize = 0;
    while i < list.len()
        invariant
            i <= list@.len(),
            wanted@ == s@,
            forall|j: int| 0 <= j < i ==> #[trigger] texts(list@)[j] != s@,
        decreases list@.len() - i,
    {
        if list[i] == wanted {
            assert(texts(list@)[i as int] == s@);
            return true;
        }
        i += 1;
    }
    false
}

pub(crate) proof fn lemma_trim_start_of(front: Seq<char>, core: Seq<char>)
    requires
        forall|i: int| 0 <= i < front.len() ==> white_space(#[trigger] front[i]),
        core.len() > 0 ==> !white_space(core[0]),
    ensures
        trimmed_start(front + core) == core,
    decreases front.len(),
{
    let s = front + core;
    if front.len() == 0 {
        assert(s =~= core);
    } else {
        assert(s[0] == front[0]);
        assert(s.drop_first() =~= front.drop_first() + core);
        lemma_trim_start_of(front.drop_first(), core);
    }
}

proof fn lemma_trim_end_of(core: Seq<char>, back: Seq<char>)
    requires
        forall|i: int| 0 <= i < back.len() ==> white_space(#[trigger] back[i]),
        core.len() > 0 ==> !white_space(core.last()),
    ensures
        trimmed_end(core + back) == core,
    decreases back.len(),
{
    let s = core + back;
    if back.len() == 0 {
        assert(s =~= core);
    } else {
        assert(s.last() == back.last());
        assert(s.drop_last() =~= core + back.drop_last());
        lemma_trim_end_of(core, back.drop_last());
    }
}

/// Trimming takes the white space off both ends of a text, and nothing else.
pub proof fn trimming_leaves_the_core(front: Seq<char>, core: Seq<char>, back: Seq<char>)
    requires
        forall|i: int| 0 <= i < front.len() ==> white_space(#[trigger] front[i]),
        forall|i: int| 0 <= i < back.len() ==> white_space(#[trigger] back[i]),
        core.len() > 0 ==> !white_space(core[0]) && !white_space(core.last()),
    ensures
        trimmed(front + core + back) == core,
        trimmed_start(front + core) == core,
        trimmed_end(core + back) == core,
{
    lemma_trim_start_of(front, core);
    lemma_trim_end_of(core, back);
    if core.len() > 0 {
        lemma_trim_start_of(front, core + back);
        assert(front + core + back =~= front + (core + back));
    } else {
        let all = front + back;
        assert(front + core + back =~= all + Seq::<char>::empty());
        assert forall|i: int| 0 <= i < all.len() implies white_space(#[trigger] all[i]) by {
            if i < front.len() {
                assert(all[i] == front[i]);
            } else {
                assert(all[i] == back[i - front.len()]);
            }
        }
        lemma_trim_start_of(all, Seq::empty());
        assert(core =~= Seq::<char>::empty());
    }
}

/// White space is what Unicode calls so: the ASCII kinds, and the others one by one.
pub proof fn white_space_is_listed(c: char)
    ensures
        white_space(c) <==> {
            let n = c as int;
            9 <= n <= 13 || n == 32 || n == 0x85 || n == 0xa0 || n == 0x1680 || 0x2000 <= n
                <= 0x200a || n == 0x2028 || n == 0x2029 || n == 0x202f || n == 0x205f || n
                == 0x3000
        },
{
}

/// Lower case changes the ASCII capitals, each into the letter that stands for it, and keeps
/// everything else where it is.
pub proof fn lower_case_changes_capitals_only(s: Seq<char>)
    ensures
        lowered(s).len() == s.len(),
        forall|i: int|
            0 <= i < s.len() && 'A' <= s[i] && s[i] <= 'Z' ==> (#[trigger] lowered(s)[i]) as int
                == s[i] as int + 32,
        forall|i: int|
            0 <= i < s.len() && !('A' <= s[i] && s[i] <= 'Z') ==> (#[trigger] lowered(s)[i])
                == s[i],
{
}

/// A text occurs in another exactly where it is a contiguous part of it.
pub proof fn occurrence_is_a_part(s: Seq<char>, pattern: Seq<char>)
    ensures
        occurs_in(s, pattern) <==> exists|i: int, j: int|
            0 <= i <= j <= s.len() && #[trigger] s.subrange(i, j) == pattern,
{
    if occurs_in(s, pattern) {
        let i = choose|i: int| occurs_at(s, pattern, i);
        assert(s.subrange(i, i + pattern.len()) == pattern);
    }
    if exists|i: int, j: int| 0 <= i <= j <= s.len() && #[trigger] s.subrange(i, j) == pattern {
        let (i, j) = choose|i: int, j: int|
            0 <= i <= j <= s.len() && #[trigger] s.subrange(i, j) == pattern;
        assert(j == i + pattern.len());
        assert(occurs_at(s, pattern, i));
    }
}

/// A text occurs in whatever it is put into.
pub proof fn parts_occur(front: Seq<char>, pattern: Seq<char>, back: Seq<char>)
    ensures
        occurs_in(front + pattern + back, pattern),
{
    let s = front + pattern + back;
    assert(s.subrange(front.len() as int, front.len() as int + pattern.len()) =~= pattern);
    assert(occurs_at(s, pattern, front.len() as int));
}

/// The first occurrence is replaced, what stands before it is kept, and what stands behind it is
/// treated alike.
pub proof fn first_occurrence_is_replaced(
    front: Seq<char>,
    pattern: Seq<char>,
    back: Seq<char>,
    with: Seq<char>,
)
    requires
        pattern.len() > 0,
        forall|i: int|
            0 <= i < front.len() ==> #[trigger] (front + pattern + back).subrange(
                i,
                i + pattern.len(),
            ) != pattern,
    ensures
        replaced(front + pattern + back, pattern, with) == front + with + replaced(
            back,
            pattern,
            with,
        ),
    decreases front.len(),
{
    let s = front + pattern + back;
    let rest = replaced(back, pattern, with);
    if front.len() == 0 {
        assert(s.subrange(0, pattern.len() as int) =~= pattern);
        assert(pattern.is_prefix_of(s));
        assert(s.skip(pattern.len() as int) =~= back);
        assert(front + with + rest =~= with + rest);
    } else {
        assert(s.subrange(0, 0int + pattern.len()) != pattern);
        assert(!pattern.is_prefix_of(s));
        let shorter = front.drop_first();
        let tail = shorter + pattern + back;
        assert(s.drop_first() =~= tail);
        assert forall|i: int| 0 <= i < shorter.len() implies #[trigger] tail.subrange(
            i,
            i + pattern.len(),
        ) != pattern by {
            assert(tail.subrange(i, i + pattern.len()) =~= s.subrange(
                i + 1,
                i + 1 + pattern.len(),
            ));
        }
        first_occurrence_is_replaced(shorter, pattern, back, with);
        assert(seq![s[0]] + (shorter + with + rest) =~= front + with + rest);
    }
}

/// A text without an occurrence stays as it is.
pub proof fn nothing_is_replaced_without_occurrence(
    s: Seq<char>,
    pattern: Seq<char>,
    with: Seq<char>,
)
    requires
        forall|i: int|
            0 <= i <= s.len() - pattern.len() ==> #[trigger] s.subrange(i, i + pattern.len())
                != pattern,
    ensures
        replaced(s, pattern, with) == s,
    decreases s.len(),
{
    if s.len() > 0 && pattern.len() > 0 {
        if pattern.is_prefix_of(s) {
            assert(s.subrange(0, 0int + pattern.len()) == pattern);
        }
        let tail = s.drop_first();
        assert forall|i: int| 0 <= i <= tail.len() - pattern.len() implies #[trigger] tail.subrange(
            i,
            i + pattern.len(),
        ) != pattern by {
            assert(tail.subrange(i, i + pattern.len()) =~= s.subrange(
                i + 1,
                i + 1 + pattern.len(),
            ));
        }
        nothing_is_replaced_without_occurrence(tail, pattern, with);
        assert(seq![s[0]] + tail =~= s);
    }
}

proof fn lemma_line_end(line: Seq<char>, rest: Seq<char>)
    requires
        forall|i: int| 0 <= i < line.len() ==> #[trigger] line[i] != '\n',
        rest.len() > 0 ==> rest[0] == '\n',
    ensures
        line_end(line + rest) == line.len(),
    decreases line.len(),
{
    let s = line + rest;
    if line.len() > 0 {
        assert(s[0] == line[0]);
        assert(s.drop_first() =~= line.drop_first() + rest);
        lemma_line_end(line.drop_first(), rest);
    }
}

/// The lines of a text are what stands before its line feeds, one after another, each without one
/// carriage return at its end; a last line goes without a line feed.
pub proof fn lines_end_with_line_feeds(line: Seq<char>, rest: Seq<char>)
    requires
        forall|i: int| 0 <= i < line.len() ==> #[trigger] line[i] != '\n',
    ensures
        line.len() > 0 && line.last() == '\r' ==> lines_of(line + seq!['\n'] + rest) == seq![
            line.drop_last(),
        ] + lines_of(rest),
        !(line.len() > 0 && line.last() == '\r') ==> lines_of(line + seq!['\n'] + rest) == seq![
            line,
        ] + lines_of(rest),
        line.len() > 0 ==> lines_of(line) == seq![line],
        lines_of(Seq::empty()) == Seq::<Seq<char>>::empty(),
{
    let s = line + seq!['\n'] + rest;
    assert(s =~= line + (seq!['\n'] + rest));
    lemma_line_end(line, seq!['\n'] + rest);
    assert(s.take(line.len() as int) =~= line);
    assert(s.skip(line.len() as int + 1) =~= rest);
    lemma_line_end(line, Seq::empty());
    assert(line + Seq::<char>::empty() =~= line);
}

/// Joined lists are joined by the separator.
pub proof fn joining_puts_the_separator_between(
    a: Seq<Seq<char>>,
    b: Seq<Seq<char>>,
    separator: Seq<char>,
)
    requires
        a.len() > 0,
        b.len() > 0,
    ensures
        joined(a + b, separator) == joined(a, separator) + separator + joined(b, separator),
        a.len() == 1 ==> joined(a, separator) == a[0],
        joined(Seq::empty(), separator) == Seq::<char>::empty(),
    decreases b.len(),
{
    let all = a + b;
    assert(all.last() == b.last());
    assert(all.drop_last() =~= a + b.drop_last());
    if b.len() == 1 {
        assert(a + b.drop_last() =~= a);
    } else {
        joining_puts_the_separator_between(a, b.drop_last(), separator);
        let front = joined(a, separator);
        let middle = joined(b.drop_last(), separator);
        assert(front + separator + middle + separator + b.last() =~= front + separator + (middle
            + separator + b.last()));
    }
}

/// What follows a prefix is the rest of the text, and there is nothing to follow it elsewhere.
pub proof fn rest_follows_the_prefix(prefix: Seq<char>, rest: Seq<char>, other: Seq<char>)
    ensures
        after_prefix(prefix + rest, prefix) == Some(rest),
        after_prefix(other, prefix) matches Some(found) ==> other == prefix + found,
{
    let s = prefix + rest;
    assert(s.subrange(0, prefix.len() as int) =~= prefix);
    assert(s.skip(prefix.len() as int) =~= rest);
    if let Some(found) = after_prefix(other, prefix) {
        assert(other =~= prefix + found);
    }
}

/// The texts of a list of strings are those of its strings, each in its place.
pub proof fn texts_are_those_of_the_strings(v: Seq<String>, i: int)
    requires
        0 <= i < v.len(),
    ensures
        texts(v).len() == v.len(),
        texts(v)[i] == v[i]@,
{
}

} // verus!
