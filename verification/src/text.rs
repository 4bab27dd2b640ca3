//! Text primitives: splitting, joining, searching and trimming over the
//! characters of a string.
use vstd::prelude::*;

verus! {

/// The position of the first `c` in `s`, or the length of `s` if there is none.
pub open spec fn first_index(s: Seq<char>, c: char) -> int
    decreases s.len(),
{
    if s.len() == 0 {
        0
    } else if s[0] == c {
        0
    } else {
        1 + first_index(s.drop_first(), c)
    }
}

/// The parts of `s` between its occurrences of `c`; there is always at least one.
pub open spec fn split(s: Seq<char>, c: char) -> Seq<Seq<char>>
    decreases s.len(),
{
    let i = first_index(s, c);
    if 0 <= i < s.len() {
        seq![s.take(i)] + split(s.skip(i + 1), c)
    } else {
        seq![s]
    }
}

/// The parts one after the other, with `sep` between neighbours.
pub open spec fn join(parts: Seq<Seq<char>>, sep: Seq<char>) -> Seq<char>
    decreases parts.len(),
{
    if parts.len() == 0 {
        Seq::empty()
    } else if parts.len() == 1 {
        parts[0]
    } else {
        parts[0] + sep + join(parts.drop_first(), sep)
    }
}

/// `s` without the `c`s that it starts with.
pub open spec fn trim_start(s: Seq<char>, c: char) -> Seq<char>
    decreases s.len(),
{
    if s.len() > 0 && s[0] == c {
        trim_start(s.drop_first(), c)
    } else {
        s
    }
}

/// What follows `prefix` in `s`, if `s` starts with it.
pub open spec fn after_prefix(s: Seq<char>, prefix: Seq<char>) -> Option<Seq<char>> {
    if prefix.is_prefix_of(s) {
        Some(s.skip(prefix.len() as int))
    } else {
        None
    }
}

/// Where `pattern` first occurs in `s`.
pub open spec fn first_match(s: Seq<char>, pattern: Seq<char>) -> Option<int>
    decreases s.len(),
{
    if pattern.is_prefix_of(s) {
        Some(0)
    } else if s.len() == 0 {
        None
    } else {
        match first_match(s.drop_first(), pattern) {
            Some(i) => Some(i + 1),
            None => None,
        }
    }
}

/// The views of a list of string slices.
pub open spec fn views(parts: Seq<&str>) -> Seq<Seq<char>> {
    parts.map_values(|p: &str| p@)
}

/// The views of a list of strings.
pub open spec fn string_views(parts: Seq<String>) -> Seq<Seq<char>> {
    parts.map_values(|p: String| p@)
}

pub proof fn lemma_first_index(s: Seq<char>, c: char)
    ensures
        0 <= first_index(s, c) <= s.len(),
        first_index(s, c) < s.len() ==> s[first_index(s, c)] == c,
        forall|j: int| 0 <= j < first_index(s, c) ==> s[j] != c,
    decreases s.len(),
{
    if s.len() > 0 && s[0] != c {
        let rest = s.drop_first();
        lemma_first_index(rest, c);
        assert forall|j: int| 0 <= j < first_index(s, c) implies s[j] != c by {
            if j > 0 {
                assert(rest[j - 1] == s[j]);
            }
        }
    }
}

/// Whatever lies before its first `c` is found again as the first index.
pub proof fn lemma_first_index_unique(s: Seq<char>, c: char, i: int)
    requires
        0 <= i <= s.len(),
        i < s.len() ==> s[i] == c,
        forall|j: int| 0 <= j < i ==> s[j] != c,
    ensures
        first_index(s, c) == i,
{
    lemma_first_index(s, c);
    let k = first_index(s, c);
    if k < i {
        assert(s[k] != c);
    } else if i < k {
        assert(s[i] != c);
    }
}

/// A text without `c` is its only part.
pub proof fn lemma_split_single(s: Seq<char>, c: char)
    requires
        !s.contains(c),
    ensures
        split(s, c) == seq![s],
{
    assert forall|j: int| 0 <= j < s.len() implies s[j] != c by {
        assert(s.contains(s[j]));
    }
    lemma_first_index_unique(s, c, s.len() as int);
}

/// What lies before the first `c` is the first part.
pub proof fn lemma_split_first(head: Seq<char>, c: char, rest: Seq<char>)
    requires
        !head.contains(c),
    ensures
        first_index(head + seq![c] + rest, c) == head.len(),
        split(head + seq![c] + rest, c) == seq![head] + split(rest, c),
{
    let s = head + seq![c] + rest;
    assert forall|j: int| 0 <= j < head.len() implies s[j] != c by {
        assert(s[j] == head[j]);
        assert(head.contains(head[j]));
    }
    lemma_first_index_unique(s, c, head.len() as int);
    assert(s.take(head.len() as int) =~= head);
    assert(s.skip(head.len() as int + 1) =~= rest);
}

/// No part of a text holds the character it was split at.
pub proof fn lemma_split_parts(s: Seq<char>, c: char)
    ensures
        split(s, c).len() > 0,
        forall|i: int| 0 <= i < split(s, c).len() ==> !(#[trigger] split(s, c)[i]).contains(c),
    decreases s.len(),
{
    lemma_first_index(s, c);
    let k = first_index(s, c);
    if k < s.len() {
        lemma_split_parts(s.skip(k + 1), c);
        assert forall|i: int| 0 <= i < split(s, c).len() implies !(#[trigger] split(s, c)[i]).contains(
            c,
        ) by {
            if i == 0 {
                assert(split(s, c)[0] == s.take(k));
            } else {
                assert(split(s, c)[i] == split(s.skip(k + 1), c)[i - 1]);
            }
        }
    }
}

/// Splitting what was joined with `c` gives back the parts.
pub proof fn lemma_split_join(parts: Seq<Seq<char>>, c: char)
    requires
        parts.len() > 0,
        forall|i: int| 0 <= i < parts.len() ==> !(#[trigger] parts[i]).contains(c),
    ensures
        split(join(parts, seq![c]), c) == parts,
    decreases parts.len(),
{
    if parts.len() == 1 {
        lemma_split_single(parts[0], c);
        assert(parts =~= seq![parts[0]]);
    } else {
        let rest = parts.drop_first();
        assert forall|i: int| 0 <= i < rest.len() implies !(#[trigger] rest[i]).contains(c) by {
            assert(rest[i] == parts[i + 1]);
        }
        lemma_split_join(rest, c);
        lemma_split_first(parts[0], c, join(rest, seq![c]));
        assert(seq![parts[0]] + rest =~= parts);
    }
}

/// A joined text holds a character only if the separator or a part does.
pub proof fn lemma_join_contains(parts: Seq<Seq<char>>, sep: Seq<char>, c: char)
    requires
        !sep.contains(c),
        forall|i: int| 0 <= i < parts.len() ==> !(#[trigger] parts[i]).contains(c),
    ensures
        !join(parts, sep).contains(c),
    decreases parts.len(),
{
    if parts.len() > 1 {
        let rest = parts.drop_first();
        assert forall|i: int| 0 <= i < rest.len() implies !(#[trigger] rest[i]).contains(c) by {
            assert(rest[i] == parts[i + 1]);
        }
        lemma_join_contains(rest, sep, c);
        let s = join(parts, sep);
        if s.contains(c) {
            let k = choose|k: int| 0 <= k < s.len() && s[k] == c;
            if k < parts[0].len() {
                assert(parts[0][k] == c);
                assert(parts[0].contains(c));
            } else if k < parts[0].len() + sep.len() {
                assert(sep[k - parts[0].len()] == c);
            } else {
                assert(join(rest, sep)[k - parts[0].len() - sep.len()] == c);
            }
        }
    } else if parts.len() == 1 {
        assert(!parts[0].contains(c));
    }
}

/// A trimmed text does not start with what was trimmed, and is the end of
/// the text it came from.
pub proof fn lemma_trim_start(s: Seq<char>, c: char)
    ensures
        trim_start(s, c).len() > 0 ==> trim_start(s, c)[0] != c,
        trim_start(s, c).len() <= s.len(),
        trim_start(s, c) == s.skip(s.len() - trim_start(s, c).len()),
        trim_start(trim_start(s, c), c) == trim_start(s, c),
    decreases s.len(),
{
    if s.len() > 0 && s[0] == c {
        lemma_trim_start(s.drop_first(), c);
        let r = trim_start(s, c);
        assert(s.drop_first().skip(s.drop_first().len() - r.len()) =~= s.skip(s.len() - r.len()));
    } else {
        assert(s.skip(0) =~= s);
    }
}

/// Joining one more part puts a separator and the part behind what was joined.
pub proof fn lemma_join_push(items: Seq<Seq<char>>, item: Seq<char>, sep: Seq<char>)
    ensures
        items.len() == 0 ==> join(items.push(item), sep) == item,
        items.len() > 0 ==> join(items.push(item), sep) == join(items, sep) + sep + item,
    decreases items.len(),
{
    let more = items.push(item);
    if items.len() > 0 {
        lemma_join_push(items.drop_first(), item, sep);
        assert(more.drop_first() =~= items.drop_first().push(item));
        if items.len() == 1 {
            assert(join(more.drop_first(), sep) == item);
            assert(join(more, sep) =~= join(items, sep) + sep + item);
        } else {
            assert(join(more, sep) =~= join(items, sep) + sep + item);
        }
    }
}

/// The parts one after the other, with `sep` between neighbours.
pub fn join_texts(items: &Vec<String>, sep: &str) -> (r: String)
    ensures
        r@ == join(string_views(items@), sep@),
{
    let mut r = String::new();
    let mut i: usize = 0;
    while i < items.len()
        invariant
            i <= items.len(),
            r@ == join(string_views(items@).take(i as int), sep@),
        decreases items.len() - i,
    {
        let ghost done = string_views(items@).take(i as int);
        proof {
            lemma_join_push(done, items@[i as int]@, sep@);
            assert(string_views(items@).take(i + 1) =~= done.push(items@[i as int]@));
        }
        if i > 0 {
            r.append(sep);
        } else {
            assert(r@ =~= Seq::<char>::empty());
        }
        r.append(items[i].as_str());
        assert(r@ =~= join(string_views(items@).take(i + 1), sep@));
        i += 1;
    }
    assert(string_views(items@).take(i as int) =~= string_views(items@));
    r
}

/// The characters of a string slice.
pub fn to_chars(s: &str) -> (r: Vec<char>)
    ensures
        r@ == s@,
{
    let mut v: Vec<char> = Vec::new();
    for c in it: s.chars()
        invariant
            v@ == it.seq().take(it.index() as int),
            it.seq() == s@,
    {
        v.push(c);
    }
    v
}

/// Whether two string slices hold the same characters.
pub fn same_text(a: &str, b: &str) -> (r: bool)
    ensures
        r == (a@ == b@),
{
    let x = to_chars(a);
    let y = to_chars(b);
    if x.len() != y.len() {
        return false;
    }
    let mut i: usize = 0;
    while i < x.len()
        invariant
            x.len() == y.len(),
            i <= x.len(),
            x@ == a@,
            y@ == b@,
            forall|j: int| 0 <= j < i ==> x@[j] == y@[j],
        decreases x.len() - i,
    {
        if x[i] != y[i] {
            assert(a@[i as int] != b@[i as int]);
            return false;
        }
        i += 1;
    }
    assert(x@ =~= y@);
    true
}

/// Splits at the first `c`: what lies before it and what lies behind it.
pub fn split_once<'a>(s: &'a str, c: char) -> (r: Option<(&'a str, &'a str)>)
    ensures
        match r {
            Some((before, behind)) => {
                let i = first_index(s@, c);
                &&& 0 <= i < s@.len()
                &&& before@ == s@.take(i)
                &&& behind@ == s@.skip(i + 1)
            },
            None => first_index(s@, c) == s@.len(),
        },
{
    let chars = to_chars(s);
    let n = chars.len();
    let mut i: usize = 0;
    while i < n && chars[i] != c
        invariant
            n == chars.len(),
            i <= n,
            chars@ == s@,
            forall|j: int| 0 <= j < i ==> s@[j] != c,
        decreases n - i,
    {
        i += 1;
    }
    proof {
        lemma_first_index_unique(s@, c, i as int);
    }
    if i < n {
        let before = s.substring_char(0, i);
        let behind = s.substring_char(i + 1, n);
        assert(before@ =~= s@.take(i as int));
        assert(behind@ =~= s@.skip(i + 1));
        Some((before, behind))
    } else {
        None
    }
}

/// All the parts between the `c`s of a string slice, in order.
pub fn split_at_char<'a>(s: &'a str, c: char) -> (r: Vec<&'a str>)
    ensures
        views(r@) == split(s@, c),
{
    let mut parts: Vec<&'a str> = Vec::new();
    let mut rest: &'a str = s;
    loop
        invariant
            views(parts@) + split(rest@, c) == split(s@, c),
        decreases rest@.len(),
    {
        match split_once(rest, c) {
            Some((before, behind)) => {
                let ghost old_parts = parts@;
                parts.push(before);
                proof {
                    assert(views(parts@) =~= views(old_parts).push(before@));
                    assert(split(rest@, c) =~= seq![before@] + split(behind@, c));
                    assert(views(parts@) + split(behind@, c) =~= views(old_parts) + split(rest@, c));
                }
                rest = behind;
            },
            None => {
                let ghost old_parts = parts@;
                parts.push(rest);
                proof {
                    assert(views(parts@) =~= views(old_parts).push(rest@));
                    assert(split(rest@, c) =~= seq![rest@]);
                    assert(views(parts@) =~= views(old_parts) + split(rest@, c));
                }
                return parts;
            },
        }
    }
}

/// What follows a prefix, if the string slice starts with it.
pub fn strip_prefix<'a>(s: &'a str, prefix: &str) -> (r: Option<&'a str>)
    ensures
        match r {
            Some(rest) => after_prefix(s@, prefix@) == Some(rest@),
            None => after_prefix(s@, prefix@) is None,
        },
{
    let chars = to_chars(s);
    let wanted = to_chars(prefix);
    let n = chars.len();
    let m = wanted.len();
    if n < m {
        return None;
    }
    let head = s.substring_char(0, m);
    if same_text(head, prefix) {
        assert(s@.take(m as int) =~= prefix@);
        assert(prefix@.is_prefix_of(s@));
        let rest = s.substring_char(m, n);
        assert(rest@ =~= s@.skip(m as int));
        Some(rest)
    } else {
        assert(s@.take(m as int) == head@);
        None
    }
}

/// What lies before the first occurrence of a pattern, if there is one.
pub fn before_match<'a>(s: &'a str, pattern: &str) -> (r: Option<&'a str>)
    ensures
        match r {
            Some(before) => first_match(s@, pattern@) is Some && before@ == s@.take(
                first_match(s@, pattern@)->0,
            ),
            None => first_match(s@, pattern@) is None,
        },
{
    let n = s.unicode_len();
    let mut i: usize = 0;
    assert(s@.skip(0) =~= s@);
    loop
        invariant
            n == s@.len(),
            i <= n,
            first_match(s@, pattern@) == match first_match(s@.skip(i as int), pattern@) {
                Some(k) => Some(k + i),
                None => None,
            },
        decreases n - i,
    {
        let rest = s.substring_char(i, n);
        assert(rest@ =~= s@.skip(i as int));
        if strip_prefix(rest, pattern).is_some() {
            let before = s.substring_char(0, i);
            assert(before@ =~= s@.take(i as int));
            return Some(before);
        }
        if i == n {
            return None;
        }
        assert(s@.skip(i as int).drop_first() =~= s@.skip(i + 1));
        i += 1;
    }
}

/// The string slice without the `c`s that it starts with.
pub fn trim_start_char<'a>(s: &'a str, c: char) -> (r: &'a str)
    ensures
        r@ == trim_start(s@, c),
{
    let chars = to_chars(s);
    let n = chars.len();
    let mut i: usize = 0;
    assert(s@.skip(0) =~= s@);
    while i < n && chars[i] == c
        invariant
            n == chars.len(),
            i <= n,
            chars@ == s@,
            trim_start(s@.skip(i as int), c) == trim_start(s@, c),
        decreases n - i,
    {
        assert(s@.skip(i as int).drop_first() =~= s@.skip(i + 1));
        i += 1;
    }
    let r = s.substring_char(i, n);
    assert(r@ =~= s@.skip(i as int));
    r
}

} // verus!
