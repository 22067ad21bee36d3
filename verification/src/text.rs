//! Text as a sequence of characters: the vocabulary that the contracts of the
//! other modules are written in, and the functions that compute it.

use vstd::prelude::*;

verus! {

/// `String::push` appends the given character to the end of the string.
pub assume_specification[ String::push ](s: &mut String, c: char)
    ensures
        final(s)@ == old(s)@.push(c),
;

/// `s` begins with `p`.
pub open spec fn starts(s: Seq<char>, p: Seq<char>) -> bool {
    p.len() <= s.len() && s.take(p.len() as int) == p
}

/// `s` holds `needle` somewhere.
pub open spec fn holds(s: Seq<char>, needle: Seq<char>) -> bool {
    exists|i: int| 0 <= i <= s.len() && starts(#[trigger] s.skip(i), needle)
}

/// The place of the first `c` in `s`, or the length of `s` where there is none.
pub open spec fn first_of(s: Seq<char>, c: char) -> int
    decreases s.len(),
{
    if s.len() == 0 || s[0] == c {
        0
    } else {
        1 + first_of(s.skip(1), c)
    }
}

/// The two sides of the first `c` in `s`, without it.
pub open spec fn cut(s: Seq<char>, c: char) -> Option<(Seq<char>, Seq<char>)> {
    let k = first_of(s, c);
    if k < s.len() {
        Some((s.take(k), s.skip(k + 1)))
    } else {
        None
    }
}

/// The characters with the Unicode property `White_Space`.
pub open spec fn is_white(c: char) -> bool {
    ||| '\u{9}' <= c <= '\u{d}'
    ||| c == '\u{20}'
    ||| c == '\u{85}'
    ||| c == '\u{a0}'
    ||| c == '\u{1680}'
    ||| '\u{2000}' <= c <= '\u{200a}'
    ||| c == '\u{2028}'
    ||| c == '\u{2029}'
    ||| c == '\u{202f}'
    ||| c == '\u{205f}'
    ||| c == '\u{3000}'
}

/// `s` without the white space that it begins with.
pub open spec fn skip_white(s: Seq<char>) -> Seq<char>
    decreases s.len(),
{
    if s.len() > 0 && is_white(s[0]) {
        skip_white(s.skip(1))
    } else {
        s
    }
}

/// `s` without the white space that it ends with.
pub open spec fn drop_white(s: Seq<char>) -> Seq<char>
    decreases s.len(),
{
    if s.len() > 0 && is_white(s.last()) {
        drop_white(s.drop_last())
    } else {
        s
    }
}

/// `s` without white space at either end.
pub open spec fn trimmed(s: Seq<char>) -> Seq<char> {
    drop_white(skip_white(s))
}

/// `s` without the run of `c` that it begins with.
pub open spec fn skip_char(s: Seq<char>, c: char) -> Seq<char>
    decreases s.len(),
{
    if s.len() > 0 && s[0] == c {
        skip_char(s.skip(1), c)
    } else {
        s
    }
}

/// `s` without the run of `c` that it ends with.
pub open spec fn drop_char(s: Seq<char>, c: char) -> Seq<char>
    decreases s.len(),
{
    if s.len() > 0 && s.last() == c {
        drop_char(s.drop_last(), c)
    } else {
        s
    }
}

/// The first `n` characters of `s`, or all of them where there are fewer.
pub open spec fn at_most(s: Seq<char>, n: int) -> Seq<char> {
    if s.len() <= n {
        s
    } else {
        s.take(n)
    }
}

/// A line without the carriage return that belongs to its line ending.
pub open spec fn chomped(line: Seq<char>) -> Seq<char> {
    if line.len() > 0 && line.last() == '\r' {
        line.drop_last()
    } else {
        line
    }
}

/// The lines of `s`. A line ends in `\n` or `\r\n`, which is not part of it;
/// the last line may lack its ending, and then keeps a `\r`.
pub open spec fn lines_of(s: Seq<char>) -> Seq<Seq<char>>
    decreases s.len(),
    via lines_of_shrinks
{
    if s.len() == 0 {
        Seq::empty()
    } else {
        let k = first_of(s, '\n');
        if k < s.len() {
            seq![chomped(s.take(k))] + lines_of(s.skip(k + 1))
        } else {
            seq![s]
        }
    }
}

#[via_fn]
proof fn lines_of_shrinks(s: Seq<char>) {
    lemma_first_of(s, '\n');
}

/// One decimal digit.
pub open spec fn digit(d: int) -> char {
    if d == 0 {
        '0'
    } else if d == 1 {
        '1'
    } else if d == 2 {
        '2'
    } else if d == 3 {
        '3'
    } else if d == 4 {
        '4'
    } else if d == 5 {
        '5'
    } else if d == 6 {
        '6'
    } else if d == 7 {
        '7'
    } else if d == 8 {
        '8'
    } else {
        '9'
    }
}

/// `n` written in decimal, without leading zeros.
pub open spec fn decimal(n: int) -> Seq<char>
    decreases n,
{
    if n < 10 {
        seq![digit(n)]
    } else {
        decimal(n / 10).push(digit(n % 10))
    }
}

/// `a` comes before `b` in the order of their characters, left to right.
pub open spec fn precedes(a: Seq<char>, b: Seq<char>) -> bool
    decreases a.len(),
{
    if b.len() == 0 {
        false
    } else if a.len() == 0 {
        true
    } else if a[0] == b[0] {
        precedes(a.skip(1), b.skip(1))
    } else {
        a[0] < b[0]
    }
}

/// The texts that a list of strings holds.
pub open spec fn texts(v: Seq<String>) -> Seq<Seq<char>> {
    v.map_values(|s: String| s@)
}

/// The texts that a list of pairs of strings holds.
pub open spec fn pairs(v: Seq<(String, String)>) -> Seq<(Seq<char>, Seq<char>)> {
    v.map_values(|p: (String, String)| (p.0@, p.1@))
}

/// The text of a string that may be missing.
pub open spec fn text_of(s: Option<String>) -> Option<Seq<char>> {
    match s {
        Some(t) => Some(t@),
        None => None,
    }
}

/// What [`first_of`] finds is the first of its kind.
pub proof fn lemma_first_of(s: Seq<char>, c: char)
    ensures
        0 <= first_of(s, c) <= s.len(),
        first_of(s, c) < s.len() ==> s[first_of(s, c)] == c,
        forall|i: int| 0 <= i < first_of(s, c) ==> s[i] != c,
    decreases s.len(),
{
    if s.len() > 0 && s[0] != c {
        lemma_first_of(s.skip(1), c);
        assert forall|i: int| 0 <= i < first_of(s, c) implies s[i] != c by {
            if i > 0 {
                assert(s.skip(1)[i - 1] == s[i]);
            }
        }
    }
}

/// Whatever comes first is what [`first_of`] finds.
pub proof fn lemma_first_of_is(s: Seq<char>, c: char, k: int)
    requires
        0 <= k <= s.len(),
        k < s.len() ==> s[k] == c,
        forall|i: int| 0 <= i < k ==> s[i] != c,
    ensures
        first_of(s, c) == k,
{
    lemma_first_of(s, c);
}

/// What [`skip_white`] leaves does not begin with white space.
proof fn lemma_skip_white(s: Seq<char>)
    ensures
        skip_white(s).len() > 0 ==> !is_white(skip_white(s)[0]),
    decreases s.len(),
{
    if s.len() > 0 && is_white(s[0]) {
        lemma_skip_white(s.skip(1));
    }
}

/// What [`drop_white`] leaves does not end with white space, and begins as
/// before.
proof fn lemma_drop_white(s: Seq<char>)
    ensures
        drop_white(s).len() > 0 ==> !is_white(drop_white(s).last()) && drop_white(s)[0] == s[0],
        drop_white(s).len() <= s.len(),
    decreases s.len(),
{
    if s.len() > 0 && is_white(s.last()) {
        lemma_drop_white(s.drop_last());
    }
}

/// Trimming twice is trimming once.
pub proof fn lemma_trimmed_twice(s: Seq<char>)
    ensures
        trimmed(trimmed(s)) == trimmed(s),
{
    lemma_skip_white(s);
    lemma_drop_white(skip_white(s));
}

/// Dropping white space at the end takes away no more than white space.
proof fn lemma_drop_white_keeps(s: Seq<char>, n: int)
    requires
        0 < n <= s.len(),
        !is_white(s[n - 1]),
    ensures
        n <= drop_white(s).len() <= s.len(),
        drop_white(s) == s.take(drop_white(s).len() as int),
    decreases s.len(),
{
    if is_white(s.last()) {
        lemma_drop_white_keeps(s.drop_last(), n);
        let m = drop_white(s).len() as int;
        assert(s.drop_last().take(m) =~= s.take(m));
    } else {
        assert(s.take(s.len() as int) =~= s);
    }
}

/// A text that begins without white space is trimmed at its end alone, and not
/// into what is no white space.
pub proof fn lemma_trimmed_keeps(s: Seq<char>, n: int)
    requires
        0 < n <= s.len(),
        !is_white(s[0]),
        !is_white(s[n - 1]),
    ensures
        n <= trimmed(s).len() <= s.len(),
        trimmed(s) == s.take(trimmed(s).len() as int),
{
    lemma_drop_white_keeps(s, n);
}

/// The characters of `s`.
pub fn chars_of(s: &str) -> (out: Vec<char>)
    ensures
        out@ == s@,
{
    let mut out: Vec<char> = Vec::new();
    for c in it: s.chars()
        invariant
            it.seq() == s@,
            out@ == s@.take(it.index() as int),
    {
        out.push(c);
    }
    out
}

/// The characters of `v` from one place up to another.
pub fn text_between(v: &Vec<char>, from: usize, to: usize) -> (out: String)
    requires
        from <= to <= v@.len(),
    ensures
        out@ == v@.subrange(from as int, to as int),
{
    let mut out = String::new();
    let mut i: usize = from;
    while i < to
        invariant
            from <= i <= to <= v@.len(),
            out@ == v@.subrange(from as int, i as int),
        decreases to - i,
    {
        out.push(v[i]);
        i += 1;
    }
    out
}

/// Tells whether two texts are the same.
pub fn same_text(a: &str, b: &str) -> (r: bool)
    ensures
        r == (a@ == b@),
{
    a.to_owned() == b.to_owned()
}

/// Tells whether `v` begins with `p`.
pub fn starts_with(v: &Vec<char>, p: &Vec<char>) -> (r: bool)
    ensures
        r == starts(v@, p@),
{
    assert(v@.skip(0) =~= v@);
    starts_at(v, 0, p)
}

/// Tells whether `v` holds `p` at the place `at`.
pub fn starts_at(v: &Vec<char>, at: usize, p: &Vec<char>) -> (r: bool)
    requires
        at <= v@.len(),
    ensures
        r == starts(v@.skip(at as int), p@),
{
    if p.len() > v.len() - at {
        return false;
    }
    let mut i: usize = 0;
    while i < p.len()
        invariant
            at <= v@.len(),
            i <= p@.len() <= v.len() - at,
            forall|j: int| 0 <= j < i ==> v@[at + j] == p@[j],
        decreases p@.len() - i,
    {
        if v[at + i] != p[i] {
            assert(v@.skip(at as int).take(p@.len() as int)[i as int] != p@[i as int]);
            return false;
        }
        i += 1;
    }
    assert(v@.skip(at as int).take(p@.len() as int) =~= p@);
    true
}

/// Tells whether `v` holds `needle` somewhere.
pub fn contains(v: &Vec<char>, needle: &Vec<char>) -> (r: bool)
    ensures
        r == holds(v@, needle@),
{
    let mut i: usize = 0;
    while i < v.len()
        invariant
            i <= v@.len(),
            forall|j: int| 0 <= j < i ==> !starts(#[trigger] v@.skip(j), needle@),
        decreases v@.len() - i,
    {
        if starts_at(v, i, needle) {
            return true;
        }
        i += 1;
    }
    starts_at(v, i, needle)
}

/// The place of the first `c` in `v`, or the length of `v` where there is none.
pub fn find_char(v: &Vec<char>, c: char) -> (k: usize)
    ensures
        k == first_of(v@, c),
{
    assert(v@.skip(0) =~= v@);
    find_from(v, 0, c)
}

/// The place of the first `c` in `v` from `from` on, or the length of `v`.
pub fn find_from(v: &Vec<char>, from: usize, c: char) -> (k: usize)
    requires
        from <= v@.len(),
    ensures
        from <= k <= v@.len(),
        k == from + first_of(v@.skip(from as int), c),
{
    let mut i: usize = from;
    while i < v.len()
        invariant
            from <= i <= v@.len(),
            forall|j: int| from <= j < i ==> v@[j] != c,
        decreases v@.len() - i,
    {
        if v[i] == c {
            proof {
                lemma_first_of_is(v@.skip(from as int), c, i - from);
            }
            return i;
        }
        i += 1;
    }
    proof {
        lemma_first_of_is(v@.skip(from as int), c, i - from);
    }
    i
}

/// Tells whether `c` has the Unicode property `White_Space`.
pub fn white(c: char) -> (r: bool)
    ensures
        r == is_white(c),
{
    ('\u{9}' <= c && c <= '\u{d}') || c == '\u{20}' || c == '\u{85}' || c == '\u{a0}' || c
        == '\u{1680}' || ('\u{2000}' <= c && c <= '\u{200a}') || c == '\u{2028}' || c
        == '\u{2029}' || c == '\u{202f}' || c == '\u{205f}' || c == '\u{3000}'
}

/// `s` without white space at either end.
pub fn trim(s: &str) -> (out: String)
    ensures
        out@ == trimmed(s@),
{
    let v = chars_of(s);
    let mut from: usize = 0;
    assert(v@.skip(0) =~= v@);
    while from < v.len() && white(v[from])
        invariant
            from <= v@.len(),
            skip_white(v@.skip(from as int)) == skip_white(v@),
        decreases v@.len() - from,
    {
        assert(v@.skip(from as int).skip(1) =~= v@.skip(from + 1));
        from += 1;
    }
    let ghost rest = v@.skip(from as int);
    assert(skip_white(v@) == rest);
    let mut to: usize = v.len();
    assert(v@.subrange(from as int, to as int) =~= rest);
    while from < to && white(v[to - 1])
        invariant
            from <= to <= v@.len(),
            drop_white(v@.subrange(from as int, to as int)) == drop_white(rest),
        decreases to,
    {
        assert(v@.subrange(from as int, to as int).drop_last() =~= v@.subrange(
            from as int,
            to - 1,
        ));
        to -= 1;
    }
    text_between(&v, from, to)
}

/// `s` without the run of `c` that it begins with.
pub fn trim_start_char(s: &str, c: char) -> (out: String)
    ensures
        out@ == skip_char(s@, c),
{
    let v = chars_of(s);
    let mut from: usize = 0;
    assert(v@.skip(0) =~= v@);
    while from < v.len() && v[from] == c
        invariant
            from <= v@.len(),
            skip_char(v@.skip(from as int), c) == skip_char(v@, c),
        decreases v@.len() - from,
    {
        assert(v@.skip(from as int).skip(1) =~= v@.skip(from + 1));
        from += 1;
    }
    let to: usize = v.len();
    assert(v@.subrange(from as int, to as int) =~= v@.skip(from as int));
    text_between(&v, from, to)
}

/// `s` without the run of `c` that it ends with.
pub fn trim_end_char(s: &str, c: char) -> (out: String)
    ensures
        out@ == drop_char(s@, c),
{
    let v = chars_of(s);
    let mut to: usize = v.len();
    assert(v@.take(to as int) =~= v@);
    while 0 < to && v[to - 1] == c
        invariant
            to <= v@.len(),
            drop_char(v@.take(to as int), c) == drop_char(v@, c),
        decreases to,
    {
        assert(v@.take(to as int).drop_last() =~= v@.take(to - 1));
        to -= 1;
    }
    assert(v@.subrange(0, to as int) =~= v@.take(to as int));
    text_between(&v, 0, to)
}

/// The first `n` characters of `s`, or all of them where there are fewer.
pub fn take_chars(s: &str, n: usize) -> (out: String)
    ensures
        out@ == at_most(s@, n as int),
{
    let v = chars_of(s);
    let to: usize = if v.len() <= n {
        v.len()
    } else {
        n
    };
    let out = text_between(&v, 0, to);
    assert(out@ =~= at_most(s@, n as int));
    out
}

/// The lines of `s`, as [`lines_of`] says.
pub fn lines(s: &str) -> (out: Vec<String>)
    ensures
        texts(out@) == lines_of(s@),
{
    let v = chars_of(s);
    let mut out: Vec<String> = Vec::new();
    let mut from: usize = 0;
    assert(v@.skip(0) =~= v@);
    assert(texts(out@) + lines_of(v@.skip(0)) =~= lines_of(s@));
    while from < v.len()
        invariant
            from <= v@.len(),
            v@ == s@,
            texts(out@) + lines_of(v@.skip(from as int)) == lines_of(s@),
        decreases v@.len() - from,
    {
        let ghost before = texts(out@);
        let ghost rest = v@.skip(from as int);
        let k: usize = find_from(&v, from, '\n');
        if k < v.len() {
            let to: usize = if k > from && v[k - 1] == '\r' {
                k - 1
            } else {
                k
            };
            let line = text_between(&v, from, to);
            assert(line@ =~= chomped(rest.take(k - from)));
            out.push(line);
            assert(texts(out@) =~= before.push(line@));
            assert(rest.skip(k - from + 1) =~= v@.skip(k + 1));
            assert(before + lines_of(rest) =~= texts(out@) + lines_of(v@.skip(k + 1)));
            from = k + 1;
        } else {
            let line = text_between(&v, from, k);
            assert(line@ =~= rest);
            out.push(line);
            assert(texts(out@) =~= before.push(line@));
            assert(lines_of(v@.skip(k as int)) =~= Seq::empty());
            assert(before + lines_of(rest) =~= texts(out@) + lines_of(v@.skip(k as int)));
            from = k;
        }
    }
    assert(lines_of(v@.skip(from as int)) =~= Seq::empty());
    assert(texts(out@) =~= lines_of(s@));
    out
}

/// One decimal digit.
fn digit_char(d: u64) -> (c: char)
    requires
        d < 10,
    ensures
        c == digit(d as int),
{
    match d {
        0 => '0',
        1 => '1',
        2 => '2',
        3 => '3',
        4 => '4',
        5 => '5',
        6 => '6',
        7 => '7',
        8 => '8',
        _ => '9',
    }
}

/// `n` written in decimal.
pub fn decimal_text(n: u64) -> (out: String)
    ensures
        out@ == decimal(n as int),
    decreases n,
{
    if n < 10 {
        let mut out = String::new();
        out.push(digit_char(n));
        assert(out@ =~= seq![digit(n as int)]);
        out
    } else {
        let mut out = decimal_text(n / 10);
        out.push(digit_char(n % 10));
        out
    }
}

/// Tells whether `a` comes before `b`, as [`precedes`] says.
pub fn comes_before(a: &str, b: &str) -> (r: bool)
    ensures
        r == precedes(a@, b@),
{
    let x = chars_of(a);
    let y = chars_of(b);
    let mut i: usize = 0;
    assert(x@.skip(0) =~= x@ && y@.skip(0) =~= y@);
    while i < x.len() && i < y.len()
        invariant
            x@ == a@,
            y@ == b@,
            i <= x@.len(),
            i <= y@.len(),
            precedes(x@.skip(i as int), y@.skip(i as int)) == precedes(x@, y@),
        decreases x@.len() - i,
    {
        assert(x@.skip(i as int)[0] == x@[i as int] && y@.skip(i as int)[0] == y@[i as int]);
        if x[i] != y[i] {
            return x[i] < y[i];
        }
        assert(x@.skip(i as int).skip(1) =~= x@.skip(i + 1));
        assert(y@.skip(i as int).skip(1) =~= y@.skip(i + 1));
        i += 1;
    }
    i < y.len()
}

/// A copy of a string that may be missing.
pub fn copy_text(s: &Option<String>) -> (out: Option<String>)
    ensures
        text_of(out) == text_of(*s),
{
    match s {
        Some(t) => Some(t.clone()),
        None => None,
    }
}

/// Law: a text begins with another where it is that text and more.
pub proof fn a_beginning_is_a_prefix(s: Seq<char>, p: Seq<char>)
    ensures
        starts(s, p) <==> p.is_prefix_of(s),
        starts(s, p) <==> exists|rest: Seq<char>| s == #[trigger] (p + rest),
{
    if starts(s, p) {
        assert(s =~= p + s.skip(p.len() as int));
    }
    assert forall|rest: Seq<char>| s == #[trigger] (p + rest) implies starts(s, p) by {
        assert(s.take(p.len() as int) =~= p);
    }
    if p.is_prefix_of(s) {
        assert(s.take(p.len() as int) =~= p);
    }
}

/// Law: a text holds another where it is that text with something before it
/// and something behind it.
pub proof fn a_part_stands_somewhere(s: Seq<char>, needle: Seq<char>)
    ensures
        holds(s, needle) <==> exists|a: Seq<char>, b: Seq<char>| s == #[trigger] (a + needle + b),
{
    if holds(s, needle) {
        let i = choose|i: int| 0 <= i <= s.len() && starts(#[trigger] s.skip(i), needle);
        let a = s.take(i);
        let b = s.skip(i).skip(needle.len() as int);
        assert(s.skip(i) =~= needle + b);
        assert(s =~= a + s.skip(i));
        assert(s =~= a + needle + b);
    }
    assert forall|a: Seq<char>, b: Seq<char>| s == #[trigger] (a + needle + b) implies holds(
        s,
        needle,
    ) by {
        let i = a.len() as int;
        assert(s.skip(i) =~= needle + b);
        assert(s.skip(i).take(needle.len() as int) =~= needle);
    }
}

/// Law: a text is cut at the first of a character, into what stands before it
/// and what stands behind it; a text without the character is not cut.
pub proof fn the_first_of_a_character_cuts(head: Seq<char>, c: char, tail: Seq<char>)
    requires
        !head.contains(c),
    ensures
        cut(head + seq![c] + tail, c) == Some((head, tail)),
        cut(head, c) is None,
        first_of(head + seq![c] + tail, c) == head.len(),
        first_of(head, c) == head.len(),
{
    let s = head + seq![c] + tail;
    assert forall|i: int| 0 <= i < head.len() implies head[i] != c && s[i] != c by {
        assert(s[i] == head[i]);
        assert(head.contains(head[i]));
    }
    lemma_first_of_is(s, c, head.len() as int);
    lemma_first_of_is(head, c, head.len() as int);
    assert(s.take(head.len() as int) =~= head);
    assert(s.skip(head.len() as int + 1) =~= tail);
}

/// Law: white space is what Unicode says it is.
pub proof fn white_space_by_number(c: char)
    ensures
        is_white(c) <==> {
            let n = c as u32;
            ||| 9 <= n <= 13
            ||| n == 32
            ||| n == 133
            ||| n == 160
            ||| n == 5760
            ||| 8192 <= n <= 8202
            ||| n == 8232
            ||| n == 8233
            ||| n == 8239
            ||| n == 8287
            ||| n == 12288
        },
{
}

/// White space in front is skipped.
proof fn lemma_skip_white_front(front: Seq<char>, s: Seq<char>)
    requires
        forall|i: int| 0 <= i < front.len() ==> is_white(#[trigger] front[i]),
    ensures
        skip_white(front + s) == skip_white(s),
    decreases front.len(),
{
    if front.len() == 0 {
        assert(front + s =~= s);
    } else {
        assert((front + s)[0] == front[0]);
        assert((front + s).skip(1) =~= front.skip(1) + s);
        lemma_skip_white_front(front.skip(1), s);
    }
}

/// White space at the end is dropped.
proof fn lemma_drop_white_back(s: Seq<char>, back: Seq<char>)
    requires
        forall|i: int| 0 <= i < back.len() ==> is_white(#[trigger] back[i]),
    ensures
        drop_white(s + back) == drop_white(s),
    decreases back.len(),
{
    if back.len() == 0 {
        assert(s + back =~= s);
    } else {
        assert((s + back).last() == back.last());
        assert((s + back).drop_last() =~= s + back.drop_last());
        lemma_drop_white_back(s, back.drop_last());
    }
}

/// Law: trimming takes the white space off both ends of a text, all of it, and
/// nothing else.
pub proof fn trimming_takes_white_space_off(front: Seq<char>, core: Seq<char>, back: Seq<char>)
    requires
        forall|i: int| 0 <= i < front.len() ==> is_white(#[trigger] front[i]),
        forall|i: int| 0 <= i < back.len() ==> is_white(#[trigger] back[i]),
        core.len() > 0 ==> !is_white(core[0]) && !is_white(core.last()),
    ensures
        trimmed(front + core + back) == core,
{
    assert(front + core + back =~= front + (core + back));
    lemma_skip_white_front(front, core + back);
    if core.len() == 0 {
        assert(core + back =~= back + Seq::<char>::empty());
        lemma_skip_white_front(back, Seq::empty());
        assert(trimmed(front + core + back) =~= core);
    } else {
        assert((core + back)[0] == core[0]);
        lemma_drop_white_back(core, back);
    }
}

/// Law: what is taken off the front of a text is a run of the one character,
/// all of it.
pub proof fn a_run_in_front_is_skipped(s: Seq<char>, c: char)
    ensures
        skip_char(s, c).len() <= s.len(),
        skip_char(s, c) == s.skip(s.len() - skip_char(s, c).len()),
        forall|i: int| 0 <= i < s.len() - skip_char(s, c).len() ==> #[trigger] s[i] == c,
        skip_char(s, c).len() > 0 ==> skip_char(s, c)[0] != c,
    decreases s.len(),
{
    if s.len() > 0 && s[0] == c {
        a_run_in_front_is_skipped(s.skip(1), c);
        let n = s.len() - skip_char(s, c).len();
        assert(s.skip(1).skip(n - 1) =~= s.skip(n));
        assert forall|i: int| 0 <= i < n implies #[trigger] s[i] == c by {
            if i > 0 {
                assert(s.skip(1)[i - 1] == s[i]);
            }
        }
    } else {
        assert(s.skip(0) =~= s);
    }
}

/// Law: what is taken off the end of a text is a run of the one character, all
/// of it.
pub proof fn a_run_at_the_end_is_dropped(s: Seq<char>, c: char)
    ensures
        drop_char(s, c).len() <= s.len(),
        drop_char(s, c) == s.take(drop_char(s, c).len() as int),
        forall|i: int| drop_char(s, c).len() <= i < s.len() ==> #[trigger] s[i] == c,
        drop_char(s, c).len() > 0 ==> drop_char(s, c).last() != c,
    decreases s.len(),
{
    if s.len() > 0 && s.last() == c {
        a_run_at_the_end_is_dropped(s.drop_last(), c);
        let n = drop_char(s, c).len() as int;
        assert(s.drop_last().take(n) =~= s.take(n));
        assert forall|i: int| n <= i < s.len() implies #[trigger] s[i] == c by {
            if i < s.len() - 1 {
                assert(s.drop_last()[i] == s[i]);
            }
        }
    } else {
        assert(s.take(s.len() as int) =~= s);
    }
}

/// Law: a shortened text is the beginning of the text, as long as it may be.
pub proof fn a_shortened_text_is_its_beginning(s: Seq<char>, n: int)
    requires
        n >= 0,
    ensures
        at_most(s, n).is_prefix_of(s),
        s.len() <= n ==> at_most(s, n).len() == s.len(),
        s.len() > n ==> at_most(s, n).len() == n,
{
}

/// Law: the first line of a text goes up to its first `\n`, without a `\r` in
/// front of that, and the other lines are those of the rest. A last line
/// without an ending is kept as it is.
pub proof fn lines_come_one_after_the_other(line: Seq<char>, rest: Seq<char>)
    requires
        !line.contains('\n'),
    ensures
        lines_of(line + seq!['\r', '\n'] + rest) == seq![line] + lines_of(rest),
        line.len() == 0 || line.last() != '\r' ==> lines_of(line + seq!['\n'] + rest) == seq![line]
            + lines_of(rest),
        line.len() > 0 ==> lines_of(line) == seq![line],
        lines_of(Seq::<char>::empty()) == Seq::<Seq<char>>::empty(),
{
    let with_return = line.push('\r');
    assert(line + seq!['\r', '\n'] + rest =~= with_return + seq!['\n'] + rest);
    assert forall|i: int| 0 <= i < with_return.len() implies with_return[i] != '\n' by {
        if i < line.len() {
            assert(line.contains(line[i]));
        }
    }
    the_first_of_a_character_cuts(with_return, '\n', rest);
    the_first_of_a_character_cuts(line, '\n', rest);
    let a = with_return + seq!['\n'] + rest;
    let b = line + seq!['\n'] + rest;
    let k = line.len() as int;
    assert(a.take(k + 1) =~= with_return);
    assert(with_return.drop_last() =~= line);
    assert(a.skip(k + 2) =~= rest);
    assert(b.take(k) =~= line);
    assert(b.skip(k + 1) =~= rest);
}

/// Law: a number is written digit by digit: its last digit is the remainder by
/// ten, and before it stands the tenth part of it, if there is any.
pub proof fn numbers_are_written_digit_by_digit(n: int)
    requires
        n >= 0,
    ensures
        decimal(n).len() > 0,
        decimal(n).last() as int == '0' as int + n % 10,
        n >= 10 ==> decimal(n).drop_last() == decimal(n / 10),
        n < 10 ==> decimal(n).len() == 1,
{
    if n >= 10 {
        assert(decimal(n).drop_last() =~= decimal(n / 10));
    }
}

/// Law: a text comes before another where it is the beginning of it, or where
/// at the first difference it has the lesser character.
pub proof fn texts_are_ordered_by_their_first_difference(a: Seq<char>, b: Seq<char>)
    ensures
        precedes(a, b) <==> exists|k: int|
            0 <= k <= a.len() && k < b.len() && #[trigger] a.take(k) == b.take(k) && (k == a.len()
                || a[k] < b[k]),
    decreases a.len(),
{
    if a.len() > 0 && b.len() > 0 {
        let a1 = a.skip(1);
        let b1 = b.skip(1);
        texts_are_ordered_by_their_first_difference(a1, b1);
        if a[0] == b[0] {
            if precedes(a1, b1) {
                let j = choose|k: int|
                    0 <= k <= a1.len() && k < b1.len() && #[trigger] a1.take(k) == b1.take(k) && (k
                        == a1.len() || a1[k] < b1[k]);
                assert(a.take(j + 1) =~= seq![a[0]] + a1.take(j));
                assert(b.take(j + 1) =~= seq![b[0]] + b1.take(j));
            }
            assert forall|k: int|
                0 <= k <= a.len() && k < b.len() && #[trigger] a.take(k) == b.take(k) && (k
                    == a.len() || a[k] < b[k]) implies precedes(a, b) by {
                assert(k > 0);
                assert(a1.take(k - 1) =~= a.take(k).skip(1));
                assert(b1.take(k - 1) =~= b.take(k).skip(1));
                assert(a1.take(k - 1) == b1.take(k - 1));
            }
        } else {
            if a[0] < b[0] {
                assert(a.take(0) =~= b.take(0));
            }
            assert forall|k: int|
                0 <= k <= a.len() && k < b.len() && #[trigger] a.take(k) == b.take(k) && (k
                    == a.len() || a[k] < b[k]) implies precedes(a, b) by {
                if k > 0 {
                    assert(a.take(k)[0] == a[0]);
                    assert(b.take(k)[0] == b[0]);
                }
            }
        }
    } else if b.len() > 0 {
        assert(a.take(0) =~= b.take(0));
    }
}

/// Law: a list of strings is seen as the texts of its strings, one for one.
pub proof fn texts_are_those_of_the_strings(v: Seq<String>, w: Seq<(String, String)>)
    ensures
        texts(v).len() == v.len(),
        forall|i: int| 0 <= i < v.len() ==> #[trigger] texts(v)[i] == v[i]@,
        pairs(w).len() == w.len(),
        forall|i: int| 0 <= i < w.len() ==> #[trigger] pairs(w)[i] == (w[i].0@, w[i].1@),
        text_of(None) is None,
        forall|s: String| #[trigger] text_of(Some(s)) == Some(s@),
{
}

/// Law: a trimmed text is what is left without the white space at both ends.
pub proof fn a_trimmed_text_is_the_core(
    s: &str,
    out: String,
    front: Seq<char>,
    core: Seq<char>,
    back: Seq<char>,
)
    requires
        call_ensures(trim, (s,), out),
        s@ == front + core + back,
        forall|i: int| 0 <= i < front.len() ==> is_white(#[trigger] front[i]),
        forall|i: int| 0 <= i < back.len() ==> is_white(#[trigger] back[i]),
        core.len() > 0 ==> !is_white(core[0]) && !is_white(core.last()),
    ensures
        out@ == core,
{
    trimming_takes_white_space_off(front, core, back);
}

/// Law: a number that is written out ends in its last digit, behind the tenth
/// part of it, if there is any.
pub proof fn a_written_number_ends_in_its_last_digit(n: u64, out: String)
    requires
        call_ensures(decimal_text, (n,), out),
    ensures
        out@.len() > 0,
        out@.last() as int == '0' as int + n % 10,
        n >= 10 ==> out@.drop_last() == decimal(n as int / 10),
        n < 10 ==> out@.len() == 1,
{
    numbers_are_written_digit_by_digit(n as int);
}

} // verus!
