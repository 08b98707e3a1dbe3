//! Character-level building blocks shared by the formatters and parsers:
//! string assembly, decimal rendering and a few sequence predicates.
use vstd::prelude::*;

verus! {

/// Concatenation of all parts, left to right.
pub open spec fn concat(parts: Seq<Seq<char>>) -> Seq<char>
    decreases parts.len(),
{
    if parts.len() == 0 {
        Seq::empty()
    } else {
        concat(parts.drop_last()) + parts.last()
    }
}

/// The character sequences of a sequence of strings.
pub open spec fn views(v: Seq<String>) -> Seq<Seq<char>> {
    v.map_values(|r: String| r@)
}

/// Each row followed by a newline; no rows give the empty text.
pub open spec fn lines_text(rows: Seq<Seq<char>>) -> Seq<char> {
    concat(rows.map_values(|r: Seq<char>| r.push('\n')))
}

/// The parts separated by `sep`.
pub open spec fn join(parts: Seq<Seq<char>>, sep: Seq<char>) -> Seq<char>
    decreases parts.len(),
{
    if parts.len() == 0 {
        Seq::empty()
    } else if parts.len() == 1 {
        parts[0]
    } else {
        join(parts.drop_last(), sep) + sep + parts.last()
    }
}

pub open spec fn digit_char(d: nat) -> char {
    (d + 48) as char
}

/// Decimal notation of a natural number, without leading zeros.
pub open spec fn decimal(n: nat) -> Seq<char>
    decreases n,
{
    if n < 10 {
        seq![digit_char(n)]
    } else {
        decimal(n / 10).push(digit_char(n % 10))
    }
}

pub open spec fn bool_text(b: bool) -> Seq<char> {
    if b {
        seq!['t', 'r', 'u', 'e']
    } else {
        seq!['f', 'a', 'l', 's', 'e']
    }
}

pub open spec fn spaces(n: nat) -> Seq<char> {
    Seq::new(n, |i: int| ' ')
}

/// `s` followed by spaces up to width `w` (the `{:<w}` layout).
pub open spec fn pad_right(s: Seq<char>, w: nat) -> Seq<char> {
    if s.len() >= w {
        s
    } else {
        s + spaces((w - s.len()) as nat)
    }
}

/// `s` preceded by spaces up to width `w` (the `{:>w}` layout).
pub open spec fn pad_left(s: Seq<char>, w: nat) -> Seq<char> {
    if s.len() >= w {
        s
    } else {
        spaces((w - s.len()) as nat) + s
    }
}

pub open spec fn has_char(s: Seq<char>, c: char) -> bool {
    exists|i: int| 0 <= i < s.len() && s[i] == c
}

/// `needle` occurs somewhere in `s` as a contiguous piece.
pub open spec fn occurs_in(needle: Seq<char>, s: Seq<char>) -> bool {
    exists|i: int| 0 <= i <= s.len() - needle.len() && #[trigger] s.subrange(i, i + needle.len()) == needle
}

/// Index of the first occurrence of `c`, if any.
pub open spec fn first_index(s: Seq<char>, c: char) -> Option<int>
    decreases s.len(),
{
    if s.len() == 0 {
        None
    } else if s[0] == c {
        Some(0)
    } else {
        match first_index(s.drop_first(), c) {
            Some(i) => Some(i + 1),
            None => None,
        }
    }
}

/// Index of the last occurrence of `c`, if any.
pub open spec fn last_index(s: Seq<char>, c: char) -> Option<int>
    decreases s.len(),
{
    if s.len() == 0 {
        None
    } else if s.last() == c {
        Some(s.len() - 1)
    } else {
        last_index(s.drop_last(), c)
    }
}

/// The pieces around the first `sep` (the `split_once` split).
pub open spec fn split_first(s: Seq<char>, sep: char) -> Option<(Seq<char>, Seq<char>)> {
    match first_index(s, sep) {
        Some(i) => Some((s.subrange(0, i), s.subrange(i + 1, s.len() as int))),
        None => None,
    }
}

/// The pieces around the last `sep` (the `rsplit_once` split).
pub open spec fn split_last(s: Seq<char>, sep: char) -> Option<(Seq<char>, Seq<char>)> {
    match last_index(s, sep) {
        Some(i) => Some((s.subrange(0, i), s.subrange(i + 1, s.len() as int))),
        None => None,
    }
}

/// The pieces of `s` between occurrences of `sep` (empty pieces included;
/// a text without `sep` is one piece).
pub open spec fn split_pieces(s: Seq<char>, sep: char) -> Seq<Seq<char>>
    decreases s.len(),
{
    match first_index(s, sep) {
        Some(i) => {
            proof {
                lemma_first_index(s, sep);
            }
            seq![s.subrange(0, i)] + split_pieces(s.subrange(i + 1, s.len() as int), sep)
        },
        None => seq![s],
    }
}

pub proof fn lemma_first_index(s: Seq<char>, c: char)
    ensures
        match first_index(s, c) {
            Some(i) => 0 <= i < s.len() && s[i] == c && forall|k: int| 0 <= k < i ==> s[k] != c,
            None => forall|k: int| 0 <= k < s.len() ==> s[k] != c,
        },
    decreases s.len(),
{
    if s.len() > 0 && s[0] != c {
        lemma_first_index(s.drop_first(), c);
        match first_index(s.drop_first(), c) {
            Some(i) => {
                assert forall|k: int| 0 <= k < i + 1 implies s[k] != c by {
                    if k > 0 {
                        assert(s[k] == s.drop_first()[k - 1]);
                    }
                }
            },
            None => {
                assert forall|k: int| 0 <= k < s.len() implies s[k] != c by {
                    if k > 0 {
                        assert(s[k] == s.drop_first()[k - 1]);
                    }
                }
            },
        }
    }
}

pub proof fn lemma_last_index(s: Seq<char>, c: char)
    ensures
        match last_index(s, c) {
            Some(i) => 0 <= i < s.len() && s[i] == c && forall|k: int| i < k < s.len() ==> s[k] != c,
            None => forall|k: int| 0 <= k < s.len() ==> s[k] != c,
        },
    decreases s.len(),
{
    if s.len() > 0 && s.last() != c {
        lemma_last_index(s.drop_last(), c);
        assert forall|k: int| 0 <= k < s.len() - 1 implies s[k] == s.drop_last()[k] by {}
    }
}

/// A position search characterises `first_index`.
pub proof fn lemma_first_index_at(s: Seq<char>, c: char, i: int)
    requires
        0 <= i <= s.len(),
        forall|k: int| 0 <= k < i ==> s[k] != c,
        i < s.len() ==> s[i] == c,
    ensures
        first_index(s, c) == (if i < s.len() { Some(i) } else { None::<int> }),
{
    lemma_first_index(s, c);
}

pub proof fn lemma_last_index_at(s: Seq<char>, c: char, i: int)
    requires
        -1 <= i < s.len(),
        forall|k: int| i < k < s.len() ==> s[k] != c,
        i >= 0 ==> s[i] == c,
    ensures
        last_index(s, c) == (if i >= 0 { Some(i) } else { None::<int> }),
{
    lemma_last_index(s, c);
}

pub proof fn lemma_concat_push(parts: Seq<Seq<char>>, x: Seq<char>)
    ensures
        concat(parts.push(x)) == concat(parts) + x,
{
    assert(parts.push(x).drop_last() =~= parts);
}

pub proof fn lemma_concat_append(a: Seq<Seq<char>>, b: Seq<Seq<char>>)
    ensures
        concat(a + b) == concat(a) + concat(b),
    decreases b.len(),
{
    if b.len() == 0 {
        assert(a + b =~= a);
        assert(concat(a) + concat(b) =~= concat(a));
    } else {
        assert((a + b).drop_last() =~= a + b.drop_last());
        lemma_concat_append(a, b.drop_last());
        assert(concat(a) + concat(b.drop_last()) + b.last() =~= concat(a) + (concat(
            b.drop_last(),
        ) + b.last()));
    }
}

pub proof fn lemma_lines_push(rows: Seq<Seq<char>>, r: Seq<char>)
    ensures
        lines_text(rows.push(r)) == lines_text(rows) + r.push('\n'),
{
    let f = |r: Seq<char>| r.push('\n');
    assert(rows.push(r).map_values(f) =~= rows.map_values(f).push(r.push('\n')));
    lemma_concat_push(rows.map_values(f), r.push('\n'));
}

pub proof fn lemma_lines_append(a: Seq<Seq<char>>, b: Seq<Seq<char>>)
    ensures
        lines_text(a + b) == lines_text(a) + lines_text(b),
{
    let f = |r: Seq<char>| r.push('\n');
    assert((a + b).map_values(f) =~= a.map_values(f) + b.map_values(f));
    lemma_concat_append(a.map_values(f), b.map_values(f));
}

pub proof fn lemma_join_push(parts: Seq<Seq<char>>, sep: Seq<char>, x: Seq<char>)
    ensures
        join(parts.push(x), sep) == if parts.len() == 0 {
            x
        } else {
            join(parts, sep) + sep + x
        },
{
    assert(parts.push(x).drop_last() =~= parts);
}

/// Each character replaced by its image under `f`, concatenated.
pub open spec fn map_concat(v: Seq<char>, f: spec_fn(char) -> Seq<char>) -> Seq<char> {
    concat(v.map_values(f))
}

pub proof fn lemma_map_concat_step(v: Seq<char>, f: spec_fn(char) -> Seq<char>, i: int)
    requires
        0 <= i < v.len(),
    ensures
        map_concat(v.take(i + 1), f) == map_concat(v.take(i), f) + f(v[i]),
{
    assert(v.take(i + 1).map_values(f) =~= v.take(i).map_values(f).push(f(v[i])));
    lemma_concat_push(v.take(i).map_values(f), f(v[i]));
}

/// `map_concat` splits off its first and its last character's piece.
pub proof fn lemma_map_concat_ends(v: Seq<char>, f: spec_fn(char) -> Seq<char>)
    requires
        v.len() > 0,
    ensures
        map_concat(v, f) == f(v[0]) + map_concat(v.drop_first(), f),
        map_concat(v, f) == map_concat(v.drop_last(), f) + f(v.last()),
{
    assert(v.map_values(f) =~= seq![f(v[0])] + v.drop_first().map_values(f));
    lemma_concat_append(seq![f(v[0])], v.drop_first().map_values(f));
    let one = seq![f(v[0])];
    assert(one.drop_last() =~= Seq::<Seq<char>>::empty());
    assert(one.last() == f(v[0]));
    assert(concat(one.drop_last()) == Seq::<char>::empty());
    assert(concat(one) =~= f(v[0]));
    assert(v.map_values(f) =~= v.drop_last().map_values(f).push(f(v.last())));
    lemma_concat_push(v.drop_last().map_values(f), f(v.last()));
}

pub proof fn lemma_map_concat_empty(v: Seq<char>, f: spec_fn(char) -> Seq<char>)
    ensures
        map_concat(v.take(0), f) == Seq::<char>::empty(),
{
    assert(v.take(0).map_values(f) =~= Seq::<Seq<char>>::empty());
}

/// Calls `String::push`; the contract claims that the text afterwards is
/// the text before with `c` added at its end.
#[verifier::external_body]
pub(crate) fn push_char(s: &mut String, c: char)
    ensures
        final(s)@ == old(s)@.push(c),
{
    s.push(c);
}

pub fn push_str(out: &mut String, s: &str)
    ensures
        final(out)@ == old(out)@ + s@,
{
    out.append(s);
}

/// The characters of a string slice.
pub fn chars_of(s: &str) -> (v: Vec<char>)
    ensures
        v@ == s@,
{
    let mut v: Vec<char> = Vec::new();
    for c in it: s.chars()
        invariant
            v@ == it.seq().take(it.index() as int),
            it.seq() == s@,
    {
        v.push(c);
    }
    v
}

pub fn push_chars(out: &mut String, v: &Vec<char>)
    ensures
        final(out)@ == old(out)@ + v@,
{
    let ghost start = out@;
    for i in 0..v.len()
        invariant
            out@ == start + v@.take(i as int),
    {
        push_char(out, v[i]);
        assert(v@.take(i as int).push(v@[i as int]) =~= v@.take(i + 1));
        assert(start + v@.take(i as int) + seq![v@[i as int]] =~= start + v@.take(i + 1));
    }
    assert(v@.take(v.len() as int) =~= v@);
}

pub fn string_of(v: &Vec<char>) -> (s: String)
    ensures
        s@ == v@,
{
    let mut s = String::new();
    push_chars(&mut s, v);
    s
}

pub fn clone_string(s: &String) -> (r: String)
    ensures
        r@ == s@,
{
    s.clone()
}

pub fn digit(d: u128) -> (c: char)
    requires
        d < 10,
    ensures
        c == digit_char(d as nat),
{
    ((d as u8) + 48) as char
}

/// Appends the decimal notation of `n`.
pub fn push_decimal(out: &mut String, n: u128)
    ensures
        final(out)@ == old(out)@ + decimal(n as nat),
    decreases n,
{
    if n >= 10 {
        push_decimal(out, n / 10);
    }
    let c = digit(n % 10);
    push_char(out, c);
    proof {
        if n >= 10 {
            assert(old(out)@ + decimal((n / 10) as nat) + seq![c] =~= old(out)@ + decimal(
                n as nat,
            ));
        } else {
            assert(old(out)@ + seq![c] =~= old(out)@ + decimal(n as nat));
        }
    }
}

pub fn decimal_string(n: u128) -> (s: String)
    ensures
        s@ == decimal(n as nat),
{
    let mut s = String::new();
    push_decimal(&mut s, n);
    s
}

pub fn push_bool(out: &mut String, b: bool)
    ensures
        final(out)@ == old(out)@ + bool_text(b),
{
    let ghost start = out@;
    if b {
        push_char(out, 't');
        push_char(out, 'r');
        push_char(out, 'u');
        push_char(out, 'e');
    } else {
        push_char(out, 'f');
        push_char(out, 'a');
        push_char(out, 'l');
        push_char(out, 's');
        push_char(out, 'e');
    }
    assert(out@ =~= start + bool_text(b));
}

pub fn push_spaces(out: &mut String, n: usize)
    ensures
        final(out)@ == old(out)@ + spaces(n as nat),
{
    let ghost start = out@;
    for i in 0..n
        invariant
            out@ == start + spaces(i as nat),
    {
        push_char(out, ' ');
        assert(start + spaces(i as nat) + seq![' '] =~= start + spaces((i + 1) as nat));
    }
}

/// Appends `s` left-aligned in a field of width `w`.
pub fn push_pad_right(out: &mut String, s: &Vec<char>, w: usize)
    ensures
        final(out)@ == old(out)@ + pad_right(s@, w as nat),
{
    let ghost start = out@;
    push_chars(out, s);
    if s.len() < w {
        push_spaces(out, w - s.len());
        assert(start + s@ + spaces((w - s.len()) as nat) =~= start + pad_right(s@, w as nat));
    }
}

/// Appends `s` right-aligned in a field of width `w`.
pub fn push_pad_left(out: &mut String, s: &Vec<char>, w: usize)
    ensures
        final(out)@ == old(out)@ + pad_left(s@, w as nat),
{
    let ghost start = out@;
    if s.len() < w {
        push_spaces(out, w - s.len());
    }
    push_chars(out, s);
    assert(out@ =~= start + pad_left(s@, w as nat));
}

/// Rows joined into text, each ending with a newline.
pub fn finish_lines(rows: Vec<String>) -> (text: String)
    ensures
        text@ == lines_text(views(rows@)),
{
    let ghost vs = views(rows@);
    let mut text = String::new();
    for i in 0..rows.len()
        invariant
            vs == views(rows@),
            text@ == lines_text(vs.take(i as int)),
    {
        push_str(&mut text, rows[i].as_str());
        push_char(&mut text, '\n');
        proof {
            assert(vs.take(i + 1) =~= vs.take(i as int).push(vs[i as int]));
            lemma_lines_push(vs.take(i as int), vs[i as int]);
        }
    }
    assert(vs.take(rows.len() as int) =~= vs);
    text
}

/// Parts separated by `sep`.
pub fn join_strings(parts: &Vec<String>, sep: &str) -> (text: String)
    ensures
        text@ == join(views(parts@), sep@),
{
    let ghost vs = views(parts@);
    let mut text = String::new();
    for i in 0..parts.len()
        invariant
            vs == views(parts@),
            text@ == join(vs.take(i as int), sep@),
    {
        proof {
            assert(vs.take(i + 1) =~= vs.take(i as int).push(vs[i as int]));
            lemma_join_push(vs.take(i as int), sep@, vs[i as int]);
        }
        if i > 0 {
            push_str(&mut text, sep);
        }
        push_str(&mut text, parts[i].as_str());
    }
    assert(vs.take(parts.len() as int) =~= vs);
    text
}

/// Whether `c` occurs in `s`.
pub fn contains_char(s: &Vec<char>, c: char) -> (b: bool)
    ensures
        b == has_char(s@, c),
{
    for i in 0..s.len()
        invariant
            forall|k: int| 0 <= k < i ==> s@[k] != c,
    {
        if s[i] == c {
            return true;
        }
    }
    false
}

/// Whether `needle` occurs in `s` as a contiguous piece.
pub fn contains_seq(s: &Vec<char>, needle: &Vec<char>) -> (b: bool)
    ensures
        b == occurs_in(needle@, s@),
{
    if needle.len() > s.len() {
        return false;
    }
    if needle.len() == 0 {
        assert(s@.subrange(0, 0 + needle@.len() as int) =~= needle@);
        return true;
    }
    let last = s.len() - needle.len();
    let mut i: usize = 0;
    while i <= last
        invariant
            last == s.len() - needle.len(),
            0 < needle.len() <= s.len(),
            i <= last + 1,
            forall|k: int| 0 <= k < i ==> #[trigger] s@.subrange(k, k + needle.len()) != needle@,
        decreases last + 1 - i,
    {
        if matches_at(s, needle, i) {
            return true;
        }
        i = i + 1;
    }
    false
}

/// Whether `needle` stands in `s` at position `at`.
pub fn matches_at(s: &Vec<char>, needle: &Vec<char>, at: usize) -> (b: bool)
    requires
        at + needle.len() <= s.len(),
    ensures
        b == (s@.subrange(at as int, at + needle.len()) == needle@),
{
    for k in 0..needle.len()
        invariant
            at + needle.len() <= s.len(),
            forall|j: int| 0 <= j < k ==> s@[at + j] == needle@[j],
    {
        if s[at + k] != needle[k] {
            assert(s@.subrange(at as int, at + needle.len())[k as int] != needle@[k as int]);
            return false;
        }
    }
    assert(s@.subrange(at as int, at + needle.len()) =~= needle@);
    true
}

/// Whether `s` begins with `prefix`.
pub fn starts_with(s: &Vec<char>, prefix: &Vec<char>) -> (b: bool)
    ensures
        b == prefix@.is_prefix_of(s@),
{
    if prefix.len() > s.len() {
        return false;
    }
    let r = matches_at(s, prefix, 0);
    assert(r == (s@.subrange(0, prefix.len() as int) == prefix@));
    r
}

/// Whether `s` ends with `suffix`.
pub fn ends_with(s: &Vec<char>, suffix: &Vec<char>) -> (b: bool)
    ensures
        b == suffix@.is_suffix_of(s@),
{
    if suffix.len() > s.len() {
        return false;
    }
    matches_at(s, suffix, s.len() - suffix.len())
}

/// Whether two character sequences are equal.
pub fn same_chars(a: &Vec<char>, b: &Vec<char>) -> (r: bool)
    ensures
        r == (a@ == b@),
{
    if a.len() != b.len() {
        return false;
    }
    let r = matches_at(a, b, 0);
    assert(a@.subrange(0, b.len() as int) =~= a@);
    r
}

/// The characters `v[from..to]`.
pub fn slice_chars(v: &Vec<char>, from: usize, to: usize) -> (r: Vec<char>)
    requires
        from <= to <= v.len(),
    ensures
        r@ == v@.subrange(from as int, to as int),
{
    let mut r: Vec<char> = Vec::new();
    for i in from..to
        invariant
            to <= v.len(),
            r@ == v@.subrange(from as int, i as int),
    {
        r.push(v[i]);
        assert(v@.subrange(from as int, i as int).push(v@[i as int]) =~= v@.subrange(
            from as int,
            i + 1,
        ));
    }
    r
}

/// Position of the first `c` in `v`.
pub fn find_first(v: &Vec<char>, c: char) -> (r: Option<usize>)
    ensures
        r matches Some(i) ==> i < v.len() && first_index(v@, c) == Some(i as int),
        r is None ==> first_index(v@, c) is None,
{
    for i in 0..v.len()
        invariant
            forall|k: int| 0 <= k < i ==> v@[k] != c,
    {
        if v[i] == c {
            proof {
                lemma_first_index_at(v@, c, i as int);
            }
            return Some(i);
        }
    }
    proof {
        lemma_first_index_at(v@, c, v.len() as int);
    }
    None
}

/// Position of the last `c` in `v`.
pub fn find_last(v: &Vec<char>, c: char) -> (r: Option<usize>)
    ensures
        r matches Some(i) ==> i < v.len() && last_index(v@, c) == Some(i as int),
        r is None ==> last_index(v@, c) is None,
{
    let mut i = v.len();
    while i > 0
        invariant
            i <= v.len(),
            forall|k: int| i <= k < v.len() ==> v@[k] != c,
        decreases i,
    {
        if v[i - 1] == c {
            proof {
                lemma_last_index_at(v@, c, i - 1);
            }
            return Some(i - 1);
        }
        i = i - 1;
    }
    proof {
        lemma_last_index_at(v@, c, -1);
    }
    None
}

/// The pieces around the first `sep` in `v`.
pub fn split_once(v: &Vec<char>, sep: char) -> (r: Option<(Vec<char>, Vec<char>)>)
    ensures
        match r {
            Some((a, b)) => split_first(v@, sep) == Some((a@, b@)),
            None => split_first(v@, sep) is None,
        },
{
    proof {
        lemma_first_index(v@, sep);
    }
    match find_first(v, sep) {
        Some(i) => Some((slice_chars(v, 0, i), slice_chars(v, i + 1, v.len()))),
        None => None,
    }
}

/// The pieces around the last `sep` in `v`.
pub fn rsplit_once(v: &Vec<char>, sep: char) -> (r: Option<(Vec<char>, Vec<char>)>)
    ensures
        match r {
            Some((a, b)) => split_last(v@, sep) == Some((a@, b@)),
            None => split_last(v@, sep) is None,
        },
{
    proof {
        lemma_last_index(v@, sep);
    }
    match find_last(v, sep) {
        Some(i) => Some((slice_chars(v, 0, i), slice_chars(v, i + 1, v.len()))),
        None => None,
    }
}


/// Strings that are a permutation of each other have texts that are too.
pub proof fn lemma_views_permutation(a: Seq<String>, b: Seq<String>)
    requires
        a.to_multiset() == b.to_multiset(),
    ensures
        views(a).to_multiset() == views(b).to_multiset(),
    decreases a.len(),
{
    broadcast use vstd::multiset::group_multiset_axioms;

    vstd::seq_lib::to_multiset_len(a);
    vstd::seq_lib::to_multiset_len(b);
    if a.len() == 0 {
        assert(views(a) =~= Seq::<Seq<char>>::empty());
        assert(views(b) =~= Seq::<Seq<char>>::empty());
    } else {
        let x = a.last();
        let rest = a.drop_last();
        assert(a =~= rest.push(x));
        vstd::seq_lib::to_multiset_build(rest, x);
        assert(b.to_multiset().count(x) > 0);
        vstd::seq_lib::to_multiset_contains(b, x);
        let i = choose|i: int| 0 <= i < b.len() && b[i] == x;
        let b2 = b.remove(i);
        vstd::seq_lib::to_multiset_remove(b, i);
        assert(rest.to_multiset() =~= b2.to_multiset());
        lemma_views_permutation(rest, b2);
        assert(views(a) =~= views(rest).push(x@));
        vstd::seq_lib::to_multiset_build(views(rest), x@);
        assert(b =~= b2.insert(i, x));
        assert(views(b) =~= views(b2).insert(i, x@));
        vstd::seq_lib::to_multiset_insert(views(b2), i, x@);
    }
}

/// The items of `s` that tie with `x` under `order` (neither comes before
/// the other), in the order they stand in `s`.
pub open spec fn tied<A>(s: Seq<A>, x: A, order: spec_fn(A, A) -> int) -> Seq<A>
    decreases s.len(),
{
    if s.len() == 0 {
        Seq::empty()
    } else {
        let rest = tied(s.drop_last(), x, order);
        if order(s.last(), x) == 0 {
            rest.push(s.last())
        } else {
            rest
        }
    }
}

/// Items that tie under `order` come out of a sort in the order they went
/// in: a stable sort.
pub open spec fn ties_keep_their_order<A>(out: Seq<A>, inp: Seq<A>, order: spec_fn(A, A) -> int) -> bool {
    forall|x: A| #[trigger] tied(out, x, order) == tied(inp, x, order)
}

pub proof fn lemma_tied_add<A>(a: Seq<A>, b: Seq<A>, x: A, order: spec_fn(A, A) -> int)
    ensures
        tied(a + b, x, order) == tied(a, x, order) + tied(b, x, order),
    decreases b.len(),
{
    if b.len() == 0 {
        assert(a + b =~= a);
        assert(tied(a, x, order) + tied(b, x, order) =~= tied(a, x, order));
    } else {
        lemma_tied_add(a, b.drop_last(), x, order);
        assert((a + b).drop_last() =~= a + b.drop_last());
        assert((a + b).last() == b.last());
        if order(b.last(), x) == 0 {
            assert(tied(a, x, order) + tied(b.drop_last(), x, order).push(b.last()) =~= (tied(
                a,
                x,
                order,
            ) + tied(b.drop_last(), x, order)).push(b.last()));
        }
    }
}

pub proof fn lemma_tied_one<A>(e: A, x: A, order: spec_fn(A, A) -> int)
    ensures
        tied(seq![e], x, order) == if order(e, x) == 0 {
            seq![e]
        } else {
            Seq::empty()
        },
{
    let one = seq![e];
    assert(one.drop_last() =~= Seq::<A>::empty());
    assert(one.last() == e);
    assert(tied(one.drop_last(), x, order) == Seq::<A>::empty());
    assert(Seq::<A>::empty().push(e) =~= one);
}

pub proof fn lemma_tied_none<A>(s: Seq<A>, x: A, order: spec_fn(A, A) -> int)
    requires
        forall|k: int| 0 <= k < s.len() ==> order(#[trigger] s[k], x) != 0,
    ensures
        tied(s, x, order) == Seq::<A>::empty(),
    decreases s.len(),
{
    if s.len() > 0 {
        lemma_tied_none(s.drop_last(), x, order);
    }
}

/// Inserting `e` at `p`, after items that each come strictly before `e` and
/// before the rest, puts `e` first among the items that tie with it.
pub proof fn lemma_tied_insert<A>(s: Seq<A>, p: int, e: A, x: A, order: spec_fn(A, A) -> int)
    requires
        0 <= p <= s.len(),
        order(e, x) == 0 ==> forall|k: int| 0 <= k < p ==> order(#[trigger] s[k], x) != 0,
    ensures
        tied(s.insert(p, e), x, order) == if order(e, x) == 0 {
            seq![e] + tied(s, x, order)
        } else {
            tied(s, x, order)
        },
{
    let head = s.take(p);
    let tail = s.skip(p);
    assert(s.insert(p, e) =~= head + seq![e] + tail);
    assert(s =~= head + tail);
    lemma_tied_add(head + seq![e], tail, x, order);
    lemma_tied_add(head, seq![e], x, order);
    lemma_tied_add(head, tail, x, order);
    lemma_tied_one(e, x, order);
    if order(e, x) == 0 {
        lemma_tied_none(head, x, order);
        assert(Seq::<A>::empty() + seq![e] =~= seq![e]);
        assert(Seq::<A>::empty() + tied(tail, x, order) =~= tied(tail, x, order));
    } else {
        assert(tied(head, x, order) + Seq::<A>::empty() =~= tied(head, x, order));
    }
}

} // verus!
