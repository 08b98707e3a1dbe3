//! Collecting a listing: the rules that decide which entries are shown,
//! how they are ordered and which directories are visited next.
//!
//! Reading the file system is left to the caller. A [`Collector`] says what
//! it needs next ([`Request`]); the caller performs the read and hands the
//! plain result back, and the collector updates its state.
use vstd::prelude::*;
use crate::args::{Config, SortKey, TypeFilter};
use crate::model::{Entry, FileKind, Listing, ListingBuilder, Section, Timestamp};
use crate::text::{chars_of, lemma_tied_add, lemma_tied_insert, lemma_tied_one, split_last, tied, ties_keep_their_order};

verus! {

// ---------------------------------------------------------------------------
// The order of entries
// ---------------------------------------------------------------------------

/// The code points of a text.
pub open spec fn char_codes(s: Seq<char>) -> Seq<int> {
    s.map_values(|c: char| (c as u32) as int)
}

/// Lexicographic three-way comparison of integer sequences: `-1`, `0` or
/// `1`; a proper prefix comes first.
pub open spec fn ints_order(a: Seq<int>, b: Seq<int>) -> int
    decreases a.len(),
{
    if a.len() == 0 {
        if b.len() == 0 {
            0
        } else {
            -1
        }
    } else if b.len() == 0 {
        1
    } else if a[0] < b[0] {
        -1
    } else if a[0] > b[0] {
        1
    } else {
        ints_order(a.drop_first(), b.drop_first())
    }
}

/// The text after the last `.` of a name, or nothing when it has no `.`.
pub open spec fn extension_text(name: Seq<char>) -> Seq<char> {
    match split_last(name, '.') {
        Some((_, ext)) => ext,
        None => Seq::empty(),
    }
}

/// What an entry is ordered by first: its name (by code points), its size,
/// its modification time (unknown times first) or its extension.
pub open spec fn sort_key(e: Entry, key: SortKey) -> Seq<int> {
    match key {
        SortKey::Name => char_codes(e.name@),
        SortKey::Size => seq![e.size as int],
        SortKey::Time => match e.modified {
            None => seq![0],
            Some(t) => seq![1, t.secs as int, t.nanos as int],
        },
        SortKey::Extension => char_codes(extension_text(e.name@)),
    }
}

/// The order of two entries: by the primary key (reversed on request), and
/// by name where the primary key ties.
pub open spec fn entry_order(a: Entry, b: Entry, key: SortKey, reverse: bool) -> int {
    let p = ints_order(sort_key(a, key), sort_key(b, key));
    let p = if reverse {
        -p
    } else {
        p
    };
    if p != 0 {
        p
    } else {
        ints_order(char_codes(a.name@), char_codes(b.name@))
    }
}

/// No entry is placed after one that should follow it.
pub open spec fn sorted_by(s: Seq<Entry>, key: SortKey, reverse: bool) -> bool {
    forall|i: int, j: int|
        0 <= i < j < s.len() ==> #[trigger] entry_order(s[i], s[j], key, reverse) <= 0
}

pub proof fn lemma_ints_order_antisymmetric(a: Seq<int>, b: Seq<int>)
    ensures
        ints_order(a, b) == -ints_order(b, a),
        -1 <= ints_order(a, b) <= 1,
        ints_order(a, b) == 0 <==> a == b,
    decreases a.len(),
{
    if a.len() > 0 && b.len() > 0 && a[0] == b[0] {
        lemma_ints_order_antisymmetric(a.drop_first(), b.drop_first());
        if a.drop_first() == b.drop_first() {
            assert(a =~= seq![a[0]] + a.drop_first());
            assert(b =~= seq![b[0]] + b.drop_first());
        }
        if a == b {
            assert(a.drop_first() =~= b.drop_first());
        }
    } else if a.len() == 0 && b.len() == 0 {
        assert(a =~= b);
    }
}

pub proof fn lemma_ints_order_transitive(a: Seq<int>, b: Seq<int>, c: Seq<int>)
    requires
        ints_order(a, b) <= 0,
        ints_order(b, c) <= 0,
    ensures
        ints_order(a, c) <= 0,
        ints_order(a, b) < 0 || ints_order(b, c) < 0 ==> ints_order(a, c) < 0,
    decreases a.len(),
{
    lemma_ints_order_antisymmetric(a, b);
    lemma_ints_order_antisymmetric(b, c);
    lemma_ints_order_antisymmetric(a, c);
    if a.len() > 0 && b.len() > 0 && c.len() > 0 && a[0] == b[0] && b[0] == c[0] {
        lemma_ints_order_transitive(a.drop_first(), b.drop_first(), c.drop_first());
    }
}

pub proof fn lemma_entry_order_antisymmetric(a: Entry, b: Entry, key: SortKey, reverse: bool)
    ensures
        entry_order(a, b, key, reverse) == -entry_order(b, a, key, reverse),
{
    lemma_ints_order_antisymmetric(sort_key(a, key), sort_key(b, key));
    lemma_ints_order_antisymmetric(char_codes(a.name@), char_codes(b.name@));
}

pub proof fn lemma_entry_order_transitive(
    a: Entry,
    b: Entry,
    c: Entry,
    key: SortKey,
    reverse: bool,
)
    requires
        entry_order(a, b, key, reverse) <= 0,
        entry_order(b, c, key, reverse) <= 0,
    ensures
        entry_order(a, c, key, reverse) <= 0,
{
    let (ka, kb, kc) = (sort_key(a, key), sort_key(b, key), sort_key(c, key));
    let (na, nb, nc) = (char_codes(a.name@), char_codes(b.name@), char_codes(c.name@));
    lemma_ints_order_antisymmetric(ka, kb);
    lemma_ints_order_antisymmetric(kb, kc);
    lemma_ints_order_antisymmetric(ka, kc);
    lemma_ints_order_antisymmetric(kb, ka);
    lemma_ints_order_antisymmetric(kc, kb);
    lemma_ints_order_antisymmetric(kc, ka);
    if reverse {
        if ints_order(kc, kb) <= 0 && ints_order(kb, ka) <= 0 {
            lemma_ints_order_transitive(kc, kb, ka);
        }
    } else {
        if ints_order(ka, kb) <= 0 && ints_order(kb, kc) <= 0 {
            lemma_ints_order_transitive(ka, kb, kc);
        }
    }
    if ints_order(ka, kb) == 0 && ints_order(kb, kc) == 0 {
        lemma_ints_order_transitive(na, nb, nc);
    }
}

/// Three-way comparison of two texts by code points.
pub(crate) fn compare_texts(a: &Vec<char>, b: &Vec<char>) -> (r: i8)
    ensures
        r == ints_order(char_codes(a@), char_codes(b@)),
{
    let mut i: usize = 0;
    assert(char_codes(a@).skip(0) =~= char_codes(a@));
    assert(char_codes(b@).skip(0) =~= char_codes(b@));
    while i < a.len() && i < b.len()
        invariant
            i <= a.len(),
            i <= b.len(),
            ints_order(char_codes(a@), char_codes(b@)) == ints_order(
                char_codes(a@).skip(i as int),
                char_codes(b@).skip(i as int),
            ),
        decreases a.len() - i,
    {
        let x = a[i] as u32;
        let y = b[i] as u32;
        let ghost sa = char_codes(a@).skip(i as int);
        let ghost sb = char_codes(b@).skip(i as int);
        assert(sa.len() > 0 && sb.len() > 0);
        assert(sa[0] == char_codes(a@)[i as int]);
        assert(sb[0] == char_codes(b@)[i as int]);
        assert(sa[0] == x);
        assert(sb[0] == y);
        if x < y {
            return -1;
        }
        if x > y {
            return 1;
        }
        assert(sa.drop_first() =~= char_codes(a@).skip(i + 1));
        assert(sb.drop_first() =~= char_codes(b@).skip(i + 1));
        i = i + 1;
    }
    let ghost sa = char_codes(a@).skip(i as int);
    let ghost sb = char_codes(b@).skip(i as int);
    if i < a.len() {
        assert(sb.len() == 0);
        1
    } else if i < b.len() {
        assert(sa.len() == 0);
        -1
    } else {
        assert(sa.len() == 0 && sb.len() == 0);
        0
    }
}

fn compare_u64(a: u64, b: u64) -> (r: i8)
    ensures
        r == ints_order(seq![a as int], seq![b as int]),
{
    reveal_with_fuel(ints_order, 2);
    let ghost sa = seq![a as int];
    let ghost sb = seq![b as int];
    assert(sa.drop_first().len() == 0 && sb.drop_first().len() == 0);
    if a < b {
        -1
    } else if a > b {
        1
    } else {
        0
    }
}

fn compare_times(a: Option<Timestamp>, b: Option<Timestamp>) -> (r: i8)
    ensures
        r == ints_order(
            match a {
                None => seq![0],
                Some(t) => seq![1, t.secs as int, t.nanos as int],
            },
            match b {
                None => seq![0],
                Some(t) => seq![1, t.secs as int, t.nanos as int],
            },
        ),
{
    reveal_with_fuel(ints_order, 4);
    match (a, b) {
        (None, None) => {
            assert(seq![0int].drop_first().len() == 0);
            0
        },
        (None, Some(_)) => -1,
        (Some(_), None) => 1,
        (Some(x), Some(y)) => {
            let ghost sa = seq![1, x.secs as int, x.nanos as int];
            let ghost sb = seq![1, y.secs as int, y.nanos as int];
            assert(sa.drop_first() =~= seq![x.secs as int, x.nanos as int]);
            assert(sb.drop_first() =~= seq![y.secs as int, y.nanos as int]);
            assert(sa.drop_first().drop_first() =~= seq![x.nanos as int]);
            assert(sb.drop_first().drop_first() =~= seq![y.nanos as int]);
            assert(sa.drop_first().drop_first().drop_first().len() == 0);
            assert(sb.drop_first().drop_first().drop_first().len() == 0);
            if x.secs < y.secs {
                -1
            } else if x.secs > y.secs {
                1
            } else if x.nanos < y.nanos {
                -1
            } else if x.nanos > y.nanos {
                1
            } else {
                0
            }
        },
    }
}

/// The text after the last `.` of a name, or the empty text.
pub fn extension(name: &Vec<char>) -> (ext: Vec<char>)
    ensures
        ext@ == extension_text(name@),
{
    match crate::text::rsplit_once(name, '.') {
        Some((_, ext)) => ext,
        None => Vec::new(),
    }
}

/// The order of two entries by the primary key alone, as a sign.
pub fn primary_order(left: &Entry, right: &Entry, key: SortKey) -> (r: i8)
    ensures
        r == ints_order(sort_key(*left, key), sort_key(*right, key)),
{
    match key {
        SortKey::Name => compare_texts(&chars_of(left.name.as_str()), &chars_of(right.name.as_str())),
        SortKey::Size => compare_u64(left.size, right.size),
        SortKey::Time => compare_times(left.modified, right.modified),
        SortKey::Extension => compare_texts(
            &extension(&chars_of(left.name.as_str())),
            &extension(&chars_of(right.name.as_str())),
        ),
    }
}

/// The sign turned around when `reverse` is set.
pub fn maybe_reverse(ordering: i8, reverse: bool) -> (r: i8)
    requires
        -1 <= ordering <= 1,
    ensures
        r == if reverse {
            -ordering
        } else {
            ordering as int
        },
{
    if reverse {
        -ordering
    } else {
        ordering
    }
}

/// The order of two entries as a sign (negative when `left` comes first):
/// the primary key first, names on ties.
pub fn compare_entries(left: &Entry, right: &Entry, config: &Config) -> (r: i8)
    ensures
        r == entry_order(*left, *right, config.sort_key, config.reverse),
{
    let ordering = primary_order(left, right, config.sort_key);
    proof {
        lemma_ints_order_antisymmetric(
            sort_key(*left, config.sort_key),
            sort_key(*right, config.sort_key),
        );
    }
    let ordering = maybe_reverse(ordering, config.reverse);
    if ordering == 0 {
        compare_texts(&chars_of(left.name.as_str()), &chars_of(right.name.as_str()))
    } else {
        ordering
    }
}

// ---------------------------------------------------------------------------
// Which entries are shown
// ---------------------------------------------------------------------------

/// Names starting with `.` are hidden.
pub open spec fn hidden_name(name: Seq<char>) -> bool {
    name.len() > 0 && name[0] == '.'
}

pub fn is_hidden(name: &Vec<char>) -> (b: bool)
    ensures
        b == hidden_name(name@),
{
    name.len() > 0 && name[0] == '.'
}

/// ASCII upper-case letters turned to lower case; every other character
/// is kept.
pub open spec fn ascii_lower_char(c: char) -> char {
    if 'A' <= c <= 'Z' {
        ((c as u32) + 32) as char
    } else {
        c
    }
}

pub open spec fn ascii_lower(s: Seq<char>) -> Seq<char> {
    s.map_values(|c: char| ascii_lower_char(c))
}

pub fn to_ascii_lowercase(v: &Vec<char>) -> (r: Vec<char>)
    ensures
        r@ == ascii_lower(v@),
{
    let mut r: Vec<char> = Vec::new();
    for i in 0..v.len()
        invariant
            r@ == ascii_lower(v@.take(i as int)),
    {
        let c = v[i];
        let lower = if 'A' <= c && c <= 'Z' {
            ((c as u8) + 32) as char
        } else {
            c
        };
        assert(lower == ascii_lower_char(c));
        r.push(lower);
        assert(ascii_lower(v@.take(i + 1)) =~= ascii_lower(v@.take(i as int)).push(
            ascii_lower_char(c),
        ));
    }
    assert(v@.take(v.len() as int) =~= v@);
    r
}

/// Names that are secrets as a whole.
pub open spec fn sensitive_exact(lower: Seq<char>) -> bool {
    lower == ".env"@ || lower == ".env.local"@ || lower == "id_rsa"@ || lower == "id_dsa"@ || lower
        == "id_ed25519"@
}

/// Words that mark a name as likely secret wherever they occur.
pub open spec fn sensitive_fragment(lower: Seq<char>) -> bool {
    crate::text::occurs_in("secret"@, lower) || crate::text::occurs_in("credential"@, lower)
        || crate::text::occurs_in("password"@, lower) || crate::text::occurs_in(
        "private_key"@,
        lower,
    )
}

/// A name is sensitive when, ignoring ASCII case, it is one of the known
/// secret file names or contains one of the secret words.
pub open spec fn sensitive_name(name: Seq<char>) -> bool {
    sensitive_exact(ascii_lower(name)) || sensitive_fragment(ascii_lower(name))
}

fn literal_is(v: &Vec<char>, lit: &str) -> (b: bool)
    ensures
        b == (v@ == lit@),
{
    crate::text::same_chars(v, &chars_of(lit))
}

fn contains_literal(v: &Vec<char>, lit: &str) -> (b: bool)
    ensures
        b == crate::text::occurs_in(lit@, v@),
{
    crate::text::contains_seq(v, &chars_of(lit))
}

pub fn is_sensitive_exact(name: &Vec<char>) -> (b: bool)
    ensures
        b == sensitive_exact(name@),
{
    literal_is(name, ".env") || literal_is(name, ".env.local") || literal_is(name, "id_rsa")
        || literal_is(name, "id_dsa") || literal_is(name, "id_ed25519")
}

pub fn is_sensitive_fragment(name: &Vec<char>) -> (b: bool)
    ensures
        b == sensitive_fragment(name@),
{
    contains_literal(name, "secret") || contains_literal(name, "credential") || contains_literal(
        name,
        "password",
    ) || contains_literal(name, "private_key")
}

pub fn is_sensitive_name(name: &str) -> (b: bool)
    ensures
        b == sensitive_name(name@),
{
    let lower = to_ascii_lowercase(&chars_of(name));
    is_sensitive_exact(&lower) || is_sensitive_fragment(&lower)
}

pub open spec fn file_like(kind: FileKind) -> bool {
    kind == FileKind::File || kind == FileKind::Executable
}

pub open spec fn link_like(kind: FileKind) -> bool {
    kind == FileKind::Symlink || kind == FileKind::BrokenSymlink
}

/// Whether an entry of this kind passes the `--type` filter.
pub open spec fn kind_passes(kind: FileKind, filter: Option<TypeFilter>) -> bool {
    match filter {
        Some(TypeFilter::File) => file_like(kind),
        Some(TypeFilter::Directory) => kind == FileKind::Directory,
        Some(TypeFilter::Link) => link_like(kind),
        None => true,
    }
}

pub fn is_file_like(kind: FileKind) -> (b: bool)
    ensures
        b == file_like(kind),
{
    matches!(kind, FileKind::File | FileKind::Executable)
}

pub fn is_link_like(kind: FileKind) -> (b: bool)
    ensures
        b == link_like(kind),
{
    matches!(kind, FileKind::Symlink | FileKind::BrokenSymlink)
}

pub fn type_matches(entry: &Entry, filter: Option<TypeFilter>) -> (b: bool)
    ensures
        b == kind_passes(entry.kind, filter),
{
    match filter {
        Some(TypeFilter::File) => is_file_like(entry.kind),
        Some(TypeFilter::Directory) => entry.kind == FileKind::Directory,
        Some(TypeFilter::Link) => is_link_like(entry.kind),
        None => true,
    }
}

// ---------------------------------------------------------------------------
// Ignore files
// ---------------------------------------------------------------------------

/// The characters that count as white space when trimming (Unicode
/// `White_Space`).
pub open spec fn white_space(c: char) -> bool {
    ||| '\t' <= c <= '\r'
    ||| c == ' '
    ||| c == '\u{85}'
    ||| c == '\u{a0}'
    ||| c == '\u{1680}'
    ||| '\u{2000}' <= c <= '\u{200a}'
    ||| c == '\u{2028}'
    ||| c == '\u{2029}'
    ||| c == '\u{202f}'
    ||| c == '\u{205f}'
    ||| c == '\u{3000}'
}

pub fn is_white_space(c: char) -> (b: bool)
    ensures
        b == white_space(c),
{
    ('\t' <= c && c <= '\r') || c == ' ' || c == '\u{85}' || c == '\u{a0}' || c == '\u{1680}' || (
    '\u{2000}' <= c && c <= '\u{200a}') || c == '\u{2028}' || c == '\u{2029}' || c == '\u{202f}'
        || c == '\u{205f}' || c == '\u{3000}'
}

/// `s` without the leading characters that satisfy `f`.
pub open spec fn strip_front(s: Seq<char>, f: spec_fn(char) -> bool) -> Seq<char>
    decreases s.len(),
{
    if s.len() > 0 && f(s[0]) {
        strip_front(s.drop_first(), f)
    } else {
        s
    }
}

/// `s` without the trailing characters that satisfy `f`.
pub open spec fn strip_back(s: Seq<char>, f: spec_fn(char) -> bool) -> Seq<char>
    decreases s.len(),
{
    if s.len() > 0 && f(s.last()) {
        strip_back(s.drop_last(), f)
    } else {
        s
    }
}

pub open spec fn white_space_fn() -> spec_fn(char) -> bool {
    |c: char| white_space(c)
}

pub open spec fn slash_fn() -> spec_fn(char) -> bool {
    |c: char| c == '/'
}

/// `s` without white space at either end.
pub open spec fn trimmed(s: Seq<char>) -> Seq<char> {
    strip_back(strip_front(s, white_space_fn()), white_space_fn())
}

/// `s` without `/` at either end.
pub open spec fn without_slashes(s: Seq<char>) -> Seq<char> {
    strip_back(strip_front(s, slash_fn()), slash_fn())
}

fn strips(c: char, slashes: bool) -> (b: bool)
    ensures
        b == if slashes {
            slash_fn()(c)
        } else {
            white_space_fn()(c)
        },
{
    if slashes {
        c == '/'
    } else {
        is_white_space(c)
    }
}

/// The characters `v[from..to]` without those at either end that are white
/// space (`slashes == false`) or `/` (`slashes == true`).
pub(crate) fn strip_ends(v: &Vec<char>, slashes: bool) -> (r: Vec<char>)
    ensures
        r@ == if slashes {
            without_slashes(v@)
        } else {
            trimmed(v@)
        },
{
    let ghost f = if slashes {
        slash_fn()
    } else {
        white_space_fn()
    };
    let mut start: usize = 0;
    assert(v@.subrange(0, v.len() as int) =~= v@);
    while start < v.len() && strips(v[start], slashes)
        invariant
            start <= v.len(),
            f == (if slashes {
                slash_fn()
            } else {
                white_space_fn()
            }),
            strip_front(v@, f) == strip_front(v@.subrange(start as int, v.len() as int), f),
        decreases v.len() - start,
    {
        assert(v@.subrange(start as int, v.len() as int).drop_first() =~= v@.subrange(
            start + 1,
            v.len() as int,
        ));
        start = start + 1;
    }
    let ghost front = v@.subrange(start as int, v.len() as int);
    assert(strip_front(front, f) == front);
    let mut end: usize = v.len();
    assert(front =~= v@.subrange(start as int, end as int));
    while end > start && strips(v[end - 1], slashes)
        invariant
            start <= end <= v.len(),
            f == (if slashes {
                slash_fn()
            } else {
                white_space_fn()
            }),
            strip_back(front, f) == strip_back(v@.subrange(start as int, end as int), f),
        decreases end,
    {
        assert(v@.subrange(start as int, end as int).drop_last() =~= v@.subrange(
            start as int,
            end - 1,
        ));
        end = end - 1;
    }
    let r = crate::text::slice_chars(v, start, end);
    assert(strip_back(r@, f) == r@);
    r
}

/// The lines of a text: pieces ended by `\n` (a `\r` just before it is
/// dropped); a last piece without `\n` counts when it is not empty.
pub open spec fn text_lines(t: Seq<char>) -> Seq<Seq<char>>
    decreases t.len(),
{
    if t.len() == 0 {
        Seq::empty()
    } else {
        match crate::text::first_index(t, '\n') {
            None => seq![t],
            Some(i) => {
                proof {
                    crate::text::lemma_first_index(t, '\n');
                }
                seq![strip_cr(t.subrange(0, i))] + text_lines(t.subrange(i + 1, t.len() as int))
            },
        }
    }
}

pub open spec fn strip_cr(line: Seq<char>) -> Seq<char> {
    if line.len() > 0 && line.last() == '\r' {
        line.drop_last()
    } else {
        line
    }
}

/// What an ignore-file line means: nothing for blank lines, comments and
/// negations; otherwise the pattern without surrounding `/`, and whether it
/// names directories only (a trailing `/`).
pub open spec fn ignore_line_pattern(line: Seq<char>) -> Option<(Seq<char>, bool)> {
    let t = trimmed(line);
    if t.len() == 0 || t[0] == '#' || t[0] == '!' {
        None
    } else {
        Some((without_slashes(t), t.last() == '/'))
    }
}

/// The patterns of the lines, in order.
pub open spec fn patterns_of_lines(lines: Seq<Seq<char>>) -> Seq<(Seq<char>, bool)>
    decreases lines.len(),
{
    if lines.len() == 0 {
        Seq::empty()
    } else {
        match ignore_line_pattern(lines[0]) {
            Some(p) => seq![p] + patterns_of_lines(lines.drop_first()),
            None => patterns_of_lines(lines.drop_first()),
        }
    }
}

/// The patterns of an ignore file's text.
pub open spec fn ignore_patterns_of(text: Seq<char>) -> Seq<(Seq<char>, bool)> {
    patterns_of_lines(text_lines(text))
}

/// One line of an ignore file.
#[derive(Debug, Clone, PartialEq, Eq)]
pub struct IgnorePattern {
    pub text: String,
    pub dir_only: bool,
}

impl View for IgnorePattern {
    type V = (Seq<char>, bool);

    open spec fn view(&self) -> (Seq<char>, bool) {
        (self.text@, self.dir_only)
    }
}

pub open spec fn pattern_views(v: Seq<IgnorePattern>) -> Seq<(Seq<char>, bool)> {
    v.map_values(|p: IgnorePattern| p@)
}

pub fn parse_ignore_line(line: &Vec<char>) -> (r: Option<IgnorePattern>)
    ensures
        match ignore_line_pattern(line@) {
            Some(p) => r is Some && r->Some_0@ == p,
            None => r is None,
        },
{
    let trimmed = strip_ends(line, false);
    if trimmed.len() == 0 || trimmed[0] == '#' || trimmed[0] == '!' {
        return None;
    }
    let dir_only = trimmed[trimmed.len() - 1] == '/';
    Some(IgnorePattern { text: clean_ignore_pattern(&trimmed), dir_only })
}

pub fn clean_ignore_pattern(pattern: &Vec<char>) -> (s: String)
    ensures
        s@ == without_slashes(pattern@),
{
    crate::text::string_of(&strip_ends(pattern, true))
}

/// Position of the first `c` at or after `from`.
pub(crate) fn find_from(v: &Vec<char>, c: char, from: usize) -> (r: Option<usize>)
    requires
        from <= v.len(),
    ensures
        match crate::text::first_index(v@.subrange(from as int, v.len() as int), c) {
            Some(i) => r == Some((from + i) as usize),
            None => r is None,
        },
{
    let ghost s = v@.subrange(from as int, v.len() as int);
    proof {
        crate::text::lemma_first_index(s, c);
    }
    let mut i = from;
    while i < v.len()
        invariant
            from <= i <= v.len(),
            s == v@.subrange(from as int, v.len() as int),
            forall|k: int| from <= k < i ==> v@[k] != c,
        decreases v.len() - i,
    {
        if v[i] == c {
            proof {
                crate::text::lemma_first_index_at(s, c, i - from);
            }
            return Some(i);
        }
        i = i + 1;
    }
    proof {
        crate::text::lemma_first_index_at(s, c, s.len() as int);
    }
    None
}

/// The line starting at `pos` (without its line ending) and where the
/// next one starts.
pub(crate) fn next_line(t: &Vec<char>, pos: usize) -> (r: (Vec<char>, usize))
    requires
        pos < t.len(),
    ensures
        pos < r.1 <= t.len(),
        text_lines(t@.subrange(pos as int, t.len() as int)) == seq![r.0@] + text_lines(
            t@.subrange(r.1 as int, t.len() as int),
        ),
{
    let ghost rest = t@.subrange(pos as int, t.len() as int);
    proof {
        crate::text::lemma_first_index(rest, '\n');
    }
    match find_from(t, '\n', pos) {
        Some(i) => {
            let mut end = i;
            if end > pos && t[end - 1] == '\r' {
                end = end - 1;
            }
            let line = crate::text::slice_chars(t, pos, end);
            proof {
                let k = i - pos;
                assert(rest.subrange(0, k) =~= t@.subrange(pos as int, i as int));
                assert(rest.subrange(k + 1, rest.len() as int) =~= t@.subrange(
                    i + 1,
                    t.len() as int,
                ));
                assert(strip_cr(t@.subrange(pos as int, i as int)) =~= line@);
                assert(text_lines(rest) =~= seq![line@] + text_lines(
                    t@.subrange(i + 1, t.len() as int),
                ));
            }
            (line, i + 1)
        },
        None => {
            let line = crate::text::slice_chars(t, pos, t.len());
            proof {
                assert(text_lines(rest) =~= seq![line@]);
                assert(t@.subrange(t.len() as int, t.len() as int) =~= Seq::<char>::empty());
                assert(text_lines(t@.subrange(t.len() as int, t.len() as int)) =~= Seq::<
                    Seq<char>,
                >::empty());
                assert(seq![line@] + Seq::<Seq<char>>::empty() =~= seq![line@]);
            }
            (line, t.len())
        },
    }
}

/// The patterns of an ignore file's text, line by line.
pub fn parse_ignore_patterns(text: &str) -> (r: Vec<IgnorePattern>)
    ensures
        pattern_views(r@) == ignore_patterns_of(text@),
{
    let t = chars_of(text);
    let mut r: Vec<IgnorePattern> = Vec::new();
    let mut pos: usize = 0;
    assert(t@.subrange(0, t.len() as int) =~= t@);
    while pos < t.len()
        invariant
            pos <= t.len(),
            ignore_patterns_of(text@) == pattern_views(r@) + patterns_of_lines(
                text_lines(t@.subrange(pos as int, t.len() as int)),
            ),
            t@ == text@,
        decreases t.len() - pos,
    {
        let ghost rest = t@.subrange(pos as int, t.len() as int);
        let ghost before = pattern_views(r@);
        let (line, next) = next_line(&t, pos);
        let ghost lines = text_lines(rest);
        assert(lines[0] == line@);
        assert(lines.drop_first() =~= text_lines(t@.subrange(next as int, t.len() as int)));
        match parse_ignore_line(&line) {
            Some(p) => {
                r.push(p);
                assert(pattern_views(r@) =~= before.push(p@));
            },
            None => {
                assert(pattern_views(r@) =~= before);
            },
        }
        pos = next;
    }
    assert(t@.subrange(pos as int, t.len() as int) =~= Seq::<char>::empty());
    assert(pattern_views(r@) + Seq::<(Seq<char>, bool)>::empty() =~= pattern_views(r@));
    r
}

/// A single `*` matches anything; otherwise the text before the first `*`
/// must begin the name and the text after it must end the name; without
/// `*` the name must equal the pattern.
pub open spec fn wildcard_text_matches(pattern: Seq<char>, name: Seq<char>) -> bool {
    if pattern == seq!['*'] {
        true
    } else {
        match crate::text::split_first(pattern, '*') {
            Some((start, end)) => start.is_prefix_of(name) && end.is_suffix_of(name),
            None => pattern == name,
        }
    }
}

pub fn wildcard_matches(pattern: &Vec<char>, name: &Vec<char>) -> (b: bool)
    ensures
        b == wildcard_text_matches(pattern@, name@),
{
    if pattern.len() == 1 && pattern[0] == '*' {
        assert(pattern@ =~= seq!['*']);
        return true;
    }
    assert(pattern@ != seq!['*']) by {
        if pattern@ == seq!['*'] {
            assert(pattern@.len() == 1 && pattern@[0] == '*');
        }
    }
    match crate::text::split_once(pattern, '*') {
        Some((start, end)) => crate::text::starts_with(name, &start) && crate::text::ends_with(
            name,
            &end,
        ),
        None => crate::text::same_chars(pattern, name),
    }
}

/// Whether a pattern hides an entry: directory-only patterns skip other
/// kinds.
pub open spec fn pattern_hides(p: (Seq<char>, bool), name: Seq<char>, kind: FileKind) -> bool {
    !(p.1 && kind != FileKind::Directory) && wildcard_text_matches(p.0, name)
}

impl IgnorePattern {
    pub fn matches(&self, name: &Vec<char>, kind: FileKind) -> (b: bool)
        ensures
            b == pattern_hides(self@, name@, kind),
    {
        if self.dir_only && kind != FileKind::Directory {
            return false;
        }
        wildcard_matches(&chars_of(self.text.as_str()), name)
    }
}

/// The patterns of one directory's ignore file.
pub struct IgnoreMatcher {
    pub patterns: Vec<IgnorePattern>,
}

/// Whether any pattern hides the entry.
pub open spec fn ignored_by(patterns: Seq<(Seq<char>, bool)>, name: Seq<char>, kind: FileKind) -> bool {
    exists|i: int| 0 <= i < patterns.len() && pattern_hides(#[trigger] patterns[i], name, kind)
}

impl IgnoreMatcher {
    /// The matcher for a directory whose ignore file holds `text`; none of
    /// it applies when ignored files are shown anyway.
    pub fn from_text(text: &str, include_ignored: bool) -> (m: IgnoreMatcher)
        ensures
            pattern_views(m.patterns@) == if include_ignored {
                Seq::empty()
            } else {
                ignore_patterns_of(text@)
            },
    {
        if include_ignored {
            let m = IgnoreMatcher { patterns: Vec::new() };
            assert(pattern_views(m.patterns@) =~= Seq::<(Seq<char>, bool)>::empty());
            return m;
        }
        IgnoreMatcher { patterns: parse_ignore_patterns(text) }
    }

    pub fn is_ignored(&self, name: &Vec<char>, kind: FileKind) -> (b: bool)
        ensures
            b == ignored_by(pattern_views(self.patterns@), name@, kind),
    {
        let ghost pv = pattern_views(self.patterns@);
        for i in 0..self.patterns.len()
            invariant
                pv == pattern_views(self.patterns@),
                forall|k: int| 0 <= k < i ==> !pattern_hides(#[trigger] pv[k], name@, kind),
        {
            if self.patterns[i].matches(name, kind) {
                assert(pattern_hides(pv[i as int], name@, kind));
                return true;
            }
        }
        false
    }
}

/// Whether an entry read from a directory is listed: hidden names only with
/// `--all`, nothing the ignore file hides, and only kinds the type filter
/// lets through.
pub open spec fn included(
    e: Entry,
    include_hidden: bool,
    patterns: Seq<(Seq<char>, bool)>,
    filter: Option<TypeFilter>,
) -> bool {
    &&& !(hidden_name(e.name@) && !include_hidden)
    &&& !ignored_by(patterns, e.name@, e.kind)
    &&& kind_passes(e.kind, filter)
}

pub fn should_include(entry: &Entry, config: &Config, matcher: &IgnoreMatcher) -> (b: bool)
    ensures
        b == included(
            *entry,
            config.include_hidden,
            pattern_views(matcher.patterns@),
            config.type_filter,
        ),
{
    let name = chars_of(entry.name.as_str());
    if is_hidden(&name) && !config.include_hidden {
        return false;
    }
    if matcher.is_ignored(&name, entry.kind) {
        return false;
    }
    type_matches(entry, config.type_filter)
}


// ---------------------------------------------------------------------------
// Entries from what the file system reported
// ---------------------------------------------------------------------------

/// What the file system reports of one path, without following a final
/// symbolic link.
#[derive(Debug, Clone, Copy, PartialEq, Eq)]
pub struct RawMeta {
    pub is_symlink: bool,
    /// For a symbolic link: whether what it points to exists.
    pub target_exists: bool,
    pub is_dir: bool,
    pub is_file: bool,
    /// The permission bits (zero where the platform has none).
    pub mode: u32,
    pub len: u64,
    pub modified: Option<Timestamp>,
}

/// The kind of an entry: links first (broken when their target is
/// missing), then directories, executables (any execute bit), plain files
/// and everything else.
pub open spec fn kind_of(m: RawMeta) -> FileKind {
    if m.is_symlink {
        if m.target_exists {
            FileKind::Symlink
        } else {
            FileKind::BrokenSymlink
        }
    } else if m.is_dir {
        FileKind::Directory
    } else if m.is_file && (m.mode & 0o111u32) != 0 {
        FileKind::Executable
    } else if m.is_file {
        FileKind::File
    } else {
        FileKind::Other
    }
}

pub fn is_executable(m: &RawMeta) -> (b: bool)
    ensures
        b == ((m.mode & 0o111u32) != 0),
{
    m.mode & 0o111u32 != 0
}

pub fn classify_link(target_exists: bool) -> (k: FileKind)
    ensures
        k == if target_exists {
            FileKind::Symlink
        } else {
            FileKind::BrokenSymlink
        },
{
    if target_exists {
        FileKind::Symlink
    } else {
        FileKind::BrokenSymlink
    }
}

pub fn classify_file(m: &RawMeta) -> (k: FileKind)
    ensures
        k == if m.is_file && (m.mode & 0o111u32) != 0 {
            FileKind::Executable
        } else if m.is_file {
            FileKind::File
        } else {
            FileKind::Other
        },
{
    if m.is_file && is_executable(m) {
        return FileKind::Executable;
    }
    if m.is_file {
        FileKind::File
    } else {
        FileKind::Other
    }
}

pub fn classify(m: &RawMeta) -> (k: FileKind)
    ensures
        k == kind_of(*m),
{
    if m.is_symlink {
        return classify_link(m.target_exists);
    }
    if m.is_dir {
        return FileKind::Directory;
    }
    classify_file(m)
}

/// The entry for a path and its name.
pub open spec fn entry_of(path: String, name: String, m: RawMeta) -> Entry {
    Entry {
        path: path,
        name: name,
        kind: kind_of(m),
        size: m.len,
        modified: m.modified,
        sensitive: sensitive_name(name@),
    }
}

pub fn make_entry_with_name(path: String, name: String, m: &RawMeta) -> (e: Entry)
    ensures
        e == entry_of(path, name, *m),
{
    let sensitive = is_sensitive_name(name.as_str());
    Entry { kind: classify(m), size: m.len, modified: m.modified, sensitive, path, name }
}

/// The last component of a path, as `std::path::Path::file_name` returns it.
pub uninterp spec fn path_file_name(path: Seq<char>) -> Option<Seq<char>>;

/// The path without its last component, as `std::path::Path::parent`
/// returns it.
pub uninterp spec fn path_parent(path: Seq<char>) -> Option<Seq<char>>;

/// A path of one plain component: not empty, not `.` or `..`, and without
/// a separator or drive mark of any platform (`/`, `\\`, `:`).
pub open spec fn plain_name(path: Seq<char>) -> bool {
    &&& path.len() > 0
    &&& path != "."@
    &&& path != ".."@
    &&& forall|i: int| 0 <= i < path.len() ==> #[trigger] path[i] != '/' && path[i] != '\\' && path[i]
        != ':'
}

/// Calls `std::path::Path::file_name`; the result is claimed to be
/// `path_file_name` of the path, and for a path of one plain component the
/// component itself, as the documentation says. Paths here are valid
/// UTF-8, so the lossy conversion of the component changes nothing.
#[verifier::external_body]
fn file_name_of(path: &str) -> (r: Option<String>)
    ensures
        match r {
            Some(n) => path_file_name(path@) == Some(n@),
            None => path_file_name(path@) is None,
        },
        match r {
            Some(n) => plain_name(path@) ==> n@ == path@,
            None => !plain_name(path@),
        },
{
    match std::path::Path::new(path).file_name() {
        Some(name) => Some(name.to_string_lossy().into_owned()),
        None => None,
    }
}

/// Calls `std::path::Path::parent`; the result is claimed to be
/// `path_parent` of the path, and shorter than it (the parent is the path
/// with its last component cut off).
#[verifier::external_body]
pub(crate) fn parent_of(path: &str) -> (r: Option<String>)
    ensures
        match r {
            Some(p) => path_parent(path@) == Some(p@) && p@.len() < path@.len(),
            None => path_parent(path@) is None,
        },
{
    match std::path::Path::new(path).parent() {
        Some(dir) => Some(dir.to_string_lossy().into_owned()),
        None => None,
    }
}

/// The name shown for a path given on the command line: its last
/// component, or the whole path when it has none (such as `..` or `/`).
pub open spec fn display_name_text(path: Seq<char>) -> Seq<char> {
    match path_file_name(path) {
        Some(n) => n,
        None => path,
    }
}

/// The section a single path given on the command line is listed under:
/// its parent, or `.` when it has none.
pub open spec fn section_path_text(path: Seq<char>) -> Seq<char> {
    match path_parent(path) {
        Some(p) => p,
        None => seq!['.'],
    }
}

pub fn display_name(path: &String) -> (name: String)
    ensures
        name@ == display_name_text(path@),
{
    match file_name_of(path.as_str()) {
        Some(name) => name,
        None => crate::text::clone_string(path),
    }
}

pub fn section_path(path: &String) -> (dir: String)
    ensures
        dir@ == section_path_text(path@),
{
    match parent_of(path.as_str()) {
        Some(dir) => dir,
        None => {
            let dot = String::from_str(".");
            proof {
                reveal_strlit(".");
            }
            assert(dot@ =~= seq!['.']);
            dot
        },
    }
}

/// The entry for a path given on the command line, named after its last
/// component.
pub fn make_entry(path: &String, m: &RawMeta) -> (e: Entry)
    ensures
        e.path@ == path@,
        e.name@ == display_name_text(path@),
        e.kind == kind_of(*m),
        e.size == m.len,
        e.modified == m.modified,
        e.sensitive == sensitive_name(display_name_text(path@)),
{
    let name = display_name(path);
    make_entry_with_name(crate::text::clone_string(path), name, m)
}

/// One item of a directory as it was read: its name, its path and, when
/// they could be read, its metadata.
#[derive(Debug, Clone, PartialEq, Eq)]
pub struct RawItem {
    pub name: String,
    pub path: String,
    pub meta: Option<RawMeta>,
}

/// The entries of the items that are listed, in the order read. Items
/// whose metadata could not be read are left out silently.
pub open spec fn listed_entries(
    items: Seq<Result<RawItem, String>>,
    include_hidden: bool,
    patterns: Seq<(Seq<char>, bool)>,
    filter: Option<TypeFilter>,
) -> Seq<Entry>
    decreases items.len(),
{
    if items.len() == 0 {
        Seq::empty()
    } else {
        let prev = listed_entries(items.drop_last(), include_hidden, patterns, filter);
        match items.last() {
            Ok(item) => match item.meta {
                Some(m) => {
                    let e = entry_of(item.path, item.name, m);
                    if included(e, include_hidden, patterns, filter) {
                        prev.push(e)
                    } else {
                        prev
                    }
                },
                None => prev,
            },
            Err(_) => prev,
        }
    }
}

/// The messages of the items that could not be read, in order.
pub open spec fn item_errors(items: Seq<Result<RawItem, String>>) -> Seq<Seq<char>>
    decreases items.len(),
{
    if items.len() == 0 {
        Seq::empty()
    } else {
        let prev = item_errors(items.drop_last());
        match items.last() {
            Ok(_) => prev,
            Err(message) => prev.push(message@),
        }
    }
}

/// One item: its entry when it is listed; a failed read adds its message
/// to `errors`.
pub fn read_entry(
    item: Result<RawItem, String>,
    config: &Config,
    matcher: &IgnoreMatcher,
    errors: &mut Vec<String>,
) -> (r: Option<Entry>)
    ensures
        match item {
            Ok(it) => final(errors)@ == old(errors)@ && match it.meta {
                Some(m) => if included(
                    entry_of(it.path, it.name, m),
                    config.include_hidden,
                    pattern_views(matcher.patterns@),
                    config.type_filter,
                ) {
                    r == Some(entry_of(it.path, it.name, m))
                } else {
                    r is None
                },
                None => r is None,
            },
            Err(message) => final(errors)@ == old(errors)@.push(message) && r is None,
        },
{
    match item {
        Ok(it) => {
            match it.meta {
                Some(m) => {
                    let entry = make_entry_with_name(it.path, it.name, &m);
                    if should_include(&entry, config, matcher) {
                        Some(entry)
                    } else {
                        None
                    }
                },
                None => None,
            }
        },
        Err(message) => {
            errors.push(message);
            None
        },
    }
}

/// The listed entries of a directory's items, in the order read; the
/// messages of unreadable items go to `errors`.
pub fn read_entries(
    items: Vec<Result<RawItem, String>>,
    config: &Config,
    matcher: &IgnoreMatcher,
    errors: &mut Vec<String>,
) -> (entries: Vec<Entry>)
    ensures
        entries@ == listed_entries(
            items@,
            config.include_hidden,
            pattern_views(matcher.patterns@),
            config.type_filter,
        ),
        crate::text::views(final(errors)@) == crate::text::views(old(errors)@) + item_errors(
            items@,
        ),
{
    let ghost all = items@;
    let ghost pv = pattern_views(matcher.patterns@);
    let ghost start = crate::text::views(errors@);
    let mut entries: Vec<Entry> = Vec::new();
    for item in it: items.into_iter()
        invariant
            it.seq() == all,
            pv == pattern_views(matcher.patterns@),
            entries@ == listed_entries(
                all.take(it.index() as int),
                config.include_hidden,
                pv,
                config.type_filter,
            ),
            crate::text::views(errors@) == start + item_errors(all.take(it.index() as int)),
    {
        let ghost k = it.index() as int;
        let ghost before = crate::text::views(errors@);
        proof {
            assert(all.take(k + 1).drop_last() =~= all.take(k));
            assert(all.take(k + 1).last() == item);
        }
        match read_entry(item, config, matcher, errors) {
            Some(e) => {
                entries.push(e);
            },
            None => {},
        }
        proof {
            assert(crate::text::views(errors@) =~= start + item_errors(all.take(k + 1))) by {
                match item {
                    Ok(_) => {},
                    Err(m) => {
                        assert(crate::text::views(errors@) =~= before.push(m@));
                    },
                }
            }
        }
    }
    proof {
        assert(all.take(all.len() as int) =~= all);
    }
    entries
}

// ---------------------------------------------------------------------------
// Sorting
// ---------------------------------------------------------------------------

/// The order of entries as a function of two entries.
pub open spec fn entry_ord(key: SortKey, reverse: bool) -> spec_fn(Entry, Entry) -> int {
    |a: Entry, b: Entry| entry_order(a, b, key, reverse)
}

/// Two entries that tie with a third tie with each other.
proof fn lemma_ties_are_shared(a: Entry, e: Entry, x: Entry, key: SortKey, reverse: bool)
    requires
        entry_order(a, x, key, reverse) == 0,
        entry_order(e, x, key, reverse) == 0,
    ensures
        entry_order(a, e, key, reverse) == 0,
{
    lemma_entry_order_antisymmetric(a, x, key, reverse);
    lemma_entry_order_antisymmetric(e, x, key, reverse);
    lemma_entry_order_antisymmetric(a, e, key, reverse);
    lemma_entry_order_transitive(a, x, e, key, reverse);
    lemma_entry_order_transitive(e, x, a, key, reverse);
}

/// Puts `e` among sorted entries after every entry that comes strictly
/// before it, so ahead of the entries it ties with.
fn insert_sorted(out: &mut Vec<Entry>, e: Entry, config: &Config)
    requires
        sorted_by(old(out)@, config.sort_key, config.reverse),
    ensures
        sorted_by(final(out)@, config.sort_key, config.reverse),
        final(out)@.to_multiset() == old(out)@.to_multiset().insert(e),
        forall|x: Entry|
            #[trigger] tied(final(out)@, x, entry_ord(config.sort_key, config.reverse)) == if entry_order(
                e,
                x,
                config.sort_key,
                config.reverse,
            ) == 0 {
                seq![e] + tied(old(out)@, x, entry_ord(config.sort_key, config.reverse))
            } else {
                tied(old(out)@, x, entry_ord(config.sort_key, config.reverse))
            },
{
    let ghost key = config.sort_key;
    let ghost reverse = config.reverse;
    let mut p: usize = 0;
    while p < out.len() && compare_entries(&out[p], &e, config) < 0
        invariant
            p <= out.len(),
            key == config.sort_key,
            reverse == config.reverse,
            forall|k: int| 0 <= k < p ==> entry_order(#[trigger] out@[k], e, key, reverse) < 0,
        decreases out.len() - p,
    {
        p = p + 1;
    }
    let ghost before = out@;
    proof {
        if p < out.len() {
            lemma_entry_order_antisymmetric(before[p as int], e, key, reverse);
        }
        assert forall|q: int| p <= q < before.len() implies entry_order(
            e,
            #[trigger] before[q],
            key,
            reverse,
        ) <= 0 by {
            if q > p {
                assert(entry_order(before[p as int], before[q], key, reverse) <= 0);
                lemma_entry_order_transitive(e, before[p as int], before[q], key, reverse);
            }
        }
        vstd::seq_lib::to_multiset_insert(before, p as int, e);
    }
    out.insert(p, e);
    proof {
        let ord = entry_ord(key, reverse);
        assert forall|x: Entry| #[trigger] tied(out@, x, ord) == if entry_order(e, x, key, reverse)
            == 0 {
            seq![e] + tied(before, x, ord)
        } else {
            tied(before, x, ord)
        } by {
            if entry_order(e, x, key, reverse) == 0 {
                assert forall|k: int| 0 <= k < p implies ord(#[trigger] before[k], x) != 0 by {
                    if entry_order(before[k], x, key, reverse) == 0 {
                        lemma_ties_are_shared(before[k], e, x, key, reverse);
                        assert(entry_order(before[k], e, key, reverse) < 0);
                    }
                }
            }
            lemma_tied_insert(before, p as int, e, x, ord);
        }
        assert forall|i: int, j: int| 0 <= i < j < out@.len() implies #[trigger] entry_order(
            out@[i],
            out@[j],
            key,
            reverse,
        ) <= 0 by {
            if i < p && j == p {
            } else if i < p && j > p {
                assert(out@[j] == before[j - 1]);
                lemma_entry_order_transitive(out@[i], e, out@[j], key, reverse);
            } else if i == p {
                assert(out@[j] == before[j - 1]);
            } else if j < p {
            } else {
                assert(out@[i] == before[i - 1]);
                assert(out@[j] == before[j - 1]);
            }
        }
    }
}

/// Sorts the entries by the configured order; entries that tie keep their
/// relative order.
pub fn sort_entries(entries: &mut Vec<Entry>, config: &Config)
    ensures
        sorted_by(final(entries)@, config.sort_key, config.reverse),
        final(entries)@.to_multiset() == old(entries)@.to_multiset(),
        ties_keep_their_order(
            final(entries)@,
            old(entries)@,
            entry_ord(config.sort_key, config.reverse),
        ),
{
    let ghost ord = entry_ord(config.sort_key, config.reverse);
    let mut input: Vec<Entry> = Vec::new();
    std::mem::swap(&mut input, entries);
    let ghost all = input@;
    proof {
        broadcast use vstd::multiset::group_multiset_axioms;

        assert(entries@.to_multiset() =~= vstd::multiset::Multiset::empty()) by {
            vstd::seq_lib::to_multiset_len(entries@);
        }
        assert(input@.to_multiset().add(entries@.to_multiset()) =~= all.to_multiset());
        assert(all.subrange(all.len() as int, all.len() as int) =~= Seq::<Entry>::empty());
        assert(entries@ =~= Seq::<Entry>::empty());
    }
    while input.len() > 0
        invariant
            sorted_by(entries@, config.sort_key, config.reverse),
            input@.to_multiset().add(entries@.to_multiset()) == all.to_multiset(),
            input@.len() <= all.len(),
            input@ == all.subrange(0, input@.len() as int),
            ord == entry_ord(config.sort_key, config.reverse),
            ties_keep_their_order(entries@, all.subrange(input@.len() as int, all.len() as int), ord),
        decreases input.len(),
    {
        let ghost rest = input@;
        let ghost done = entries@;
        let e = input.pop().unwrap();
        proof {
            assert(rest =~= input@.push(e));
            vstd::seq_lib::to_multiset_build(input@, e);
            assert(input@ =~= all.subrange(0, input@.len() as int));
        }
        insert_sorted(entries, e, config);
        proof {
            broadcast use vstd::multiset::group_multiset_axioms;

            assert(input@.to_multiset().add(entries@.to_multiset()) =~= all.to_multiset());
            let n = input@.len() as int;
            let suffix = all.subrange(n, all.len() as int);
            let later = all.subrange(n + 1, all.len() as int);
            assert(suffix =~= seq![e] + later);
            assert forall|x: Entry| #[trigger] tied(entries@, x, ord) == tied(suffix, x, ord) by {
                lemma_tied_add(seq![e], later, x, ord);
                lemma_tied_one(e, x, ord);
                assert(tied(done, x, ord) == tied(later, x, ord));
                if entry_order(e, x, config.sort_key, config.reverse) != 0 {
                    assert(Seq::<Entry>::empty() + tied(later, x, ord) =~= tied(later, x, ord));
                }
            }
        }
    }
    proof {
        broadcast use vstd::multiset::group_multiset_axioms;

        assert(input@.to_multiset() =~= vstd::multiset::Multiset::empty()) by {
            vstd::seq_lib::to_multiset_len(input@);
        }
        assert(entries@.to_multiset() =~= all.to_multiset());
        assert(all.subrange(0, all.len() as int) =~= all);
    }
}


// ---------------------------------------------------------------------------
// Walking the paths
// ---------------------------------------------------------------------------

/// Whether the directories found at `depth` are read too: only when
/// recursing, and only above `--max-depth`.
pub open spec fn descends(recursive: bool, max_depth: Option<usize>, depth: nat) -> bool {
    recursive && match max_depth {
        Some(m) => depth < m,
        None => true,
    }
}

/// The depths a directory can be read at: a command-line path itself, or
/// a subdirectory when recursing, never deeper than `--max-depth`.
pub open spec fn depth_allowed(recursive: bool, max_depth: Option<usize>, depth: nat) -> bool {
    depth == 0 || (recursive && match max_depth {
        Some(m) => depth <= m,
        None => true,
    })
}

pub fn should_descend(config: &Config, depth: usize) -> (b: bool)
    ensures
        b == descends(config.recursive, config.max_depth, depth as nat),
{
    config.recursive && match config.max_depth {
        Some(max) => depth < max,
        None => true,
    }
}

/// The paths of the directory entries, in order.
pub open spec fn directory_paths(entries: Seq<Entry>) -> Seq<Seq<char>>
    decreases entries.len(),
{
    if entries.len() == 0 {
        Seq::empty()
    } else {
        let prev = directory_paths(entries.drop_last());
        if entries.last().kind == FileKind::Directory {
            prev.push(entries.last().path@)
        } else {
            prev
        }
    }
}

pub fn child_directories(entries: &Vec<Entry>) -> (dirs: Vec<String>)
    ensures
        crate::text::views(dirs@) == directory_paths(entries@),
{
    let mut dirs: Vec<String> = Vec::new();
    for i in 0..entries.len()
        invariant
            crate::text::views(dirs@) == directory_paths(entries@.take(i as int)),
    {
        let ghost before = crate::text::views(dirs@);
        assert(entries@.take(i + 1).drop_last() =~= entries@.take(i as int));
        if entries[i].kind == FileKind::Directory {
            dirs.push(crate::text::clone_string(&entries[i].path));
            assert(crate::text::views(dirs@) =~= before.push(entries@[i as int].path@));
        }
    }
    assert(entries@.take(entries.len() as int) =~= entries@);
    dirs
}

/// A directory still to be read, and how far below a command-line path it
/// lies.
#[derive(Debug, Clone, PartialEq, Eq)]
pub struct PendingDir {
    pub path: String,
    pub depth: usize,
}

pub open spec fn pending_views(v: Seq<PendingDir>) -> Seq<(Seq<char>, nat)> {
    v.map_values(|d: PendingDir| (d.path@, d.depth as nat))
}

/// The directories to read next, as a stack: the first one on top.
pub open spec fn stacked(paths: Seq<Seq<char>>, depth: int) -> Seq<(Seq<char>, nat)> {
    Seq::new(paths.len(), |i: int| (paths[paths.len() - 1 - i], depth as nat))
}

/// What the collector needs next.
#[derive(Debug, Clone, PartialEq, Eq)]
pub enum Request {
    /// The metadata of a path given on the command line, without following
    /// a final symbolic link.
    Inspect(String),
    /// The items of a directory with their metadata, and the text of its
    /// ignore file when it is wanted.
    ReadDirectory { path: String, with_ignore_file: bool, depth: usize },
    /// Nothing: the listing is complete.
    Finished,
}

/// What reading a directory gave: the text of its ignore file (empty when
/// there is none or it was not wanted), and its items, or `None` when the
/// directory could not be read.
#[derive(Debug, Clone, PartialEq, Eq)]
pub struct DirectoryRead {
    pub ignore_text: String,
    pub items: Option<Vec<Result<RawItem, String>>>,
}

/// The state of a collection: which command-line path comes next, which
/// directories wait to be read (the next one last) and what was gathered.
pub struct Collector {
    pub config: Config,
    pub next_path: usize,
    pub pending: Vec<PendingDir>,
    pub builder: ListingBuilder,
}

/// The section listing a single command-line path that is not a
/// directory.
pub open spec fn single_section(s: Section, path: Seq<char>, m: RawMeta) -> bool {
    &&& s.path@ == section_path_text(path)
    &&& s.entries@.len() == 1
    &&& s.entries@[0].path@ == path
    &&& s.entries@[0].name@ == display_name_text(path)
    &&& s.entries@[0].kind == kind_of(m)
    &&& s.entries@[0].size == m.len
    &&& s.entries@[0].modified == m.modified
    &&& s.entries@[0].sensitive == sensitive_name(display_name_text(path))
}

/// The message for a command-line path that could not be inspected.
pub open spec fn path_error_text(path: Seq<char>, message: Seq<char>) -> Seq<char> {
    path + ": "@ + message
}

/// The message for a directory that could not be read.
pub open spec fn directory_error_text(path: Seq<char>) -> Seq<char> {
    "cannot read directory: "@ + path
}

/// What taking the result of inspecting the next command-line path does
/// to a collector: a directory waits to be read, anything else is listed
/// on its own (when the type filter lets it through), and a failure is
/// reported as `path: message`.
pub open spec fn path_step(c: Collector, meta: Result<RawMeta, String>, d: Collector) -> bool {
    &&& d.wf()
    &&& d.config == c.config
    &&& d.next_path == c.next_path + 1
    &&& ({
        let path = c.config.paths@[c.next_path as int]@;
        let sections = c.builder.sections@;
        let errors = crate::text::views(c.builder.errors@);
        match meta {
            Ok(m) => {
                &&& crate::text::views(d.builder.errors@) == errors
                &&& if m.is_dir {
                    &&& pending_views(d.pending@) == seq![(path, 0nat)]
                    &&& d.builder.sections@ == sections
                } else {
                    &&& d.pending@.len() == 0
                    &&& if kind_passes(kind_of(m), c.config.type_filter) {
                        &&& d.builder.sections@.len() == sections.len() + 1
                        &&& d.builder.sections@.drop_last() == sections
                        &&& single_section(d.builder.sections@.last(), path, m)
                    } else {
                        d.builder.sections@ == sections
                    }
                }
            },
            Err(message) => {
                &&& d.pending@.len() == 0
                &&& d.builder.sections@ == sections
                &&& crate::text::views(d.builder.errors@) == errors.push(
                    path_error_text(path, message@),
                )
            },
        }
    })
}

/// What taking the result of reading the directory on top of the stack
/// does to a collector: its listed entries, sorted, become a section;
/// unreadable items are reported; its subdirectories wait to be read,
/// first one on top, when the options descend below its depth. An
/// unreadable directory gives an empty section and
/// `cannot read directory: path`.
pub open spec fn directory_step(c: Collector, read: DirectoryRead, d: Collector) -> bool {
    &&& d.wf()
    &&& d.config == c.config
    &&& d.next_path == c.next_path
    &&& d.builder.sections@.len() == c.builder.sections@.len() + 1
    &&& d.builder.sections@.drop_last() == c.builder.sections@
    &&& d.builder.sections@.last().path@ == c.pending@.last().path@
    &&& ({
        let dir = c.pending@.last();
        let rest = pending_views(c.pending@.drop_last());
        let config = c.config;
        let patterns = if config.include_ignored {
            Seq::empty()
        } else {
            ignore_patterns_of(read.ignore_text@)
        };
        let section = d.builder.sections@.last();
        let errors = crate::text::views(c.builder.errors@);
        match read.items {
            None => {
                &&& section.entries@.len() == 0
                &&& crate::text::views(d.builder.errors@) == errors.push(
                    directory_error_text(dir.path@),
                )
                &&& pending_views(d.pending@) == rest
            },
            Some(items) => {
                &&& sorted_by(section.entries@, config.sort_key, config.reverse)
                &&& section.entries@.to_multiset() == listed_entries(
                    items@,
                    config.include_hidden,
                    patterns,
                    config.type_filter,
                ).to_multiset()
                &&& crate::text::views(d.builder.errors@) == errors
                    + item_errors(items@)
                &&& pending_views(d.pending@) == rest + if descends(
                    config.recursive,
                    config.max_depth,
                    dir.depth as nat,
                ) {
                    stacked(directory_paths(section.entries@), dir.depth + 1)
                } else {
                    Seq::empty()
                }
            },
        }
    })
}

impl Collector {
    /// Every directory waiting to be read lies at a depth the options
    /// allow, and every section gathered is in the configured order.
    pub open spec fn wf(&self) -> bool {
        &&& self.next_path <= self.config.paths@.len()
        &&& forall|i: int|
            0 <= i < self.pending@.len() ==> depth_allowed(
                self.config.recursive,
                self.config.max_depth,
                #[trigger] self.pending@[i].depth as nat,
            )
        &&& forall|i: int|
            0 <= i < self.builder.sections@.len() ==> sorted_by(
                #[trigger] self.builder.sections@[i].entries@,
                self.config.sort_key,
                self.config.reverse,
            )
    }

    /// A collection that has gathered nothing yet.
    pub fn new(config: Config) -> (c: Collector)
        ensures
            c.wf(),
            c.config == config,
            c.next_path == 0,
            c.pending@.len() == 0,
            c.builder.sections@.len() == 0,
            c.builder.errors@.len() == 0,
    {
        Collector { config, next_path: 0, pending: Vec::new(), builder: ListingBuilder::default() }
    }

    /// What to read next: the directory on top of the stack, else the next
    /// command-line path, else nothing.
    pub fn request(&self) -> (r: Request)
        ensures
            self.pending@.len() > 0 ==> (r matches Request::ReadDirectory {
                path,
                with_ignore_file,
                depth,
            } && path@ == self.pending@.last().path@ && with_ignore_file
                == !self.config.include_ignored && depth == self.pending@.last().depth),
            self.pending@.len() == 0 && self.next_path < self.config.paths@.len() ==> (r matches Request::Inspect(
                p,
            ) && p@ == self.config.paths@[self.next_path as int]@),
            self.pending@.len() == 0 && self.next_path >= self.config.paths@.len() ==> r
                is Finished,
    {
        if self.pending.len() > 0 {
            let top = &self.pending[self.pending.len() - 1];
            return Request::ReadDirectory {
                path: crate::text::clone_string(&top.path),
                with_ignore_file: !self.config.include_ignored,
                depth: top.depth,
            };
        }
        if self.next_path < self.config.paths.len() {
            return Request::Inspect(crate::text::clone_string(&self.config.paths[self.next_path]));
        }
        Request::Finished
    }

    /// Takes what inspecting the next command-line path gave: a directory
    /// waits to be read, anything else is listed on its own (when the type
    /// filter lets it through), and a failure is reported as
    /// `path: message`.
    pub fn collect_path(&mut self, meta: Result<RawMeta, String>)
        requires
            old(self).wf(),
            old(self).pending@.len() == 0,
            old(self).next_path < old(self).config.paths@.len(),
        ensures
            path_step(*old(self), meta, *final(self)),

    {
        let index = self.next_path;
        let total = self.config.paths.len();
        assert(index < total);
        self.next_path = index + 1;
        let ghost errors = crate::text::views(self.builder.errors@);
        match meta {
            Ok(m) => {
                if m.is_dir {
                    let path = crate::text::clone_string(&self.config.paths[index]);
                    self.pending.push(PendingDir { path, depth: 0 });
                    assert(pending_views(self.pending@) =~= seq![
                        (self.config.paths@[index as int]@, 0nat),
                    ]);
                } else {
                    let ghost before = self.builder.sections@;
                    collect_single(&self.config.paths[index], &m, &self.config, &mut self.builder);
                    assert forall|i: int| 0 <= i < self.builder.sections@.len() implies sorted_by(
                        #[trigger] self.builder.sections@[i].entries@,
                        self.config.sort_key,
                        self.config.reverse,
                    ) by {
                        if i < before.len() {
                            assert(self.builder.sections@[i] == before[i]);
                        }
                    }
                }
            },
            Err(message) => {
                let text = path_error(&self.config.paths[index], &message);
                self.builder.errors.push(text);
                assert(crate::text::views(self.builder.errors@) =~= errors.push(text@));
            },
        }
    }

    /// Takes what reading the directory on top of the stack gave: its
    /// listed entries, sorted, become a section; unreadable items are
    /// reported; its subdirectories wait to be read, first one on top, when
    /// the options descend below its depth. An unreadable directory gives
    /// an empty section and `cannot read directory: path`.
    pub fn collect_directory(&mut self, read: DirectoryRead)
        requires
            old(self).wf(),
            old(self).pending@.len() > 0,
            old(self).pending@.last().depth < usize::MAX,
        ensures
            directory_step(*old(self), read, *final(self)),

    {
        let dir = self.pending.pop().unwrap();
        let ghost rest = self.pending@;
        let ghost errors = crate::text::views(self.builder.errors@);
        proof {
            assert(pending_views(rest) =~= pending_views(old(self).pending@.drop_last()));
        }
        let matcher = IgnoreMatcher::from_text(read.ignore_text.as_str(), self.config.include_ignored);
        match read.items {
            None => {
                let mut text = String::from_str("cannot read directory: ");
                proof {
                    reveal_strlit("cannot read directory: ");
                }
                crate::text::push_str(&mut text, dir.path.as_str());
                self.builder.errors.push(text);
                assert(crate::text::views(self.builder.errors@) =~= errors.push(
                    directory_error_text(dir.path@),
                ));
                self.builder.sections.push(Section { path: dir.path, entries: Vec::new() });
            },
            Some(items) => {
                let mut entries = read_entries(items, &self.config, &matcher, &mut self.builder.errors);
                let ghost wanted = entries@;
                sort_entries(&mut entries, &self.config);
                let dirs = child_directories(&entries);
                let ghost sorted = entries@;
                self.builder.sections.push(Section { path: dir.path, entries });
                assert(self.builder.sections@.last().entries@ == sorted);
                self.collect_children(dirs, dir.depth);
            },
        }
        assert(self.builder.sections@.drop_last() =~= old(self).builder.sections@);
    }

    /// Puts the subdirectories on the stack, first one on top, when the
    /// options descend below `depth`.
    fn collect_children(&mut self, dirs: Vec<String>, depth: usize)
        requires
            old(self).wf(),
            depth < usize::MAX,
            depth_allowed(old(self).config.recursive, old(self).config.max_depth, depth as nat),
        ensures
            final(self).wf(),
            final(self).config == old(self).config,
            final(self).next_path == old(self).next_path,
            final(self).builder == old(self).builder,
            pending_views(final(self).pending@) == pending_views(old(self).pending@) + if descends(
                old(self).config.recursive,
                old(self).config.max_depth,
                depth as nat,
            ) {
                stacked(crate::text::views(dirs@), depth + 1)
            } else {
                Seq::empty()
            },
    {
        let ghost start = pending_views(self.pending@);
        if !should_descend(&self.config, depth) {
            assert(start + Seq::<(Seq<char>, nat)>::empty() =~= start);
            return;
        }
        let ghost paths = crate::text::views(dirs@);
        let mut dirs = dirs;
        while dirs.len() > 0
            invariant
                self.wf(),
                self.config == old(self).config,
                self.next_path == old(self).next_path,
                self.builder == old(self).builder,
                descends(self.config.recursive, self.config.max_depth, depth as nat),
                depth < usize::MAX,
                crate::text::views(dirs@) == paths.take(dirs@.len() as int),
                dirs@.len() <= paths.len(),
                pending_views(self.pending@) == start + stacked(paths, depth + 1).take(
                    paths.len() - dirs@.len(),
                ),
            decreases dirs.len(),
        {
            let ghost before = pending_views(self.pending@);
            let ghost n = dirs@.len();
            let ghost old_dirs = dirs@;
            let path = dirs.pop().unwrap();
            assert(crate::text::views(old_dirs)[n - 1] == paths.take(n as int)[n - 1]);
            assert(path@ == paths[n - 1]);
            assert(crate::text::views(dirs@) =~= paths.take(n - 1));
            self.pending.push(PendingDir { path, depth: depth + 1 });
            assert(pending_views(self.pending@) =~= before.push((paths[n - 1], (depth + 1) as nat)));
            assert(stacked(paths, depth + 1).take(paths.len() - n + 1) =~= stacked(
                paths,
                depth + 1,
            ).take(paths.len() - n).push((paths[n - 1], (depth + 1) as nat)));
        }
        assert(stacked(paths, depth + 1).take(paths.len() as int) =~= stacked(paths, depth + 1));
    }

    /// The listing gathered: its sections and errors as collected, with
    /// totals.
    pub fn finish(self) -> (listing: Listing)
        requires
            crate::model::summary_fits(self.builder.sections@),
        ensures
            listing.sections@ == self.builder.sections@,
            listing.errors@ == self.builder.errors@,
            crate::model::summarizes(listing.summary, self.builder.sections@),
    {
        self.builder.finish()
    }
}

/// Lists a command-line path that is not a directory in a section of its
/// own, under its parent, when the type filter lets it through.
pub fn collect_single(path: &String, m: &RawMeta, config: &Config, builder: &mut ListingBuilder)
    ensures
        final(builder).errors@ == old(builder).errors@,
        if kind_passes(kind_of(*m), config.type_filter) {
            &&& final(builder).sections@.len() == old(builder).sections@.len() + 1
            &&& final(builder).sections@.drop_last() == old(builder).sections@
            &&& single_section(final(builder).sections@.last(), path@, *m)
        } else {
            final(builder).sections@ == old(builder).sections@
        },
{
    let entry = make_entry(path, m);
    if type_matches(&entry, config.type_filter) {
        let ghost e = entry;
        let entries = vec![entry];
        builder.sections.push(Section { path: section_path(path), entries });
        assert(builder.sections@.last().entries@[0] == e);
    }
}

/// `path: message` for a path that could not be inspected.
pub fn path_error(path: &String, message: &String) -> (text: String)
    ensures
        text@ == path_error_text(path@, message@),
{
    let mut text = crate::text::clone_string(path);
    crate::text::push_str(&mut text, ": ");
    crate::text::push_str(&mut text, message.as_str());
    text
}


// ---------------------------------------------------------------------------
// Laws
// ---------------------------------------------------------------------------

/// What the program hands a collector for one of its requests.
pub enum Reply {
    Path(Result<RawMeta, String>),
    Directory(DirectoryRead),
}

/// One step of a collector: the reply answers the request it made, and the
/// collector takes it as `collect_path` or `collect_directory` does.
pub open spec fn step(c: Collector, reply: Reply, d: Collector) -> bool {
    match reply {
        Reply::Path(meta) => c.pending@.len() == 0 && c.next_path < c.config.paths@.len()
            && path_step(c, meta, d),
        Reply::Directory(read) => c.pending@.len() > 0 && c.pending@.last().depth < usize::MAX
            && directory_step(c, read, d),
    }
}

/// A run: a fresh collector and what it became after each reply.
pub open spec fn is_run(cs: Seq<Collector>, replies: Seq<Reply>) -> bool {
    &&& cs.len() == replies.len() + 1
    &&& cs[0].wf()
    &&& cs[0].next_path == 0
    &&& cs[0].pending@.len() == 0
    &&& cs[0].builder.sections@.len() == 0
    &&& cs[0].builder.errors@.len() == 0
    &&& forall|k: int| 0 <= k < replies.len() ==> step(#[trigger] cs[k], replies[k], cs[k + 1])
}

proof fn lemma_run_grows(cs: Seq<Collector>, replies: Seq<Reply>, j: int, k: int)
    requires
        is_run(cs, replies),
        0 <= j <= k < cs.len(),
    ensures
        cs[k].config == cs[j].config,
        cs[k].wf(),
        cs[j].builder.sections@.len() <= cs[k].builder.sections@.len(),
        cs[k].builder.sections@.subrange(0, cs[j].builder.sections@.len() as int)
            == cs[j].builder.sections@,
        cs[j].builder.errors@.len() <= cs[k].builder.errors@.len(),
        crate::text::views(cs[k].builder.errors@).subrange(0, cs[j].builder.errors@.len() as int)
            == crate::text::views(cs[j].builder.errors@),
    decreases k - j,
{
    if j < k {
        lemma_run_grows(cs, replies, j, k - 1);
        let c = cs[k - 1];
        let d = cs[k];
        assert(step(cs[k - 1], replies[k - 1], cs[k]));
        let sj = cs[j].builder.sections@;
        let ej = crate::text::views(cs[j].builder.errors@);
        let ec = crate::text::views(c.builder.errors@);
        let ed = crate::text::views(d.builder.errors@);
        assert(ec.len() == c.builder.errors@.len());
        assert(ed.len() == d.builder.errors@.len());
        assert(ej.len() == cs[j].builder.errors@.len());
        assert(ec.len() <= ed.len() && ed.subrange(0, ec.len() as int) == ec) by {
            match replies[k - 1] {
                Reply::Path(meta) => {
                    match meta {
                        Ok(m) => {},
                        Err(message) => {
                            assert(ed.subrange(0, ec.len() as int) =~= ec);
                        },
                    }
                },
                Reply::Directory(read) => {
                    match read.items {
                        None => {
                            assert(ed.subrange(0, ec.len() as int) =~= ec);
                        },
                        Some(items) => {
                            assert(ed.subrange(0, ec.len() as int) =~= ec);
                        },
                    }
                },
            }
        }
        assert(c.builder.sections@.len() <= d.builder.sections@.len()
            && d.builder.sections@.subrange(0, c.builder.sections@.len() as int)
            == c.builder.sections@) by {
            assert(d.builder.sections@.subrange(0, c.builder.sections@.len() as int)
                =~= c.builder.sections@);
        }
        assert(d.builder.sections@.subrange(0, sj.len() as int) =~= sj);
        assert(ed.subrange(0, ej.len() as int) =~= ej);
    }
}

/// Over a whole run every collector is sound: its options never change,
/// every section gathered is in the configured order, and no directory
/// waits below the depth limit; sections and errors only ever grow at
/// the end.
pub proof fn runs_keep_order_depth_and_history(cs: Seq<Collector>, replies: Seq<Reply>, j: int, k: int)
    requires
        is_run(cs, replies),
        0 <= j <= k < cs.len(),
    ensures
        cs[k].config == cs[0].config,
        forall|i: int|
            0 <= i < cs[k].builder.sections@.len() ==> sorted_by(
                #[trigger] cs[k].builder.sections@[i].entries@,
                cs[0].config.sort_key,
                cs[0].config.reverse,
            ),
        forall|i: int|
            0 <= i < cs[k].pending@.len() ==> depth_allowed(
                cs[0].config.recursive,
                cs[0].config.max_depth,
                #[trigger] cs[k].pending@[i].depth as nat,
            ),
        cs[k].builder.sections@.subrange(0, cs[j].builder.sections@.len() as int)
            == cs[j].builder.sections@,
        crate::text::views(cs[k].builder.errors@).subrange(0, cs[j].builder.errors@.len() as int)
            == crate::text::views(cs[j].builder.errors@),
{
    lemma_run_grows(cs, replies, 0, k);
    lemma_run_grows(cs, replies, j, k);
}

/// A command-line path that cannot be inspected gives no section, and its
/// error `path: message` is among the errors from then on, to the end of
/// the run.
pub proof fn unreadable_paths_are_reported(cs: Seq<Collector>, replies: Seq<Reply>, k: int, n: int)
    requires
        is_run(cs, replies),
        0 <= k < replies.len(),
        k < n < cs.len(),
        replies[k] matches Reply::Path(Err(_)),
    ensures
        cs[k + 1].builder.sections@ == cs[k].builder.sections@,
        replies[k] matches Reply::Path(Err(message)) && crate::text::views(
            cs[n].builder.errors@,
        ).contains(
            path_error_text(cs[k].config.paths@[cs[k].next_path as int]@, message@),
        ),
{
    assert(step(cs[k], replies[k], cs[k + 1]));
    lemma_run_grows(cs, replies, k + 1, n);
    let e1 = crate::text::views(cs[k + 1].builder.errors@);
    let en = crate::text::views(cs[n].builder.errors@);
    let i = e1.len() - 1;
    assert(e1.len() == cs[k + 1].builder.errors@.len());
    assert(en.subrange(0, e1.len() as int)[i] == en[i]);
}

/// A directory that was read gives the section at its place in every later
/// collector of the run, holding exactly the items that pass the filters
/// (each as often as it was read), in the configured order.
pub proof fn read_directories_give_their_filtered_entries(
    cs: Seq<Collector>,
    replies: Seq<Reply>,
    k: int,
    n: int,
)
    requires
        is_run(cs, replies),
        0 <= k < replies.len(),
        k < n < cs.len(),
        replies[k] matches Reply::Directory(read) && read.items is Some,
    ensures
        ({
            let at = cs[k].builder.sections@.len() as int;
            let config = cs[0].config;
            let section = cs[n].builder.sections@[at];
            replies[k] matches Reply::Directory(read) && read.items matches Some(items) && {
                let patterns = if config.include_ignored {
                    Seq::empty()
                } else {
                    ignore_patterns_of(read.ignore_text@)
                };
                &&& at < cs[n].builder.sections@.len()
                &&& section.path@ == cs[k].pending@.last().path@
                &&& sorted_by(section.entries@, config.sort_key, config.reverse)
                &&& section.entries@.to_multiset() == listed_entries(
                    items@,
                    config.include_hidden,
                    patterns,
                    config.type_filter,
                ).to_multiset()
            }
        }),
{
    assert(step(cs[k], replies[k], cs[k + 1]));
    lemma_run_grows(cs, replies, 0, k);
    lemma_run_grows(cs, replies, k + 1, n);
    let at = cs[k].builder.sections@.len() as int;
    let s1 = cs[k + 1].builder.sections@;
    assert(s1.len() == at + 1);
    assert(cs[n].builder.sections@.subrange(0, s1.len() as int)[at] == cs[n].builder.sections@[at]);
    assert(s1[at] == s1.last());
}

/// Every section a collector gathers, and so every section of the listing
/// it finishes with, is in the configured order.
pub proof fn collected_sections_are_sorted(c: Collector)
    requires
        c.wf(),
    ensures
        forall|i: int|
            0 <= i < c.builder.sections@.len() ==> sorted_by(
                #[trigger] c.builder.sections@[i].entries@,
                c.config.sort_key,
                c.config.reverse,
            ),
{
}

/// `--reverse` turns around the primary order only: where the primary keys
/// differ the order flips, where they tie the names decide the same way
/// in both directions.
pub proof fn reverse_flips_only_the_primary_order(a: Entry, b: Entry, key: SortKey)
    ensures
        ints_order(sort_key(a, key), sort_key(b, key)) != 0 ==> entry_order(a, b, key, true)
            == -entry_order(a, b, key, false),
        ints_order(sort_key(a, key), sort_key(b, key)) == 0 ==> entry_order(a, b, key, true)
            == entry_order(a, b, key, false),
{
}

/// Every entry a directory contributes passes the filters: hidden names
/// only with `--all`, nothing the ignore file hides, only kinds the type
/// filter lets through.
pub proof fn listed_entries_pass_the_filters(
    items: Seq<Result<RawItem, String>>,
    include_hidden: bool,
    patterns: Seq<(Seq<char>, bool)>,
    filter: Option<TypeFilter>,
)
    ensures
        forall|k: int|
            0 <= k < listed_entries(items, include_hidden, patterns, filter).len() ==> included(
                #[trigger] listed_entries(items, include_hidden, patterns, filter)[k],
                include_hidden,
                patterns,
                filter,
            ),
    decreases items.len(),
{
    if items.len() > 0 {
        let prev = listed_entries(items.drop_last(), include_hidden, patterns, filter);
        let all = listed_entries(items, include_hidden, patterns, filter);
        listed_entries_pass_the_filters(items.drop_last(), include_hidden, patterns, filter);
        assert(all == prev || (all.len() == prev.len() + 1 && all.drop_last() == prev && included(
            all.last(),
            include_hidden,
            patterns,
            filter,
        )));
        assert forall|k: int| 0 <= k < all.len() implies included(
            #[trigger] all[k],
            include_hidden,
            patterns,
            filter,
        ) by {
            if k < prev.len() {
                assert(all[k] == prev[k]);
            }
        }
    }
}

/// Every readable item that passes the filters is listed: the entries a
/// directory contributes are exactly its items that pass them.
pub proof fn passing_items_are_listed(
    items: Seq<Result<RawItem, String>>,
    include_hidden: bool,
    patterns: Seq<(Seq<char>, bool)>,
    filter: Option<TypeFilter>,
    k: int,
)
    requires
        0 <= k < items.len(),
        items[k] matches Ok(item) && item.meta matches Some(m) && included(
            entry_of(item.path, item.name, m),
            include_hidden,
            patterns,
            filter,
        ),
    ensures
        items[k] matches Ok(item) && item.meta matches Some(m) && listed_entries(
            items,
            include_hidden,
            patterns,
            filter,
        ).contains(entry_of(item.path, item.name, m)),
    decreases items.len(),
{
    let prev = listed_entries(items.drop_last(), include_hidden, patterns, filter);
    let all = listed_entries(items, include_hidden, patterns, filter);
    if k < items.len() - 1 {
        assert(items.drop_last()[k] == items[k]);
        passing_items_are_listed(items.drop_last(), include_hidden, patterns, filter, k);
        let item = items[k]->Ok_0;
        let m = item.meta->Some_0;
        let e = entry_of(item.path, item.name, m);
        let j = choose|j: int| 0 <= j < prev.len() && prev[j] == e;
        assert(all == prev || all == prev.push(all.last()));
        assert(all[j] == e);
    } else {
        let item = items[k]->Ok_0;
        let m = item.meta->Some_0;
        assert(all == prev.push(entry_of(item.path, item.name, m)));
        assert(all[all.len() - 1] == entry_of(item.path, item.name, m));
    }
}

/// Without `--all` no hidden name is listed.
pub proof fn hidden_names_need_all(
    items: Seq<Result<RawItem, String>>,
    patterns: Seq<(Seq<char>, bool)>,
    filter: Option<TypeFilter>,
)
    ensures
        forall|k: int|
            0 <= k < listed_entries(items, false, patterns, filter).len() ==> !hidden_name(
                (#[trigger] listed_entries(items, false, patterns, filter)[k]).name@,
            ),
{
    listed_entries_pass_the_filters(items, false, patterns, filter);
}

/// A collector never has a directory waiting below `--max-depth`, nor
/// below a command-line path at all without `--recursive`.
pub proof fn pending_directories_respect_the_depth_limit(c: Collector)
    requires
        c.wf(),
    ensures
        forall|i: int|
            0 <= i < c.pending@.len() ==> match c.config.max_depth {
                Some(m) => #[trigger] c.pending@[i].depth <= m,
                None => true,
            },
        !c.config.recursive ==> forall|i: int|
            0 <= i < c.pending@.len() ==> #[trigger] c.pending@[i].depth == 0,
{
    assert forall|i: int| 0 <= i < c.pending@.len() implies match c.config.max_depth {
        Some(m) => #[trigger] c.pending@[i].depth <= m,
        None => true,
    } by {
        assert(depth_allowed(c.config.recursive, c.config.max_depth, c.pending@[i].depth as nat));
    }
    assert forall|i: int| !c.config.recursive && 0 <= i < c.pending@.len() implies #[trigger] c.pending@[i].depth == 0 by {
        assert(depth_allowed(c.config.recursive, c.config.max_depth, c.pending@[i].depth as nat));
    }
}

/// Lower-casing twice changes nothing more.
pub proof fn lemma_ascii_lower_idempotent(s: Seq<char>)
    ensures
        ascii_lower(ascii_lower(s)) == ascii_lower(s),
{
    assert forall|i: int| 0 <= i < s.len() implies ascii_lower_char(ascii_lower_char(s[i]))
        == ascii_lower_char(s[i]) by {
        let c = s[i];
        if 'A' <= c <= 'Z' {
            let d = ((c as u32) + 32) as char;
            assert('a' <= d <= 'z');
        }
    }
    assert(ascii_lower(ascii_lower(s)) =~= ascii_lower(s));
}

/// Whether a name looks secret does not depend on ASCII case.
pub proof fn sensitive_names_ignore_case(name: Seq<char>)
    ensures
        sensitive_name(name) == sensitive_name(ascii_lower(name)),
{
    lemma_ascii_lower_idempotent(name);
}

/// The `--type` filter: `file` lets through regular files and
/// executables, `dir` directories, `link` symbolic links (broken or not),
/// and no filter lets through everything.
pub proof fn type_filter_kinds(kind: FileKind)
    ensures
        kind_passes(kind, Some(TypeFilter::File)) <==> (kind == FileKind::File || kind
            == FileKind::Executable),
        kind_passes(kind, Some(TypeFilter::Directory)) <==> kind == FileKind::Directory,
        kind_passes(kind, Some(TypeFilter::Link)) <==> (kind == FileKind::Symlink || kind
            == FileKind::BrokenSymlink),
        kind_passes(kind, None),
{
}

/// The type filter only narrows what is listed, by kind: an entry passes
/// with a filter exactly when it passes without one and its kind fits.
pub proof fn type_filter_only_narrows(
    e: Entry,
    include_hidden: bool,
    patterns: Seq<(Seq<char>, bool)>,
    filter: TypeFilter,
)
    ensures
        included(e, include_hidden, patterns, Some(filter)) <==> (included(
            e,
            include_hidden,
            patterns,
            None,
        ) && kind_passes(e.kind, Some(filter))),
{
}

/// The extension sort key of a name is the text after its last `.`: for
/// a name `a.e` where `e` holds no dot it is `e`; a name without a dot has
/// the empty key.
pub proof fn extension_is_after_the_last_dot(a: Seq<char>, e: Seq<char>)
    requires
        forall|k: int| 0 <= k < e.len() ==> e[k] != '.',
    ensures
        extension_text(a + seq!['.'] + e) == e,
{
    let name = a + seq!['.'] + e;
    let i = a.len() as int;
    assert forall|k: int| i < k < name.len() implies name[k] != '.' by {
        assert(name[k] == e[k - i - 1]);
    }
    crate::text::lemma_last_index_at(name, '.', i);
    assert(name.subrange(i + 1, name.len() as int) =~= e);
}

/// A name without a dot has no extension: its key is empty.
pub proof fn names_without_a_dot_have_no_extension(name: Seq<char>)
    requires
        forall|k: int| 0 <= k < name.len() ==> name[k] != '.',
    ensures
        extension_text(name) == Seq::<char>::empty(),
{
    crate::text::lemma_last_index_at(name, '.', -1);
}

/// Sorting by extension compares the texts after the names' last dots:
/// `backup.tar.gz` sorts by `gz`.
pub proof fn extension_sort_compares_last_extensions(
    x: Entry,
    y: Entry,
    a1: Seq<char>,
    e1: Seq<char>,
    a2: Seq<char>,
    e2: Seq<char>,
)
    requires
        x.name@ == a1 + seq!['.'] + e1,
        y.name@ == a2 + seq!['.'] + e2,
        forall|k: int| 0 <= k < e1.len() ==> e1[k] != '.',
        forall|k: int| 0 <= k < e2.len() ==> e2[k] != '.',
    ensures
        ints_order(sort_key(x, SortKey::Extension), sort_key(y, SortKey::Extension)) == ints_order(
            char_codes(e1),
            char_codes(e2),
        ),
{
    extension_is_after_the_last_dot(a1, e1);
    extension_is_after_the_last_dot(a2, e2);
}

/// Sorting by size puts the smaller entry first, and `--reverse` the
/// larger; only equal sizes fall back to the names.
pub proof fn size_sort_compares_sizes(x: Entry, y: Entry)
    ensures
        x.size < y.size ==> entry_order(x, y, SortKey::Size, false) < 0 && entry_order(
            x,
            y,
            SortKey::Size,
            true,
        ) > 0,
        x.size > y.size ==> entry_order(x, y, SortKey::Size, false) > 0 && entry_order(
            x,
            y,
            SortKey::Size,
            true,
        ) < 0,
{
    reveal_with_fuel(ints_order, 2);
    let sx = sort_key(x, SortKey::Size);
    let sy = sort_key(y, SortKey::Size);
    assert(sx.drop_first().len() == 0 && sy.drop_first().len() == 0);
}

/// Lines of an ignore file that are blank, comments (`#`) or negations
/// (`!`) give no pattern; any other line gives one, for directories only
/// when it ends in `/`.
pub proof fn ignore_lines_that_give_patterns(line: Seq<char>)
    ensures
        ({
            let t = trimmed(line);
            &&& (t.len() == 0 || t[0] == '#' || t[0] == '!') ==> ignore_line_pattern(line) is None
            &&& !(t.len() == 0 || t[0] == '#' || t[0] == '!') ==> (ignore_line_pattern(
                line,
            ) matches Some(p) && p.1 == (t.last() == '/'))
        }),
{
}

/// A pattern that ends in `/` hides only directories.
pub proof fn directory_patterns_spare_other_kinds(p: (Seq<char>, bool), name: Seq<char>, kind: FileKind)
    requires
        p.1,
        kind != FileKind::Directory,
    ensures
        !pattern_hides(p, name, kind),
{
}

/// Ignore-file wildcards: `*` alone matches every name; a pattern without
/// `*` matches only itself; `a*b` (with no `*` in `a`) matches the names
/// that start with `a` and end with `b`.
pub proof fn wildcards_match_as_documented(a: Seq<char>, b: Seq<char>, name: Seq<char>)
    requires
        forall|k: int| 0 <= k < a.len() ==> a[k] != '*',
    ensures
        wildcard_text_matches(seq!['*'], name),
        wildcard_text_matches(a, name) <==> a == name,
        (a + seq!['*'] + b != seq!['*']) ==> (wildcard_text_matches(a + seq!['*'] + b, name) <==> (
            a.is_prefix_of(name) && b.is_suffix_of(name))),
{
    crate::text::lemma_first_index_at(a, '*', a.len() as int);
    let p = a + seq!['*'] + b;
    assert forall|k: int| 0 <= k < a.len() implies p[k] != '*' by {
        assert(p[k] == a[k]);
    }
    crate::text::lemma_first_index_at(p, '*', a.len() as int);
    assert(p.subrange(0, a.len() as int) =~= a);
    assert(p.subrange(a.len() as int + 1, p.len() as int) =~= b);
    if a == seq!['*'] {
        assert(a[0] == '*');
    }
}

/// A regular file is an executable exactly when one of its execute bits
/// (owner, group or others) is set; either way `--type file` lists it.
pub proof fn regular_files_pass_the_file_filter(m: RawMeta)
    requires
        !m.is_symlink,
        !m.is_dir,
        m.is_file,
    ensures
        kind_of(m) == FileKind::Executable <==> (m.mode & 0o100u32 != 0 || m.mode & 0o010u32 != 0
            || m.mode & 0o001u32 != 0),
        kind_of(m) == FileKind::File || kind_of(m) == FileKind::Executable,
        kind_passes(kind_of(m), Some(TypeFilter::File)),
{
    let mode = m.mode;
    assert((mode & 0o111u32 != 0) == (mode & 0o100u32 != 0 || mode & 0o010u32 != 0 || mode
        & 0o001u32 != 0)) by (bit_vector);
    type_filter_kinds(kind_of(m));
}

} // verus!
