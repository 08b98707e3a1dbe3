//! Entries of the stand-alone lister: their kinds, totals, order and the
//! rules that hide or mark them.
use vstd::prelude::*;
use crate::collect::{plain_name, ascii_lower, char_codes, ints_order, lemma_ints_order_antisymmetric, lemma_ints_order_transitive, path_file_name, to_ascii_lowercase};
use crate::lister::options::{Config, SortKey, TypeFilter};
use crate::model::Timestamp;
use crate::text::{chars_of, last_index, lemma_tied_add, lemma_tied_insert, lemma_tied_one, occurs_in, tied, ties_keep_their_order};

verus! {

#[derive(Clone, Copy, Debug, PartialEq, Eq, Structural)]
pub enum EntryKind {
    File,
    Dir,
    Link,
    BrokenLink,
    Executable,
    Other,
}

/// Calendar fields of a time as the local clock gives them.
#[derive(Clone, Copy, Debug, PartialEq, Eq, Structural)]
pub struct TimeParts {
    pub year: i32,
    pub month: i32,
    pub day: i32,
    pub hour: i32,
    pub minute: i32,
    pub second: i32,
    pub utc_offset_seconds: Option<i32>,
}

/// The time parts of the fields a C `struct tm` holds: years counted from
/// 1900, months from 0, and the zone offset as a C `long` (cut to 32 bits
/// as `as` cuts it).
pub fn parts_from_clock(
    tm_year: i32,
    tm_mon: i32,
    tm_mday: i32,
    tm_hour: i32,
    tm_min: i32,
    tm_sec: i32,
    tm_gmtoff: i64,
) -> (p: TimeParts)
    requires
        tm_year <= i32::MAX - 1900,
        tm_mon < i32::MAX,
    ensures
        p.year == tm_year + 1900,
        p.month == tm_mon + 1,
        p.day == tm_mday,
        p.hour == tm_hour,
        p.minute == tm_min,
        p.second == tm_sec,
        p.utc_offset_seconds == Some(#[verifier::truncate] (tm_gmtoff as i32)),
{
    TimeParts {
        year: tm_year + 1900,
        month: tm_mon + 1,
        day: tm_mday,
        hour: tm_hour,
        minute: tm_min,
        second: tm_sec,
        utc_offset_seconds: Some(#[verifier::truncate] (tm_gmtoff as i32)),
    }
}

/// One listed path with what was read of it. `local_time` holds the local
/// calendar fields of `modified` where the clock could give them.
#[derive(Debug)]
pub struct Entry {
    pub path: String,
    pub name: String,
    pub kind: EntryKind,
    pub size: Option<u64>,
    pub modified: Option<Timestamp>,
    pub local_time: Option<TimeParts>,
    pub mode: Option<u32>,
    pub links: Option<u64>,
    pub owner: Option<String>,
    pub group: Option<String>,
    pub sensitive: bool,
    pub git_state: Option<String>,
}

/// A titled group of entries.
#[derive(Debug)]
pub struct Section {
    pub title: Option<String>,
    pub entries: Vec<Entry>,
}

/// Counts per kind and the total size of everything but directories.
#[derive(Clone, Copy, Debug, PartialEq, Eq, Structural)]
pub struct Summary {
    pub files: usize,
    pub dirs: usize,
    pub links: usize,
    pub others: usize,
    pub bytes: u64,
}

impl Default for Summary {
    fn default() -> (s: Self)
        ensures
            s == (Summary { files: 0, dirs: 0, links: 0, others: 0, bytes: 0 }),
    {
        Summary { files: 0, dirs: 0, links: 0, others: 0, bytes: 0 }
    }
}

pub open spec fn kind_short(k: EntryKind) -> Seq<char> {
    match k {
        EntryKind::File => "F"@,
        EntryKind::Dir => "D"@,
        EntryKind::Link => "L"@,
        EntryKind::BrokenLink => "B"@,
        EntryKind::Executable => "X"@,
        EntryKind::Other => "O"@,
    }
}

pub open spec fn kind_label(k: EntryKind) -> Seq<char> {
    match k {
        EntryKind::File => "file"@,
        EntryKind::Dir => "dir"@,
        EntryKind::Link => "link"@,
        EntryKind::BrokenLink => "link(broken)"@,
        EntryKind::Executable => "exec"@,
        EntryKind::Other => "other"@,
    }
}

/// Whether an entry of kind `k` passes a type filter.
pub open spec fn kind_matches(k: EntryKind, filter: TypeFilter) -> bool {
    match filter {
        TypeFilter::File => k == EntryKind::File || k == EntryKind::Executable,
        TypeFilter::Dir => k == EntryKind::Dir,
        TypeFilter::Link => k == EntryKind::Link || k == EntryKind::BrokenLink,
    }
}

impl EntryKind {
    /// The one-letter code of the table's kind column.
    pub fn short(self) -> (s: &'static str)
        ensures
            s@ == kind_short(self),
    {
        match self {
            EntryKind::File => "F",
            EntryKind::Dir => "D",
            EntryKind::Link => "L",
            EntryKind::BrokenLink => "B",
            EntryKind::Executable => "X",
            EntryKind::Other => "O",
        }
    }

    /// The kind's name in the structured outputs.
    pub fn label(self) -> (s: &'static str)
        ensures
            s@ == kind_label(self),
    {
        match self {
            EntryKind::File => "file",
            EntryKind::Dir => "dir",
            EntryKind::Link => "link",
            EntryKind::BrokenLink => "link(broken)",
            EntryKind::Executable => "exec",
            EntryKind::Other => "other",
        }
    }

    /// The first character of the permission column.
    pub fn type_char(self) -> (c: char)
        ensures
            c == match self {
                EntryKind::Dir => 'd',
                EntryKind::Link | EntryKind::BrokenLink => 'l',
                _ => '-',
            },
    {
        match self {
            EntryKind::Dir => 'd',
            EntryKind::Link | EntryKind::BrokenLink => 'l',
            _ => '-',
        }
    }

    pub fn matches_filter(self, filter: TypeFilter) -> (b: bool)
        ensures
            b == kind_matches(self, filter),
    {
        match filter {
            TypeFilter::File => matches!(self, EntryKind::File | EntryKind::Executable),
            TypeFilter::Dir => matches!(self, EntryKind::Dir),
            TypeFilter::Link => matches!(self, EntryKind::Link | EntryKind::BrokenLink),
        }
    }
}

/// The kind of a path from its metadata read without following a final
/// link: links (broken when the target is missing), directories,
/// executables (a plain file with an execute bit), plain files, others.
pub open spec fn kind_from(
    is_symlink: bool,
    target_exists: bool,
    is_dir: bool,
    is_file: bool,
    mode: Option<u32>,
) -> EntryKind {
    let executable = is_file && match mode {
        Some(m) => (m & 0o111u32) != 0,
        None => false,
    };
    if is_symlink && !target_exists {
        EntryKind::BrokenLink
    } else if is_symlink {
        EntryKind::Link
    } else if is_dir {
        EntryKind::Dir
    } else if is_file && executable {
        EntryKind::Executable
    } else if is_file {
        EntryKind::File
    } else {
        EntryKind::Other
    }
}

pub fn entry_kind(
    is_symlink: bool,
    target_exists: bool,
    is_dir: bool,
    is_file: bool,
    mode: Option<u32>,
) -> (k: EntryKind)
    ensures
        k == kind_from(is_symlink, target_exists, is_dir, is_file, mode),
{
    let executable = is_file && match mode {
        Some(m) => m & 0o111u32 != 0,
        None => false,
    };
    if is_symlink && !target_exists {
        EntryKind::BrokenLink
    } else if is_symlink {
        EntryKind::Link
    } else if is_dir {
        EntryKind::Dir
    } else if is_file && executable {
        EntryKind::Executable
    } else if is_file {
        EntryKind::File
    } else {
        EntryKind::Other
    }
}

/// What adding one shown entry does to the totals: its kind is counted,
/// and the size of anything but a directory is added, stopping at the
/// largest `u64`.
pub open spec fn summary_after(s: Summary, kind: EntryKind, size: Option<u64>) -> Summary {
    let counted = match kind {
        EntryKind::File | EntryKind::Executable => Summary { files: (s.files + 1) as usize, ..s },
        EntryKind::Dir => Summary { dirs: (s.dirs + 1) as usize, ..s },
        EntryKind::Link | EntryKind::BrokenLink => Summary { links: (s.links + 1) as usize, ..s },
        EntryKind::Other => Summary { others: (s.others + 1) as usize, ..s },
    };
    if kind == EntryKind::Dir {
        counted
    } else {
        let add = match size {
            Some(n) => n as int,
            None => 0,
        };
        Summary {
            bytes: if s.bytes + add > u64::MAX {
                u64::MAX
            } else {
                (s.bytes + add) as u64
            },
            ..counted
        }
    }
}

impl Summary {
    /// Counts one shown entry.
    pub fn add(&mut self, entry: &Entry)
        requires
            old(self).files < usize::MAX,
            old(self).dirs < usize::MAX,
            old(self).links < usize::MAX,
            old(self).others < usize::MAX,
        ensures
            *final(self) == summary_after(*old(self), entry.kind, entry.size),
    {
        match entry.kind {
            EntryKind::File | EntryKind::Executable => self.files = self.files + 1,
            EntryKind::Dir => self.dirs = self.dirs + 1,
            EntryKind::Link | EntryKind::BrokenLink => self.links = self.links + 1,
            EntryKind::Other => self.others = self.others + 1,
        }
        if !matches!(entry.kind, EntryKind::Dir) {
            let add = match entry.size {
                Some(n) => n,
                None => 0,
            };
            self.bytes = self.bytes.saturating_add(add);
        }
    }
}

// ---------------------------------------------------------------------------
// Names
// ---------------------------------------------------------------------------

/// The extension of a file name as `std::path::Path::extension` documents
/// it: none without a `.` after the first character (and none for `..`),
/// else the text after the last `.`.
pub open spec fn file_extension(file_name: Seq<char>) -> Option<Seq<char>> {
    if file_name == ".."@ {
        None
    } else {
        match last_index(file_name, '.') {
            Some(i) => if i == 0 {
                None
            } else {
                Some(file_name.subrange(i + 1, file_name.len() as int))
            },
            None => None,
        }
    }
}

/// The extension of a path: that of its last component.
pub open spec fn path_extension(path: Seq<char>) -> Option<Seq<char>> {
    match path_file_name(path) {
        Some(n) => file_extension(n),
        None => None,
    }
}

/// Calls `std::path::Path::extension`; the result is claimed to be the
/// extension its documentation describes for the path's last component
/// (`path_file_name`), which for a path of one plain component is the
/// component itself.
#[verifier::external_body]
pub(crate) fn extension_of(path: &str) -> (r: Option<String>)
    ensures
        match r {
            Some(e) => path_extension(path@) == Some(e@),
            None => path_extension(path@) is None,
        },
        plain_name(path@) ==> match r {
            Some(e) => file_extension(path@) == Some(e@),
            None => file_extension(path@) is None,
        },
{
    match std::path::Path::new(path).extension() {
        Some(ext) => Some(ext.to_string_lossy().into_owned()),
        None => None,
    }
}

/// The name shown for a path: its last component, else the whole path.
pub fn path_name(path: &String) -> (name: String)
    ensures
        name@ == crate::collect::display_name_text(path@),
{
    crate::collect::display_name(path)
}

/// Dot files are hidden; `.` and `..` are not.
pub open spec fn hidden_name(name: Seq<char>) -> bool {
    name.len() > 0 && name[0] == '.' && name != "."@ && name != ".."@
}

pub fn is_hidden_name(name: &str) -> (b: bool)
    ensures
        b == hidden_name(name@),
{
    let v = chars_of(name);
    let dot = chars_of(".");
    let dots = chars_of("..");
    v.len() > 0 && v[0] == '.' && !crate::text::same_chars(&v, &dot) && !crate::text::same_chars(
        &v,
        &dots,
    )
}

pub open spec fn sensitive_exact(lower: Seq<char>) -> bool {
    ||| lower == ".env"@
    ||| lower == ".env.local"@
    ||| lower == ".env.production"@
    ||| lower == ".npmrc"@
    ||| lower == ".netrc"@
    ||| lower == "id_rsa"@
    ||| lower == "id_dsa"@
    ||| lower == "id_ecdsa"@
    ||| lower == "id_ed25519"@
}

pub open spec fn sensitive_extension(ext: Seq<char>) -> bool {
    ext == "pem"@ || ext == "key"@ || ext == "p12"@ || ext == "pfx"@ || ext == "kdbx"@
}

pub open spec fn sensitive_word(lower: Seq<char>) -> bool {
    ||| occurs_in("secret"@, lower)
    ||| occurs_in("token"@, lower)
    ||| occurs_in("credential"@, lower)
    ||| occurs_in("credentials"@, lower)
    ||| occurs_in("password"@, lower)
    ||| occurs_in("passwd"@, lower)
    ||| occurs_in("private"@, lower)
    ||| occurs_in("apikey"@, lower)
    ||| occurs_in("api_key"@, lower)
}

/// A name is likely secret when, ignoring ASCII case, it is a known
/// secret file, has a key or certificate extension, or contains a secret
/// word.
pub open spec fn sensitive_name(name: Seq<char>) -> bool {
    let lower = ascii_lower(name);
    ||| sensitive_exact(lower)
    ||| match path_extension(lower) {
        Some(e) => sensitive_extension(e),
        None => false,
    }
    ||| sensitive_word(lower)
}

fn lit(v: &Vec<char>, s: &str) -> (b: bool)
    ensures
        b == (v@ == s@),
{
    crate::text::same_chars(v, &chars_of(s))
}

fn has(v: &Vec<char>, s: &str) -> (b: bool)
    ensures
        b == occurs_in(s@, v@),
{
    crate::text::contains_seq(v, &chars_of(s))
}

/// `sensitive_name` of a name of one plain component, where the
/// extension is read off the name itself.
pub open spec fn sensitive_plain_name(name: Seq<char>) -> bool {
    let lower = ascii_lower(name);
    ||| sensitive_exact(lower)
    ||| match file_extension(lower) {
        Some(e) => sensitive_extension(e),
        None => false,
    }
    ||| sensitive_word(lower)
}

/// Lower-casing keeps a name plain.
proof fn lemma_lower_plain(name: Seq<char>)
    requires
        plain_name(name),
    ensures
        plain_name(ascii_lower(name)),
{
    let lower = ascii_lower(name);
    assert forall|i: int| 0 <= i < lower.len() implies #[trigger] lower[i] != '/' && lower[i] != '\\'
        && lower[i] != ':' by {
        assert(lower[i] == crate::collect::ascii_lower_char(name[i]));
    }
    if lower == "."@ || lower == ".."@ {
        reveal_strlit(".");
        reveal_strlit("..");
        assert(lower.len() == name.len());
        assert forall|i: int| 0 <= i < name.len() implies name[i] == lower[i] by {
            assert(lower[i] == crate::collect::ascii_lower_char(name[i]));
        }
        assert(name =~= lower);
    }
}

pub fn is_sensitive_name(name: &str) -> (b: bool)
    ensures
        b == sensitive_name(name@),
        plain_name(name@) ==> b == sensitive_plain_name(name@),
{
    proof {
        if plain_name(name@) {
            lemma_lower_plain(name@);
        }
    }
    let lower = to_ascii_lowercase(&chars_of(name));
    let exact = lit(&lower, ".env") || lit(&lower, ".env.local") || lit(&lower, ".env.production")
        || lit(&lower, ".npmrc") || lit(&lower, ".netrc") || lit(&lower, "id_rsa") || lit(
        &lower,
        "id_dsa",
    ) || lit(&lower, "id_ecdsa") || lit(&lower, "id_ed25519");
    if exact {
        return true;
    }
    let lower_text = crate::text::string_of(&lower);
    let by_extension = match extension_of(lower_text.as_str()) {
        Some(ext) => {
            let e = chars_of(ext.as_str());
            lit(&e, "pem") || lit(&e, "key") || lit(&e, "p12") || lit(&e, "pfx") || lit(&e, "kdbx")
        },
        None => false,
    };
    if by_extension {
        return true;
    }
    has(&lower, "secret") || has(&lower, "token") || has(&lower, "credential") || has(
        &lower,
        "credentials",
    ) || has(&lower, "password") || has(&lower, "passwd") || has(&lower, "private") || has(
        &lower,
        "apikey",
    ) || has(&lower, "api_key")
}

/// Whether an item read from a directory is left out: hidden names
/// without `--all`; with `--all` but not `--whole-all`, what the ignore
/// files hide (`ignored` is consulted only then).
pub open spec fn skipped(name: Seq<char>, show_all: bool, whole_all: bool, ignored: bool) -> bool {
    (!show_all && hidden_name(name)) || (show_all && !whole_all && ignored)
}

pub fn should_skip_entry(name: &str, config: &Config, ignored: bool) -> (b: bool)
    ensures
        b == skipped(name@, config.show_all, config.whole_all, ignored),
{
    if !config.show_all && is_hidden_name(name) {
        return true;
    }
    config.show_all && !config.whole_all && ignored
}

pub fn is_visible_by_type(entry: &Entry, config: &Config) -> (b: bool)
    ensures
        b == match config.type_filter {
            Some(f) => kind_matches(entry.kind, f),
            None => true,
        },
{
    match config.type_filter {
        Some(filter) => entry.kind.matches_filter(filter),
        None => true,
    }
}

/// Whether directories found at `depth` are listed too.
pub open spec fn descends(recursive: bool, max_depth: Option<usize>, depth: nat) -> bool {
    recursive && match max_depth {
        Some(m) => depth < m,
        None => true,
    }
}

pub fn should_recurse(config: &Config, depth: usize) -> (b: bool)
    ensures
        b == descends(config.recursive, config.max_depth, depth as nat),
{
    config.recursive && match config.max_depth {
        Some(max) => depth < max,
        None => true,
    }
}

// ---------------------------------------------------------------------------
// Order
// ---------------------------------------------------------------------------

/// Whole seconds from the epoch, rounded towards zero.
pub open spec fn whole_seconds(t: Timestamp) -> int {
    if t.secs >= 0 || t.nanos == 0 {
        t.secs as int
    } else {
        t.secs + 1
    }
}

/// The time key of the order: whole seconds, unknown times first.
pub open spec fn time_key(t: Option<Timestamp>) -> int {
    match t {
        Some(t) => whole_seconds(t),
        None => i128::MIN as int,
    }
}

pub fn time_seconds(t: Timestamp) -> (s: i64)
    ensures
        s == whole_seconds(t),
{
    if t.secs >= 0 || t.nanos == 0 {
        t.secs
    } else {
        t.secs + 1
    }
}

pub fn system_time_key(time: Option<Timestamp>) -> (k: i128)
    ensures
        k == time_key(time),
{
    match time {
        Some(t) => time_seconds(t) as i128,
        None => i128::MIN,
    }
}

/// The extension key: the lower-cased extension, or nothing.
pub open spec fn extension_key_text(name: Seq<char>) -> Seq<char> {
    match path_extension(name) {
        Some(e) => ascii_lower(e),
        None => Seq::empty(),
    }
}

pub fn extension_key(name: &str) -> (k: String)
    ensures
        k@ == extension_key_text(name@),
{
    match extension_of(name) {
        Some(ext) => crate::text::string_of(&to_ascii_lowercase(&chars_of(ext.as_str()))),
        None => String::new(),
    }
}

pub open spec fn sort_key(e: Entry, key: SortKey) -> Seq<int> {
    match key {
        SortKey::Name => char_codes(e.name@),
        SortKey::Size => seq![
            match e.size {
                Some(n) => n as int,
                None => 0,
            },
        ],
        SortKey::Time => seq![time_key(e.modified)],
        SortKey::Extension => char_codes(extension_key_text(e.name@)),
    }
}

/// The order of two entries: the primary key (turned around by
/// `--reverse`), then names.
pub open spec fn entry_order(a: Entry, b: Entry, key: SortKey, reverse: bool) -> int {
    let p = ints_order(sort_key(a, key), sort_key(b, key));
    let p = if reverse {
        -p
    } else {
        p
    };
    if p != 0 {
        p
    } else {
        ints_order(char_codes(a.name@), char_codes(b.name@))
    }
}

pub open spec fn sorted_by(s: Seq<Entry>, key: SortKey, reverse: bool) -> bool {
    forall|i: int, j: int|
        0 <= i < j < s.len() ==> #[trigger] entry_order(s[i], s[j], key, reverse) <= 0
}

proof fn lemma_entry_order_antisymmetric(a: Entry, b: Entry, key: SortKey, reverse: bool)
    ensures
        entry_order(a, b, key, reverse) == -entry_order(b, a, key, reverse),
{
    lemma_ints_order_antisymmetric(sort_key(a, key), sort_key(b, key));
    lemma_ints_order_antisymmetric(char_codes(a.name@), char_codes(b.name@));
}

proof fn lemma_entry_order_transitive(a: Entry, b: Entry, c: Entry, key: SortKey, reverse: bool)
    requires
        entry_order(a, b, key, reverse) <= 0,
        entry_order(b, c, key, reverse) <= 0,
    ensures
        entry_order(a, c, key, reverse) <= 0,
{
    let (ka, kb, kc) = (sort_key(a, key), sort_key(b, key), sort_key(c, key));
    let (na, nb, nc) = (char_codes(a.name@), char_codes(b.name@), char_codes(c.name@));
    lemma_ints_order_antisymmetric(ka, kb);
    lemma_ints_order_antisymmetric(kb, kc);
    lemma_ints_order_antisymmetric(ka, kc);
    lemma_ints_order_antisymmetric(kb, ka);
    lemma_ints_order_antisymmetric(kc, kb);
    lemma_ints_order_antisymmetric(kc, ka);
    if reverse {
        if ints_order(kc, kb) <= 0 && ints_order(kb, ka) <= 0 {
            lemma_ints_order_transitive(kc, kb, ka);
        }
    } else {
        if ints_order(ka, kb) <= 0 && ints_order(kb, kc) <= 0 {
            lemma_ints_order_transitive(ka, kb, kc);
        }
    }
    if ints_order(ka, kb) == 0 && ints_order(kb, kc) == 0 {
        lemma_ints_order_transitive(na, nb, nc);
    }
}

fn compare_names(a: &str, b: &str) -> (r: i8)
    ensures
        r == ints_order(char_codes(a@), char_codes(b@)),
{
    crate::collect::compare_texts(&chars_of(a), &chars_of(b))
}

fn compare_ints(a: i128, b: i128) -> (r: i8)
    ensures
        r == ints_order(seq![a as int], seq![b as int]),
{
    reveal_with_fuel(ints_order, 2);
    let ghost sa = seq![a as int];
    let ghost sb = seq![b as int];
    assert(sa.drop_first().len() == 0 && sb.drop_first().len() == 0);
    if a < b {
        -1
    } else if a > b {
        1
    } else {
        0
    }
}

/// The order of two entries as a sign: negative when `left` comes first.
pub fn compare_entries(left: &Entry, right: &Entry, config: &Config) -> (r: i8)
    ensures
        r == entry_order(*left, *right, config.sort, config.reverse),
{
    let primary = match config.sort {
        SortKey::Name => compare_names(left.name.as_str(), right.name.as_str()),
        SortKey::Size => {
            let a = match left.size {
                Some(n) => n,
                None => 0,
            };
            let b = match right.size {
                Some(n) => n,
                None => 0,
            };
            compare_ints(a as i128, b as i128)
        },
        SortKey::Time => compare_ints(
            system_time_key(left.modified),
            system_time_key(right.modified),
        ),
        SortKey::Extension => {
            let a = extension_key(left.name.as_str());
            let b = extension_key(right.name.as_str());
            compare_names(a.as_str(), b.as_str())
        },
    };
    proof {
        lemma_ints_order_antisymmetric(
            sort_key(*left, config.sort),
            sort_key(*right, config.sort),
        );
        lemma_ints_order_antisymmetric(char_codes(left.name@), char_codes(right.name@));
    }
    let primary = if config.reverse {
        -primary
    } else {
        primary
    };
    if primary == 0 && config.sort != SortKey::Name {
        compare_names(left.name.as_str(), right.name.as_str())
    } else {
        primary
    }
}

/// The order of entries as a function of two entries.
pub open spec fn entry_ord(key: SortKey, reverse: bool) -> spec_fn(Entry, Entry) -> int {
    |a: Entry, b: Entry| entry_order(a, b, key, reverse)
}

/// Two entries that tie with a third tie with each other.
proof fn lemma_ties_are_shared(a: Entry, e: Entry, x: Entry, key: SortKey, reverse: bool)
    requires
        entry_order(a, x, key, reverse) == 0,
        entry_order(e, x, key, reverse) == 0,
    ensures
        entry_order(a, e, key, reverse) == 0,
{
    lemma_entry_order_antisymmetric(a, x, key, reverse);
    lemma_entry_order_antisymmetric(e, x, key, reverse);
    lemma_entry_order_antisymmetric(a, e, key, reverse);
    lemma_entry_order_transitive(a, x, e, key, reverse);
    lemma_entry_order_transitive(e, x, a, key, reverse);
}

/// Puts `e` among sorted entries after every entry that comes strictly
/// before it, so ahead of the entries it ties with.
fn insert_sorted(out: &mut Vec<Entry>, e: Entry, config: &Config)
    requires
        sorted_by(old(out)@, config.sort, config.reverse),
    ensures
        sorted_by(final(out)@, config.sort, config.reverse),
        final(out)@.to_multiset() == old(out)@.to_multiset().insert(e),
        forall|x: Entry|
            #[trigger] tied(final(out)@, x, entry_ord(config.sort, config.reverse)) == if entry_order(
                e,
                x,
                config.sort,
                config.reverse,
            ) == 0 {
                seq![e] + tied(old(out)@, x, entry_ord(config.sort, config.reverse))
            } else {
                tied(old(out)@, x, entry_ord(config.sort, config.reverse))
            },
{
    let ghost key = config.sort;
    let ghost reverse = config.reverse;
    let mut p: usize = 0;
    while p < out.len() && compare_entries(&out[p], &e, config) < 0
        invariant
            p <= out.len(),
            key == config.sort,
            reverse == config.reverse,
            forall|k: int| 0 <= k < p ==> entry_order(#[trigger] out@[k], e, key, reverse) < 0,
        decreases out.len() - p,
    {
        p = p + 1;
    }
    let ghost before = out@;
    proof {
        if p < out.len() {
            lemma_entry_order_antisymmetric(before[p as int], e, key, reverse);
        }
        assert forall|q: int| p <= q < before.len() implies entry_order(
            e,
            #[trigger] before[q],
            key,
            reverse,
        ) <= 0 by {
            if q > p {
                assert(entry_order(before[p as int], before[q], key, reverse) <= 0);
                lemma_entry_order_transitive(e, before[p as int], before[q], key, reverse);
            }
        }
        vstd::seq_lib::to_multiset_insert(before, p as int, e);
    }
    out.insert(p, e);
    proof {
        let ord = entry_ord(key, reverse);
        assert forall|x: Entry| #[trigger] tied(out@, x, ord) == if entry_order(e, x, key, reverse)
            == 0 {
            seq![e] + tied(before, x, ord)
        } else {
            tied(before, x, ord)
        } by {
            if entry_order(e, x, key, reverse) == 0 {
                assert forall|k: int| 0 <= k < p implies ord(#[trigger] before[k], x) != 0 by {
                    if entry_order(before[k], x, key, reverse) == 0 {
                        lemma_ties_are_shared(before[k], e, x, key, reverse);
                        assert(entry_order(before[k], e, key, reverse) < 0);
                    }
                }
            }
            lemma_tied_insert(before, p as int, e, x, ord);
        }
        assert forall|i: int, j: int| 0 <= i < j < out@.len() implies #[trigger] entry_order(
            out@[i],
            out@[j],
            key,
            reverse,
        ) <= 0 by {
            if i < p && j == p {
            } else if i < p && j > p {
                assert(out@[j] == before[j - 1]);
                lemma_entry_order_transitive(out@[i], e, out@[j], key, reverse);
            } else if i == p {
                assert(out@[j] == before[j - 1]);
            } else if j < p {
            } else {
                assert(out@[i] == before[i - 1]);
                assert(out@[j] == before[j - 1]);
            }
        }
    }
}

/// Sorts by the configured order; entries that tie keep their relative
/// order.
pub fn sort_entries(entries: &mut Vec<Entry>, config: &Config)
    ensures
        sorted_by(final(entries)@, config.sort, config.reverse),
        final(entries)@.to_multiset() == old(entries)@.to_multiset(),
        ties_keep_their_order(final(entries)@, old(entries)@, entry_ord(config.sort, config.reverse)),
{
    let ghost ord = entry_ord(config.sort, config.reverse);
    let mut input: Vec<Entry> = Vec::new();
    std::mem::swap(&mut input, entries);
    let ghost all = input@;
    proof {
        broadcast use vstd::multiset::group_multiset_axioms;

        assert(entries@.to_multiset() =~= vstd::multiset::Multiset::empty()) by {
            vstd::seq_lib::to_multiset_len(entries@);
        }
        assert(input@.to_multiset().add(entries@.to_multiset()) =~= all.to_multiset());
        assert(all.subrange(all.len() as int, all.len() as int) =~= Seq::<Entry>::empty());
        assert(entries@ =~= Seq::<Entry>::empty());
    }
    while input.len() > 0
        invariant
            sorted_by(entries@, config.sort, config.reverse),
            input@.to_multiset().add(entries@.to_multiset()) == all.to_multiset(),
            input@.len() <= all.len(),
            input@ == all.subrange(0, input@.len() as int),
            ord == entry_ord(config.sort, config.reverse),
            ties_keep_their_order(entries@, all.subrange(input@.len() as int, all.len() as int), ord),
        decreases input.len(),
    {
        let ghost rest = input@;
        let ghost done = entries@;
        let e = input.pop().unwrap();
        proof {
            assert(rest =~= input@.push(e));
            vstd::seq_lib::to_multiset_build(input@, e);
            assert(input@ =~= all.subrange(0, input@.len() as int));
        }
        insert_sorted(entries, e, config);
        proof {
            broadcast use vstd::multiset::group_multiset_axioms;

            assert(input@.to_multiset().add(entries@.to_multiset()) =~= all.to_multiset());
            let n = input@.len() as int;
            let suffix = all.subrange(n, all.len() as int);
            let later = all.subrange(n + 1, all.len() as int);
            assert(suffix =~= seq![e] + later);
            assert forall|x: Entry| #[trigger] tied(entries@, x, ord) == tied(suffix, x, ord) by {
                lemma_tied_add(seq![e], later, x, ord);
                lemma_tied_one(e, x, ord);
                assert(tied(done, x, ord) == tied(later, x, ord));
                if entry_order(e, x, config.sort, config.reverse) != 0 {
                    assert(Seq::<Entry>::empty() + tied(later, x, ord) =~= tied(later, x, ord));
                }
            }
        }
    }
    proof {
        broadcast use vstd::multiset::group_multiset_axioms;

        assert(input@.to_multiset() =~= vstd::multiset::Multiset::empty()) by {
            vstd::seq_lib::to_multiset_len(input@);
        }
        assert(entries@.to_multiset() =~= all.to_multiset());
        assert(all.subrange(0, all.len() as int) =~= all);
    }
}


/// The key subdirectories are visited in: the code points of their names.
pub open spec fn path_name_key(path: String) -> Seq<int> {
    char_codes(crate::collect::display_name_text(path@))
}

pub open spec fn paths_sorted(s: Seq<String>) -> bool {
    forall|i: int, j: int|
        0 <= i < j < s.len() ==> ints_order(path_name_key(#[trigger] s[i]), path_name_key(#[trigger] s[j])) <= 0
}

fn compare_path_names(a: &String, b: &String) -> (r: i8)
    ensures
        r == ints_order(path_name_key(*a), path_name_key(*b)),
{
    let x = path_name(a);
    let y = path_name(b);
    compare_names(x.as_str(), y.as_str())
}

/// The order of paths by name as a function of two paths.
pub open spec fn path_ord() -> spec_fn(String, String) -> int {
    |a: String, b: String| ints_order(path_name_key(a), path_name_key(b))
}

/// Sorts paths by their names (the last components); equal names keep
/// their order.
pub fn sort_paths_by_name(paths: &mut Vec<String>)
    ensures
        paths_sorted(final(paths)@),
        final(paths)@.to_multiset() == old(paths)@.to_multiset(),
        ties_keep_their_order(final(paths)@, old(paths)@, path_ord()),
{
    let ghost ord = path_ord();
    let mut input: Vec<String> = Vec::new();
    std::mem::swap(&mut input, paths);
    let ghost all = input@;
    proof {
        broadcast use vstd::multiset::group_multiset_axioms;

        assert(paths@.to_multiset() =~= vstd::multiset::Multiset::empty()) by {
            vstd::seq_lib::to_multiset_len(paths@);
        }
        assert(input@.to_multiset().add(paths@.to_multiset()) =~= all.to_multiset());
        assert(all.subrange(all.len() as int, all.len() as int) =~= Seq::<String>::empty());
        assert(paths@ =~= Seq::<String>::empty());
    }
    while input.len() > 0
        invariant
            paths_sorted(paths@),
            input@.to_multiset().add(paths@.to_multiset()) == all.to_multiset(),
            input@.len() <= all.len(),
            input@ == all.subrange(0, input@.len() as int),
            ord == path_ord(),
            ties_keep_their_order(paths@, all.subrange(input@.len() as int, all.len() as int), ord),
        decreases input.len(),
    {
        let ghost rest = input@;
        let ghost done = paths@;
        let e = input.pop().unwrap();
        proof {
            assert(rest =~= input@.push(e));
            vstd::seq_lib::to_multiset_build(input@, e);
            assert(input@ =~= all.subrange(0, input@.len() as int));
        }
        let mut p: usize = 0;
        while p < paths.len() && compare_path_names(&paths[p], &e) < 0
            invariant
                p <= paths.len(),
                forall|k: int|
                    0 <= k < p ==> ints_order(path_name_key(#[trigger] paths@[k]), path_name_key(e))
                        < 0,
            decreases paths.len() - p,
        {
            p = p + 1;
        }
        let ghost before = paths@;
        proof {
            if p < paths.len() {
                lemma_ints_order_antisymmetric(path_name_key(before[p as int]), path_name_key(e));
            }
            assert forall|q: int| p <= q < before.len() implies ints_order(
                path_name_key(e),
                path_name_key(#[trigger] before[q]),
            ) <= 0 by {
                if q > p {
                    assert(ints_order(path_name_key(before[p as int]), path_name_key(before[q])) <= 0);
                    lemma_ints_order_transitive(
                        path_name_key(e),
                        path_name_key(before[p as int]),
                        path_name_key(before[q]),
                    );
                }
            }
            vstd::seq_lib::to_multiset_insert(before, p as int, e);
        }
        paths.insert(p, e);
        proof {
            assert forall|i: int, j: int| 0 <= i < j < paths@.len() implies ints_order(
                path_name_key(#[trigger] paths@[i]),
                path_name_key(#[trigger] paths@[j]),
            ) <= 0 by {
                if i < p && j == p {
                } else if i < p && j > p {
                    assert(paths@[j] == before[j - 1]);
                    lemma_ints_order_transitive(
                        path_name_key(paths@[i]),
                        path_name_key(e),
                        path_name_key(paths@[j]),
                    );
                } else if i == p {
                    assert(paths@[j] == before[j - 1]);
                } else if j < p {
                } else {
                    assert(paths@[i] == before[i - 1]);
                    assert(paths@[j] == before[j - 1]);
                }
            }
            broadcast use vstd::multiset::group_multiset_axioms;

            assert(input@.to_multiset().add(paths@.to_multiset()) =~= all.to_multiset());
            let n = input@.len() as int;
            let suffix = all.subrange(n, all.len() as int);
            let later = all.subrange(n + 1, all.len() as int);
            assert(suffix =~= seq![e] + later);
            assert forall|x: String| #[trigger] tied(paths@, x, ord) == tied(suffix, x, ord) by {
                if ord(e, x) == 0 {
                    assert forall|k: int| 0 <= k < p implies ord(#[trigger] before[k], x) != 0 by {
                        lemma_ints_order_antisymmetric(path_name_key(before[k]), path_name_key(x));
                        lemma_ints_order_antisymmetric(path_name_key(e), path_name_key(x));
                        lemma_ints_order_antisymmetric(path_name_key(before[k]), path_name_key(e));
                    }
                }
                lemma_tied_insert(before, p as int, e, x, ord);
                lemma_tied_add(seq![e], later, x, ord);
                lemma_tied_one(e, x, ord);
                assert(tied(done, x, ord) == tied(later, x, ord));
                if ord(e, x) != 0 {
                    assert(Seq::<String>::empty() + tied(later, x, ord) =~= tied(later, x, ord));
                }
            }
        }
    }
    proof {
        broadcast use vstd::multiset::group_multiset_axioms;

        assert(input@.to_multiset() =~= vstd::multiset::Multiset::empty()) by {
            vstd::seq_lib::to_multiset_len(input@);
        }
        assert(paths@.to_multiset() =~= all.to_multiset());
        assert(all.subrange(0, all.len() as int) =~= all);
    }
}

/// `--reverse` turns around the primary order only: where the primary keys
/// differ the order flips, where they tie the names decide the same way in
/// both directions.
pub proof fn reverse_flips_only_the_primary_order(a: Entry, b: Entry, key: SortKey)
    ensures
        ints_order(sort_key(a, key), sort_key(b, key)) != 0 ==> entry_order(a, b, key, true)
            == -entry_order(a, b, key, false),
        ints_order(sort_key(a, key), sort_key(b, key)) == 0 ==> entry_order(a, b, key, true)
            == entry_order(a, b, key, false),
{
}

/// Whether a name looks secret does not depend on ASCII case.
pub proof fn sensitive_names_ignore_case(name: Seq<char>)
    ensures
        sensitive_name(name) == sensitive_name(ascii_lower(name)),
{
    crate::collect::lemma_ascii_lower_idempotent(name);
}

/// Without `--all` a hidden name is always left out; with `--whole-all`
/// (which turns on `--all` too) nothing is.
pub proof fn hidden_names_need_all(name: Seq<char>, whole_all: bool, ignored: bool)
    ensures
        hidden_name(name) ==> skipped(name, false, whole_all, ignored),
        !skipped(name, true, true, ignored),
{
}

/// The `--type` filter of the long lister: `file` lets through regular
/// files and executables, `dir` directories, `link` symbolic links (broken
/// or not).
pub proof fn lister_type_filter_kinds(k: EntryKind)
    ensures
        kind_matches(k, TypeFilter::File) <==> (k == EntryKind::File || k == EntryKind::Executable),
        kind_matches(k, TypeFilter::Dir) <==> k == EntryKind::Dir,
        kind_matches(k, TypeFilter::Link) <==> (k == EntryKind::Link || k == EntryKind::BrokenLink),
{
}

/// A file name's extension is the text after its last `.`, provided
/// something stands before that dot: `backup.tar.gz` has `gz`.
pub proof fn file_extension_is_after_the_last_dot(a: Seq<char>, e: Seq<char>)
    requires
        a.len() > 0,
        !(a == "."@ && e.len() == 0),
        forall|k: int| 0 <= k < e.len() ==> e[k] != '.',
    ensures
        file_extension(a + seq!['.'] + e) == Some(e),
{
    let name = a + seq!['.'] + e;
    let i = a.len() as int;
    assert forall|k: int| i < k < name.len() implies name[k] != '.' by {
        assert(name[k] == e[k - i - 1]);
    }
    crate::text::lemma_last_index_at(name, '.', i);
    assert(name.subrange(i + 1, name.len() as int) =~= e);
    if name == ".."@ {
        reveal_strlit("..");
        reveal_strlit(".");
        assert(name.len() == 2);
        assert(a.len() == 1 && e.len() == 0);
        assert(a[0] == name[0] && name[0] == '.');
        assert(a =~= "."@);
    }
}

/// Names without a dot, and names whose only dot leads them (`.bashrc`),
/// have no extension.
pub proof fn names_without_an_inner_dot_have_no_extension(name: Seq<char>)
    requires
        forall|k: int| 0 < k < name.len() ==> name[k] != '.',
    ensures
        file_extension(name) is None,
{
    if name.len() > 0 && name[0] == '.' {
        crate::text::lemma_last_index_at(name, '.', 0);
    } else {
        crate::text::lemma_last_index_at(name, '.', -1);
    }
}

/// A regular file is an executable exactly when it has a mode with one
/// of its execute bits set; either way `--type file` lists it.
pub proof fn lister_regular_files_pass_the_file_filter(mode: Option<u32>)
    ensures
        kind_from(false, true, false, true, mode) == EntryKind::Executable <==> (mode matches Some(m)
            && (m & 0o100u32 != 0 || m & 0o010u32 != 0 || m & 0o001u32 != 0)),
        kind_matches(kind_from(false, true, false, true, mode), TypeFilter::File),
{
    if let Some(m) = mode {
        assert((m & 0o111u32 != 0) == (m & 0o100u32 != 0 || m & 0o010u32 != 0 || m & 0o001u32
            != 0)) by (bit_vector);
    }
}

} // verus!
