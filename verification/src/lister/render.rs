//! Text output of the stand-alone lister: sizes, times, permissions,
//! names with icons and colors, and the table, plain, CSV, JSON and YAML
//! renderings.
use vstd::prelude::*;
use crate::lister::entries::{kind_label, kind_short, path_extension, Entry, EntryKind, Section, Summary, TimeParts};
use crate::lister::options::{Config, OutputMode, TimeFormat};
use crate::size::{as_binary64, binary64_value, pow1024, round_half_even, tenths_text, unit_name, unit_steps};
use crate::text::{bool_text, chars_of, decimal, digit, pad_right, push_bool, push_char, push_chars, push_decimal, push_str, views};
use crate::time::zero_pad;

verus! {

// ---------------------------------------------------------------------------
// Sizes
// ---------------------------------------------------------------------------

/// A size: `N/A` when unknown, raw bytes with `--bytes`, otherwise
/// `1023 B`, or in the largest unit up to TB that keeps the value at least
/// 1 (computed as binary64 division), without decimals from 10 on and with
/// one decimal below; rounding is to nearest, ties to even.
pub open spec fn size_text(size: Option<u64>, bytes: bool) -> Seq<char> {
    match size {
        None => "N/A"@,
        Some(n) => if bytes {
            decimal(n as nat)
        } else {
            let s = as_binary64(n as nat);
            let k = unit_steps(s, 0);
            if k == 0 {
                decimal(n as nat) + " B"@
            } else if s >= 10 * pow1024(k) {
                decimal(round_half_even(s, pow1024(k))) + seq![' '] + unit_name(k)
            } else {
                tenths_text(round_half_even(10 * s, pow1024(k))) + seq![' '] + unit_name(k)
            }
        },
    }
}

pub fn format_size(size: Option<u64>, bytes: bool) -> (text: String)
    ensures
        text@ == size_text(size, bytes),
{
    let size = match size {
        Some(n) => n,
        None => {
            let s = String::from_str("N/A");
            proof {
                reveal_strlit("N/A");
            }
            return s;
        },
    };
    let mut text = String::new();
    if bytes {
        push_decimal(&mut text, size as u128);
        return text;
    }
    let s = binary64_value(size);
    let (k, d) = crate::size::unit_for(s);
    if k == 0 {
        push_decimal(&mut text, size as u128);
        push_str(&mut text, " B");
        return text;
    }
    if s >= 10 * d {
        let q = crate::size::divide_rounded(s, d);
        push_decimal(&mut text, q);
    } else {
        let t = crate::size::divide_rounded(10 * s, d);
        push_decimal(&mut text, t / 10);
        push_char(&mut text, '.');
        let c = digit(t % 10);
        push_char(&mut text, c);
    }
    push_char(&mut text, ' ');
    crate::size::push_unit(&mut text, k);
    text
}

// ---------------------------------------------------------------------------
// Times
// ---------------------------------------------------------------------------

/// `{:0w}` of a signed number: zeros after the sign up to width `w`.
pub open spec fn signed_padded(n: int, w: nat) -> Seq<char> {
    if n < 0 {
        seq!['-'] + zero_pad(decimal((-n) as nat), if w > 0 {
            (w - 1) as nat
        } else {
            0
        })
    } else {
        zero_pad(decimal(n as nat), w)
    }
}

/// A signed decimal number.
pub open spec fn signed_decimal(n: int) -> Seq<char> {
    signed_padded(n, 0)
}

/// An offset from UTC as `+HH:MM` or `-HH:MM`; `Z` when unknown.
pub open spec fn offset_text(offset: Option<i32>) -> Seq<char> {
    match offset {
        None => "Z"@,
        Some(o) => {
            let a = if o < 0 {
                -o
            } else {
                o as int
            };
            seq![
                if o < 0 {
                    '-'
                } else {
                    '+'
                },
            ] + zero_pad(decimal((a / 3600) as nat), 2) + seq![':'] + zero_pad(
                decimal((a % 3600 / 60) as nat),
                2,
            )
        },
    }
}

/// A modification time: `N/A` when unknown; the whole seconds when the
/// clock gave no calendar fields; otherwise `YYYY-MM-DD HH:MM` or, for ISO,
/// `YYYY-MM-DDTHH:MM:SS` and the offset.
pub open spec fn time_text(seconds: Option<int>, parts: Option<TimeParts>, format: TimeFormat) -> Seq<
    char,
> {
    match seconds {
        None => "N/A"@,
        Some(s) => match parts {
            None => signed_decimal(s),
            Some(p) => {
                let date = signed_padded(p.year as int, 4) + seq!['-'] + signed_padded(
                    p.month as int,
                    2,
                ) + seq!['-'] + signed_padded(p.day as int, 2);
                match format {
                    TimeFormat::Local => date + seq![' '] + signed_padded(p.hour as int, 2) + seq![
                        ':',
                    ] + signed_padded(p.minute as int, 2),
                    TimeFormat::Iso => date + seq!['T'] + signed_padded(p.hour as int, 2) + seq![
                        ':',
                    ] + signed_padded(p.minute as int, 2) + seq![':'] + signed_padded(
                        p.second as int,
                        2,
                    ) + offset_text(p.utc_offset_seconds),
                }
            },
        },
    }
}

/// Appends `{:0w}` of a signed number.
fn push_signed_padded(out: &mut String, n: i64, w: usize)
    requires
        1 <= w <= 4,
    ensures
        final(out)@ == old(out)@ + signed_padded(n as int, w as nat),
{
    let ghost start = out@;
    if n < 0 {
        push_char(out, '-');
        let magnitude: u64 = (0 - (n as i128)) as u64;
        crate::time::push_zero_padded(out, magnitude, w - 1);
        assert(out@ =~= start + signed_padded(n as int, w as nat));
    } else {
        crate::time::push_zero_padded(out, n as u64, w);
    }
}

/// Appends a signed decimal number.
fn push_signed(out: &mut String, n: i64)
    ensures
        final(out)@ == old(out)@ + signed_decimal(n as int),
{
    let ghost start = out@;
    if n < 0 {
        push_char(out, '-');
        let magnitude: u64 = (0 - (n as i128)) as u64;
        crate::time::push_zero_padded(out, magnitude, 0);
        assert(out@ =~= start + signed_decimal(n as int));
    } else {
        crate::time::push_zero_padded(out, n as u64, 0);
    }
}

pub fn format_offset(offset_seconds: Option<i32>) -> (text: String)
    requires
        offset_seconds != Some(i32::MIN),
    ensures
        text@ == offset_text(offset_seconds),
{
    let offset = match offset_seconds {
        Some(o) => o,
        None => {
            let z = String::from_str("Z");
            proof {
                reveal_strlit("Z");
            }
            return z;
        },
    };
    let sign = if offset < 0 {
        '-'
    } else {
        '+'
    };
    let absolute: i32 = if offset < 0 {
        -offset
    } else {
        offset
    };
    let hours = absolute / 3600;
    let minutes = absolute % 3600 / 60;
    let mut text = String::new();
    push_char(&mut text, sign);
    crate::time::push_zero_padded(&mut text, hours as u64, 2);
    push_char(&mut text, ':');
    crate::time::push_zero_padded(&mut text, minutes as u64, 2);
    text
}

/// The time shown for an entry. `parts` are the local calendar fields the
/// clock gave for `time` (none when it could not convert it).
pub fn format_time(time: Option<crate::model::Timestamp>, parts: Option<TimeParts>, format: TimeFormat) -> (text:
    String)
    requires
        match parts {
            Some(p) => p.utc_offset_seconds != Some(i32::MIN),
            None => true,
        },
    ensures
        text@ == time_text(
            match time {
                Some(t) => Some(crate::lister::entries::whole_seconds(t)),
                None => None,
            },
            parts,
            format,
        ),
{
    let t = match time {
        Some(t) => t,
        None => {
            let s = String::from_str("N/A");
            proof {
                reveal_strlit("N/A");
            }
            return s;
        },
    };
    let seconds = crate::lister::entries::time_seconds(t);
    let mut text = String::new();
    match parts {
        None => {
            push_signed(&mut text, seconds);
        },
        Some(p) => {
            push_signed_padded(&mut text, p.year as i64, 4);
            push_char(&mut text, '-');
            push_signed_padded(&mut text, p.month as i64, 2);
            push_char(&mut text, '-');
            push_signed_padded(&mut text, p.day as i64, 2);
            match format {
                TimeFormat::Local => {
                    push_char(&mut text, ' ');
                    push_signed_padded(&mut text, p.hour as i64, 2);
                    push_char(&mut text, ':');
                    push_signed_padded(&mut text, p.minute as i64, 2);
                },
                TimeFormat::Iso => {
                    push_char(&mut text, 'T');
                    push_signed_padded(&mut text, p.hour as i64, 2);
                    push_char(&mut text, ':');
                    push_signed_padded(&mut text, p.minute as i64, 2);
                    push_char(&mut text, ':');
                    push_signed_padded(&mut text, p.second as i64, 2);
                    let offset = format_offset(p.utc_offset_seconds);
                    push_str(&mut text, offset.as_str());
                },
            }
        },
    }
    text
}

// ---------------------------------------------------------------------------
// Long-view columns
// ---------------------------------------------------------------------------

/// The permission letter for the bit at position `i` (0 for owner read,
/// 8 for others execute).
pub open spec fn permission_letter(i: int) -> char {
    if i % 3 == 0 {
        'r'
    } else if i % 3 == 1 {
        'w'
    } else {
        'x'
    }
}

/// The bit at position `i`: `0o400` down to `0o001`.
pub open spec fn permission_bit(i: int) -> u32 {
    (256u32 >> (i as u32)) as u32
}

/// `ls`-style permissions: the kind character, then `rwx` per bit that is
/// set and `-` otherwise; `N/A` without a mode.
pub open spec fn permissions_text(kind: EntryKind, mode: Option<u32>) -> Seq<char> {
    match mode {
        None => "N/A"@,
        Some(m) => seq![
            match kind {
                EntryKind::Dir => 'd',
                EntryKind::Link | EntryKind::BrokenLink => 'l',
                _ => '-',
            },
        ] + Seq::new(
            9,
            |i: int|
                if m & permission_bit(i) != 0 {
                    permission_letter(i)
                } else {
                    '-'
                },
        ),
    }
}

pub fn permissions(entry: &Entry) -> (text: String)
    ensures
        text@ == permissions_text(entry.kind, entry.mode),
{
    let mode = match entry.mode {
        Some(m) => m,
        None => {
            let s = String::from_str("N/A");
            proof {
                reveal_strlit("N/A");
            }
            return s;
        },
    };
    let mut text = String::new();
    push_char(&mut text, entry.kind.type_char());
    let ghost start = text@;
    let mut i: u32 = 0;
    while i < 9
        invariant
            i <= 9,
            text@ == start + Seq::new(
                i as nat,
                |k: int|
                    if mode & permission_bit(k) != 0 {
                        permission_letter(k)
                    } else {
                        '-'
                    },
            ),
        decreases 9 - i,
    {
        let bit: u32 = 256u32 >> i;
        assert(bit == permission_bit(i as int));
        let letter = if i % 3 == 0 {
            'r'
        } else if i % 3 == 1 {
            'w'
        } else {
            'x'
        };
        if mode & bit != 0 {
            push_char(&mut text, letter);
        } else {
            push_char(&mut text, '-');
        }
        assert(text@ =~= start + Seq::new(
            (i + 1) as nat,
            |k: int|
                if mode & permission_bit(k) != 0 {
                    permission_letter(k)
                } else {
                    '-'
                },
        ));
        i = i + 1;
    }
    text
}

/// The hard-link count, or `N/A`.
pub open spec fn link_count_text(links: Option<u64>) -> Seq<char> {
    match links {
        Some(n) => decimal(n as nat),
        None => "N/A"@,
    }
}

pub fn link_count(entry: &Entry) -> (text: String)
    ensures
        text@ == link_count_text(entry.links),
{
    match entry.links {
        Some(n) => crate::text::decimal_string(n as u128),
        None => {
            let s = String::from_str("N/A");
            proof {
                reveal_strlit("N/A");
            }
            s
        },
    }
}


// ---------------------------------------------------------------------------
// Names, icons and colors
// ---------------------------------------------------------------------------

/// The icon of a plain file, by its extension.
pub open spec fn file_icon(ext: Option<Seq<char>>) -> Seq<char> {
    match ext {
        Some(e) => if e == "rs"@ {
            "🦀"@
        } else if e == "toml"@ || e == "yaml"@ || e == "yml"@ || e == "json"@ {
            "⚙️"@
        } else if e == "md"@ || e == "txt"@ {
            "📄"@
        } else if e == "png"@ || e == "jpg"@ || e == "jpeg"@ || e == "gif"@ || e == "webp"@ {
            "🖼️"@
        } else if e == "zip"@ || e == "tar"@ || e == "gz"@ || e == "xz"@ {
            "📦"@
        } else if e == "pem"@ || e == "key"@ || e == "p12"@ || e == "pfx"@ {
            "🔐"@
        } else {
            "📄"@
        },
        None => "📄"@,
    }
}

/// The icon of an entry: by kind, and for plain files by extension.
pub open spec fn icon_text(kind: EntryKind, name: Seq<char>) -> Seq<char> {
    match kind {
        EntryKind::Dir => "📁"@,
        EntryKind::Link | EntryKind::BrokenLink => "🔗"@,
        EntryKind::Executable => "⚙️"@,
        EntryKind::File => file_icon(path_extension(name)),
        EntryKind::Other => "❓"@,
    }
}

fn lit(v: &Vec<char>, s: &str) -> (b: bool)
    ensures
        b == (v@ == s@),
{
    crate::text::same_chars(v, &chars_of(s))
}

pub fn icon_for(entry: &Entry) -> (icon: &'static str)
    ensures
        icon@ == icon_text(entry.kind, entry.name@),
{
    match entry.kind {
        EntryKind::Dir => "📁",
        EntryKind::Link | EntryKind::BrokenLink => "🔗",
        EntryKind::Executable => "⚙️",
        EntryKind::File => match crate::lister::entries::extension_of(entry.name.as_str()) {
            Some(ext) => {
                let e = chars_of(ext.as_str());
                if lit(&e, "rs") {
                    "🦀"
                } else if lit(&e, "toml") || lit(&e, "yaml") || lit(&e, "yml") || lit(&e, "json") {
                    "⚙️"
                } else if lit(&e, "md") || lit(&e, "txt") {
                    "📄"
                } else if lit(&e, "png") || lit(&e, "jpg") || lit(&e, "jpeg") || lit(&e, "gif")
                    || lit(&e, "webp") {
                    "🖼️"
                } else if lit(&e, "zip") || lit(&e, "tar") || lit(&e, "gz") || lit(&e, "xz") {
                    "📦"
                } else if lit(&e, "pem") || lit(&e, "key") || lit(&e, "p12") || lit(&e, "pfx") {
                    "🔐"
                } else {
                    "📄"
                }
            },
            None => "📄",
        },
        EntryKind::Other => "❓",
    }
}

/// The name without colors: `! ` for secrets when `--sensitive` asks for
/// it, the icon and a space with `--icon`, then the name.
pub open spec fn raw_name_text(sensitive_flag: bool, icon_flag: bool, e: Entry) -> Seq<char> {
    (if sensitive_flag && e.sensitive {
        "! "@
    } else {
        Seq::empty()
    }) + (if icon_flag {
        icon_text(e.kind, e.name@) + seq![' ']
    } else {
        Seq::empty()
    }) + e.name@
}

pub fn raw_display_name(entry: &Entry, config: &Config) -> (name: String)
    ensures
        name@ == raw_name_text(config.sensitive, config.icon, *entry),
{
    let mut name = String::new();
    if config.sensitive && entry.sensitive {
        push_str(&mut name, "! ");
    }
    if config.icon {
        push_str(&mut name, icon_for(entry));
        push_char(&mut name, ' ');
    }
    push_str(&mut name, entry.name.as_str());
    proof {
        reveal_strlit("! ");
    }
    assert(name@ =~= raw_name_text(config.sensitive, config.icon, *entry));
    name
}

/// Text wrapped in an ANSI SGR sequence.
pub open spec fn ansi_text(code: Seq<char>, text: Seq<char>) -> Seq<char> {
    seq!['\u{1b}', '['] + code + seq!['m'] + text + seq!['\u{1b}', '[', '0', 'm']
}

pub fn ansi(code: &str, text: &str) -> (r: String)
    ensures
        r@ == ansi_text(code@, text@),
{
    let mut r = String::new();
    push_char(&mut r, '\u{1b}');
    push_char(&mut r, '[');
    push_str(&mut r, code);
    push_char(&mut r, 'm');
    push_str(&mut r, text);
    push_char(&mut r, '\u{1b}');
    push_char(&mut r, '[');
    push_char(&mut r, '0');
    push_char(&mut r, 'm');
    assert(r@ =~= ansi_text(code@, text@));
    r
}

/// The `key=value` pairs of an `LS_COLORS` text, in order; pieces without
/// `=` or with an empty side are skipped.
pub open spec fn color_pairs(pieces: Seq<Seq<char>>) -> Seq<(Seq<char>, Seq<char>)>
    decreases pieces.len(),
{
    if pieces.len() == 0 {
        Seq::empty()
    } else {
        let prev = color_pairs(pieces.drop_last());
        match crate::text::split_first(pieces.last(), '=') {
            Some((k, v)) => if k.len() > 0 && v.len() > 0 {
                prev.push((k, v))
            } else {
                prev
            },
            None => prev,
        }
    }
}

/// The value stored for `key`: the last pair with that key wins.
pub open spec fn color_lookup(pairs: Seq<(Seq<char>, Seq<char>)>, key: Seq<char>) -> Option<
    Seq<char>,
>
    decreases pairs.len(),
{
    if pairs.len() == 0 {
        None
    } else if pairs.last().0 == key {
        Some(pairs.last().1)
    } else {
        color_lookup(pairs.drop_last(), key)
    }
}

/// Colors from `LS_COLORS`, used when enabled.
pub struct ColorConfig {
    pub enabled: bool,
    pub values: Vec<(String, String)>,
}

pub open spec fn pair_views(v: Seq<(String, String)>) -> Seq<(Seq<char>, Seq<char>)> {
    v.map_values(|p: (String, String)| (p.0@, p.1@))
}

/// The `LS_COLORS` key for a kind.
pub open spec fn kind_color_key(kind: EntryKind) -> Seq<char> {
    match kind {
        EntryKind::Dir => "di"@,
        EntryKind::Link | EntryKind::BrokenLink => "ln"@,
        EntryKind::Executable => "ex"@,
        EntryKind::File => "fi"@,
        EntryKind::Other => "or"@,
    }
}

/// The color of an entry: its extension's `*.ext` entry first, else its
/// kind's.
pub open spec fn color_code_text(pairs: Seq<(Seq<char>, Seq<char>)>, kind: EntryKind, name: Seq<char>) -> Option<
    Seq<char>,
> {
    let by_ext = match path_extension(name) {
        Some(e) => color_lookup(pairs, "*."@ + e),
        None => None,
    };
    match by_ext {
        Some(c) => Some(c),
        None => color_lookup(pairs, kind_color_key(kind)),
    }
}

/// Text painted for an entry: unchanged when colors are off; bold red for
/// secrets when they are highlighted; else the entry's color, if any.
pub open spec fn paint_text(
    enabled: bool,
    pairs: Seq<(Seq<char>, Seq<char>)>,
    e: Entry,
    text: Seq<char>,
    highlight_sensitive: bool,
) -> Seq<char> {
    if !enabled {
        text
    } else if highlight_sensitive && e.sensitive {
        ansi_text("1;31"@, text)
    } else {
        match color_code_text(pairs, e.kind, e.name@) {
            Some(c) => ansi_text(c, text),
            None => text,
        }
    }
}

impl ColorConfig {
    /// The colors of an `LS_COLORS` value (none when it is unset).
    pub fn from_env(enabled: bool, colors: Option<String>) -> (c: ColorConfig)
        ensures
            c.enabled == enabled,
            pair_views(c.values@) == match colors {
                Some(t) => color_pairs(crate::text::split_pieces(t@, ':')),
                None => Seq::empty(),
            },
    {
        let mut config = ColorConfig { enabled, values: Vec::new() };
        let text = match colors {
            Some(t) => t,
            None => {
                assert(pair_views(config.values@) =~= Seq::<(Seq<char>, Seq<char>)>::empty());
                return config;
            },
        };
        let t = chars_of(text.as_str());
        let ghost all = crate::text::split_pieces(t@, ':');
        let ghost mut done: Seq<Seq<char>> = Seq::empty();
        let mut pos: usize = 0;
        assert(t@.subrange(0, t.len() as int) =~= t@);
        assert(pair_views(config.values@) =~= color_pairs(done));
        assert(all =~= done + crate::text::split_pieces(t@.subrange(0, t.len() as int), ':'));
        loop
            invariant_except_break
                all == done + crate::text::split_pieces(t@.subrange(pos as int, t.len() as int), ':'),
            invariant
                pos <= t.len(),
                config.enabled == enabled,
                all == crate::text::split_pieces(t@, ':'),
                pair_views(config.values@) == color_pairs(done),
            ensures
                pair_views(config.values@) == color_pairs(all),
                config.enabled == enabled,
            decreases t.len() - pos,
        {
            let ghost s = t@.subrange(pos as int, t.len() as int);
            proof {
                crate::text::lemma_first_index(s, ':');
            }
            let (item, next, last) = match crate::collect::find_from(&t, ':', pos) {
                Some(i) => {
                    let item = crate::text::slice_chars(&t, pos, i);
                    proof {
                        let k = i - pos;
                        assert(s.subrange(0, k) =~= item@);
                        assert(s.subrange(k + 1, s.len() as int) =~= t@.subrange(i + 1, t.len() as int));
                    }
                    (item, i + 1, false)
                },
                None => {
                    let item = crate::text::slice_chars(&t, pos, t.len());
                    (item, t.len(), true)
                },
            };
            let ghost before = pair_views(config.values@);
            proof {
                assert(done.push(item@).drop_last() =~= done);
                assert(done.push(item@).last() == item@);
            }
            match crate::text::split_once(&item, '=') {
                Some((key, value)) => {
                    if key.len() > 0 && value.len() > 0 {
                        config.values.push((crate::text::string_of(&key), crate::text::string_of(&value)));
                        assert(pair_views(config.values@) =~= before.push((key@, value@)));
                    }
                },
                None => {},
            }
            proof {
                done = done.push(item@);
            }
            if last {
                assert(all =~= done);
                break ;
            }
            pos = next;
        }
        config
    }

    /// The color code for an entry, if any.
    pub fn color_code(&self, entry: &Entry) -> (r: Option<String>)
        ensures
            match r {
                Some(c) => color_code_text(pair_views(self.values@), entry.kind, entry.name@) == Some(c@),
                None => color_code_text(pair_views(self.values@), entry.kind, entry.name@) is None,
            },
    {
        match crate::lister::entries::extension_of(entry.name.as_str()) {
            Some(ext) => {
                let mut key = String::from_str("*.");
                proof {
                    reveal_strlit("*.");
                }
                push_str(&mut key, ext.as_str());
                match self.get(&key) {
                    Some(code) => {
                        return Some(code);
                    },
                    None => {},
                }
            },
            None => {},
        }
        let key = match entry.kind {
            EntryKind::Dir => "di",
            EntryKind::Link | EntryKind::BrokenLink => "ln",
            EntryKind::Executable => "ex",
            EntryKind::File => "fi",
            EntryKind::Other => "or",
        };
        self.get(&String::from_str(key))
    }

    /// The value stored for `key`.
    pub fn get(&self, key: &String) -> (r: Option<String>)
        ensures
            match r {
                Some(v) => color_lookup(pair_views(self.values@), key@) == Some(v@),
                None => color_lookup(pair_views(self.values@), key@) is None,
            },
    {
        let ghost pv = pair_views(self.values@);
        let k = chars_of(key.as_str());
        let mut i = self.values.len();
        assert(pv.take(i as int) =~= pv);
        while i > 0
            invariant
                i <= self.values.len(),
                pv == pair_views(self.values@),
                k@ == key@,
                color_lookup(pv, key@) == color_lookup(pv.take(i as int), key@),
            decreases i,
        {
            let ghost prefix = pv.take(i as int);
            assert(prefix.drop_last() =~= pv.take(i - 1));
            assert(prefix.last() == (self.values@[i - 1].0@, self.values@[i - 1].1@));
            if crate::text::same_chars(&chars_of(self.values[i - 1].0.as_str()), &k) {
                return Some(crate::text::clone_string(&self.values[i - 1].1));
            }
            i = i - 1;
        }
        None
    }

    /// Paints text for an entry.
    pub fn paint(&self, entry: &Entry, text: &str, highlight_sensitive: bool) -> (r: String)
        ensures
            r@ == paint_text(
                self.enabled,
                pair_views(self.values@),
                *entry,
                text@,
                highlight_sensitive,
            ),
    {
        if !self.enabled {
            return String::from_str(text);
        }
        if highlight_sensitive && entry.sensitive {
            proof {
                reveal_strlit("1;31");
            }
            return ansi("1;31", text);
        }
        match self.color_code(entry) {
            Some(code) => ansi(code.as_str(), text),
            None => String::from_str(text),
        }
    }

    /// The line of plain output that shows a path: the decorated name and
    /// ` -> path` when icons or secret marks are on, else the path alone.
    pub fn paint_path(&self, entry: &Entry, config: &Config, path: &String) -> (r: String)
        ensures
            r@ == paint_text(
                self.enabled,
                pair_views(self.values@),
                *entry,
                path_line_text(config.sensitive, config.icon, *entry, path@),
                config.sensitive,
            ),
    {
        let text = if config.icon || (config.sensitive && entry.sensitive) {
            let mut display = raw_display_name(entry, config);
            push_str(&mut display, " -> ");
            push_str(&mut display, path.as_str());
            proof {
                reveal_strlit(" -> ");
            }
            display
        } else {
            crate::text::clone_string(path)
        };
        self.paint(entry, text.as_str(), config.sensitive)
    }
}

/// The unpainted text of a path line.
pub open spec fn path_line_text(sensitive_flag: bool, icon_flag: bool, e: Entry, path: Seq<char>) -> Seq<
    char,
> {
    if icon_flag || (sensitive_flag && e.sensitive) {
        raw_name_text(sensitive_flag, icon_flag, e) + " -> "@ + path
    } else {
        path
    }
}

/// The painted, decorated name.
pub fn display_name(entry: &Entry, config: &Config, colors: &ColorConfig) -> (r: String)
    ensures
        r@ == paint_text(
            colors.enabled,
            pair_views(colors.values@),
            *entry,
            raw_name_text(config.sensitive, config.icon, *entry),
            config.sensitive,
        ),
{
    let name = raw_display_name(entry, config);
    colors.paint(entry, name.as_str(), config.sensitive)
}

/// A section's heading: its title, or `.`.
pub open spec fn section_title_text(s: Section) -> Seq<char> {
    match s.title {
        Some(t) => t@,
        None => "."@,
    }
}

pub fn section_title(section: &Section) -> (t: String)
    ensures
        t@ == section_title_text(*section),
{
    match &section.title {
        Some(title) => crate::text::clone_string(title),
        None => String::from_str("."),
    }
}


// ---------------------------------------------------------------------------
// Aligned rows
// ---------------------------------------------------------------------------

/// One table row: its cells and the width each cell counts for (the
/// length in bytes of its text without colors).
pub struct Row {
    pub cells: Vec<String>,
    pub widths: Vec<usize>,
}

/// The length of a text in UTF-8 bytes.
pub open spec fn byte_len(s: Seq<char>) -> nat {
    crate::lister::ignore::utf8(s).len()
}

/// The width of column `c`: its header's length, widened by every row
/// that has a width for it.
pub open spec fn column_width(headers: Seq<Seq<char>>, widths: Seq<Seq<nat>>, c: int) -> nat
    decreases widths.len(),
{
    if widths.len() == 0 {
        byte_len(headers[c])
    } else {
        let w = column_width(headers, widths.drop_last(), c);
        let r = widths.last();
        if c < r.len() && r[c] > w {
            r[c]
        } else {
            w
        }
    }
}

pub open spec fn column_widths(headers: Seq<Seq<char>>, widths: Seq<Seq<nat>>) -> Seq<nat> {
    Seq::new(headers.len(), |c: int| column_width(headers, widths, c))
}

/// The cells left-aligned in their columns, two spaces apart.
pub open spec fn padded_line(cells: Seq<Seq<char>>, widths: Seq<nat>) -> Seq<char> {
    crate::text::join(Seq::new(cells.len(), |i: int| pad_right(cells[i], widths[i])), "  "@)
}

/// A header line and one line per row, all aligned; nothing without rows.
pub open spec fn rows_text(
    headers: Seq<Seq<char>>,
    cells: Seq<Seq<Seq<char>>>,
    widths: Seq<Seq<nat>>,
) -> Seq<char> {
    if cells.len() == 0 {
        Seq::empty()
    } else {
        let w = column_widths(headers, widths);
        crate::text::lines_text(
            seq![padded_line(headers, w)] + Seq::new(cells.len(), |i: int| padded_line(cells[i], w)),
        )
    }
}

pub open spec fn row_cells(rows: Seq<Row>) -> Seq<Seq<Seq<char>>> {
    rows.map_values(|r: Row| views(r.cells@))
}

pub open spec fn row_widths(rows: Seq<Row>) -> Seq<Seq<nat>> {
    rows.map_values(|r: Row| r.widths@.map_values(|w: usize| w as nat))
}

pub open spec fn str_views(v: Seq<&str>) -> Seq<Seq<char>> {
    v.map_values(|h: &str| h@)
}

/// Appends the cells left-aligned in their columns, two spaces apart.
fn push_padded_line(out: &mut String, cells: &Vec<String>, widths: &Vec<usize>)
    requires
        cells.len() <= widths.len(),
    ensures
        final(out)@ == old(out)@ + padded_line(
            views(cells@),
            widths@.map_values(|w: usize| w as nat),
        ),
{
    let ghost start = out@;
    let ghost cv = views(cells@);
    let ghost wv = widths@.map_values(|w: usize| w as nat);
    let ghost parts = Seq::new(cv.len(), |i: int| pad_right(cv[i], wv[i]));
    for i in 0..cells.len()
        invariant
            cells.len() <= widths.len(),
            cv == views(cells@),
            wv == widths@.map_values(|w: usize| w as nat),
            parts == Seq::new(cv.len(), |i: int| pad_right(cv[i], wv[i])),
            out@ == start + crate::text::join(parts.take(i as int), "  "@),
    {
        proof {
            reveal_strlit("  ");
            assert(parts.take(i + 1) =~= parts.take(i as int).push(parts[i as int]));
            crate::text::lemma_join_push(parts.take(i as int), "  "@, parts[i as int]);
        }
        if i > 0 {
            push_str(out, "  ");
        }
        crate::text::push_pad_right(out, &chars_of(cells[i].as_str()), widths[i]);
        assert(out@ =~= start + crate::text::join(parts.take(i + 1), "  "@));
    }
    assert(parts.take(cells.len() as int) =~= parts);
}

/// The header line and the rows, aligned; nothing when there are no rows.
pub fn print_rows(headers: &Vec<&str>, rows: &Vec<Row>) -> (text: String)
    requires
        forall|r: int|
            0 <= r < rows@.len() ==> (#[trigger] rows@[r]).cells@.len() <= headers@.len()
                && rows@[r].widths@.len() <= headers@.len(),
        headers@.len() < usize::MAX,
    ensures
        text@ == rows_text(str_views(headers@), row_cells(rows@), row_widths(rows@)),
{
    let mut text = String::new();
    if rows.len() == 0 {
        return text;
    }
    let ghost hv = str_views(headers@);
    let ghost rw = row_widths(rows@);
    let mut widths: Vec<usize> = Vec::new();
    for c in 0..headers.len()
        invariant
            hv == str_views(headers@),
            rw == row_widths(rows@),
            widths@.len() == c,
            forall|k: int| 0 <= k < c ==> widths@[k] == #[trigger] column_width(hv, rw, k),
    {
        let mut w: usize = headers[c].as_bytes().len();
        assert(w == byte_len(hv[c as int]));
        for r in 0..rows.len()
            invariant
                hv == str_views(headers@),
                rw == row_widths(rows@),
                c < headers@.len(),
                w == column_width(hv, rw.take(r as int), c as int),
        {
            proof {
                assert(rw.take(r + 1).drop_last() =~= rw.take(r as int));
                assert(rw.take(r + 1).last() == rw[r as int]);
            }
            if c < rows[r].widths.len() && rows[r].widths[c] > w {
                w = rows[r].widths[c];
            }
        }
        assert(rw.take(rows.len() as int) =~= rw);
        widths.push(w);
    }
    let ghost wv = widths@.map_values(|w: usize| w as nat);
    assert(wv =~= column_widths(hv, rw));
    let mut header_cells: Vec<String> = Vec::new();
    for c in 0..headers.len()
        invariant
            hv == str_views(headers@),
            views(header_cells@) == hv.take(c as int),
    {
        let h: &str = headers[c];
        let cell = String::from_str(h);
        assert(cell@ == h@);
        assert(h@ == hv[c as int]);
        let ghost before = views(header_cells@);
        header_cells.push(cell);
        assert(views(header_cells@) =~= before.push(hv[c as int]));
        assert(views(header_cells@) =~= hv.take(c + 1));
    }
    assert(views(header_cells@) =~= hv);
    push_padded_line(&mut text, &header_cells, &widths);
    push_char(&mut text, '\n');
    let ghost cells = row_cells(rows@);
    let ghost lines = seq![padded_line(hv, wv)] + Seq::new(cells.len(), |i: int| padded_line(cells[i], wv));
    proof {
        assert(lines.take(1) =~= seq![padded_line(hv, wv)]);
        assert(crate::text::lines_text(Seq::<Seq<char>>::empty()) =~= Seq::<char>::empty());
        crate::text::lemma_lines_push(Seq::<Seq<char>>::empty(), padded_line(hv, wv));
        assert(Seq::<Seq<char>>::empty().push(padded_line(hv, wv)) =~= lines.take(1));
    }
    for r in 0..rows.len()
        invariant
            hv == str_views(headers@),
            cells == row_cells(rows@),
            wv == widths@.map_values(|w: usize| w as nat),
            widths@.len() == headers@.len(),
            lines == seq![padded_line(hv, wv)] + Seq::new(cells.len(), |i: int| padded_line(cells[i], wv)),
            forall|k: int|
                0 <= k < rows@.len() ==> (#[trigger] rows@[k]).cells@.len() <= headers@.len(),
            text@ == crate::text::lines_text(lines.take(r + 1)),
    {
        assert(rows@[r as int].cells@.len() <= headers@.len());
        push_padded_line(&mut text, &rows[r].cells, &widths);
        push_char(&mut text, '\n');
        proof {
            assert(lines.take(r + 2) =~= lines.take(r + 1).push(padded_line(cells[r as int], wv)));
            crate::text::lemma_lines_push(lines.take(r + 1), padded_line(cells[r as int], wv));
        }
    }
    assert(lines.take(rows.len() + 1) =~= lines);
    text
}


// ---------------------------------------------------------------------------
// Tables
// ---------------------------------------------------------------------------

/// The whole seconds of an entry's time, if it has one.
pub open spec fn entry_seconds(e: Entry) -> Option<int> {
    match e.modified {
        Some(t) => Some(crate::lister::entries::whole_seconds(t)),
        None => None,
    }
}

pub open spec fn entry_time_text(e: Entry, format: TimeFormat) -> Seq<char> {
    time_text(entry_seconds(e), e.local_time, format)
}

/// The entry's local time can be shown (its offset has a magnitude).
pub open spec fn entry_time_ok(e: Entry) -> bool {
    match e.local_time {
        Some(p) => p.utc_offset_seconds != Some(i32::MIN),
        None => true,
    }
}

/// The name as shown: decorated and painted.
pub open spec fn shown_name(e: Entry, c: Config, colors: ColorConfig) -> Seq<char> {
    paint_text(
        colors.enabled,
        pair_views(colors.values@),
        e,
        raw_name_text(c.sensitive, c.icon, e),
        c.sensitive,
    )
}

pub open spec fn default_headers() -> Seq<Seq<char>> {
    seq!["T"@, "NAME"@, "SIZE"@, "MODIFIED"@]
}

pub open spec fn long_headers() -> Seq<Seq<char>> {
    seq!["MODE"@, "LINKS"@, "OWNER"@, "GROUP"@, "SIZE"@, "MODIFIED"@, "GIT"@, "NAME"@]
}

/// Kind, name, size and time.
pub open spec fn default_cells(e: Entry, c: Config, colors: ColorConfig) -> Seq<Seq<char>> {
    seq![
        kind_short(e.kind),
        shown_name(e, c, colors),
        size_text(e.size, c.bytes),
        entry_time_text(e, c.time_format),
    ]
}

pub open spec fn default_widths(e: Entry, c: Config) -> Seq<nat> {
    seq![
        byte_len(kind_short(e.kind)),
        byte_len(raw_name_text(c.sensitive, c.icon, e)),
        byte_len(size_text(e.size, c.bytes)),
        byte_len(entry_time_text(e, c.time_format)),
    ]
}

pub open spec fn text_or(v: Option<String>, fallback: Seq<char>) -> Seq<char> {
    match v {
        Some(s) => s@,
        None => fallback,
    }
}

/// Permissions, links, owner, group, size, time, Git state and name.
pub open spec fn long_cells_text(e: Entry, c: Config, colors: ColorConfig) -> Seq<Seq<char>> {
    seq![
        permissions_text(e.kind, e.mode),
        link_count_text(e.links),
        text_or(e.owner, "N/A"@),
        text_or(e.group, "N/A"@),
        size_text(e.size, c.bytes),
        entry_time_text(e, c.time_format),
        text_or(e.git_state, "-"@),
        shown_name(e, c, colors),
    ]
}

pub open spec fn long_widths_text(e: Entry, c: Config) -> Seq<nat> {
    seq![
        byte_len(permissions_text(e.kind, e.mode)),
        byte_len(link_count_text(e.links)),
        byte_len(text_or(e.owner, "N/A"@)),
        byte_len(text_or(e.group, "N/A"@)),
        byte_len(size_text(e.size, c.bytes)),
        byte_len(entry_time_text(e, c.time_format)),
        byte_len(text_or(e.git_state, "-"@)),
        byte_len(raw_name_text(c.sensitive, c.icon, e)),
    ]
}

/// A row's cells in the chosen view.
pub open spec fn row_cells_for(e: Entry, c: Config, colors: ColorConfig, long: bool) -> Seq<Seq<char>> {
    if long {
        long_cells_text(e, c, colors)
    } else {
        default_cells(e, c, colors)
    }
}

/// A row's widths in the chosen view.
pub open spec fn row_widths_for(e: Entry, c: Config, long: bool) -> Seq<nat> {
    if long {
        long_widths_text(e, c)
    } else {
        default_widths(e, c)
    }
}

/// A section's table in the long view (`long`) or the short one.
#[verifier::opaque]
pub open spec fn section_table_text(s: Section, c: Config, colors: ColorConfig, long: bool) -> Seq<
    char,
> {
    let es = s.entries@;
    rows_text(
        if long {
            long_headers()
        } else {
            default_headers()
        },
        Seq::new(es.len(), |i: int| row_cells_for(es[i], c, colors, long)),
        Seq::new(es.len(), |i: int| row_widths_for(es[i], c, long)),
    )
}

/// Every section's table; with several sections or `--recursive` each is
/// headed by `title:`, with an empty line between sections.
pub open spec fn table_text(sections: Seq<Section>, c: Config, colors: ColorConfig) -> Seq<char> {
    let titled = c.recursive || sections.len() > 1;
    crate::text::concat(
        Seq::new(sections.len(), |i: int| table_part(sections, i, titled, c, colors)),
    )
}

/// Section `i` of the table output, with its heading when `titled`.
pub open spec fn table_part(
    sections: Seq<Section>,
    i: int,
    titled: bool,
    c: Config,
    colors: ColorConfig,
) -> Seq<char> {
    (if titled {
        (if i > 0 {
            seq!['\n']
        } else {
            Seq::empty()
        }) + section_title_text(sections[i]) + ":\n"@
    } else {
        Seq::empty()
    }) + section_table_text(sections[i], c, colors, c.long)
}

fn text_len(s: &String) -> (n: usize)
    ensures
        n == byte_len(s@),
{
    s.as_str().as_bytes().len()
}

fn or_text(v: &Option<String>, fallback: &str) -> (s: String)
    ensures
        s@ == text_or(*v, fallback@),
{
    match v {
        Some(t) => crate::text::clone_string(t),
        None => String::from_str(fallback),
    }
}

fn short_row(entry: &Entry, config: &Config, colors: &ColorConfig) -> (row: Row)
    requires
        entry_time_ok(*entry),
    ensures
        views(row.cells@) == default_cells(*entry, *config, *colors),
        row.widths@.map_values(|w: usize| w as nat) == default_widths(*entry, *config),
{
    let kind = String::from_str(entry.kind.short());
    let name = display_name(entry, config, colors);
    let plain_name = raw_display_name(entry, config);
    let size = format_size(entry.size, config.bytes);
    let time = format_time(entry.modified, entry.local_time, config.time_format);
    let widths = vec![text_len(&kind), text_len(&plain_name), text_len(&size), text_len(&time)];
    let cells = vec![kind, name, size, time];
    let row = Row { cells, widths };
    assert(views(row.cells@) =~= default_cells(*entry, *config, *colors));
    assert(row.widths@.map_values(|w: usize| w as nat) =~= default_widths(*entry, *config));
    row
}

/// The cells of the long view.
pub fn long_cells(entry: &Entry, config: &Config, colors: &ColorConfig) -> (cells: Vec<String>)
    requires
        entry_time_ok(*entry),
    ensures
        views(cells@) == long_cells_text(*entry, *config, *colors),
{
    let cells = vec![
        permissions(entry),
        link_count(entry),
        or_text(&entry.owner, "N/A"),
        or_text(&entry.group, "N/A"),
        format_size(entry.size, config.bytes),
        format_time(entry.modified, entry.local_time, config.time_format),
        or_text(&entry.git_state, "-"),
        display_name(entry, config, colors),
    ];
    assert(views(cells@) =~= long_cells_text(*entry, *config, *colors));
    cells
}

/// The widths of the long view's cells, the name counted without colors.
pub fn long_widths(entry: &Entry, config: &Config, cells: &Vec<String>) -> (widths: Vec<usize>)
    requires
        cells@.len() == 8,
        forall|i: int| 0 <= i < 7 ==> cells@[i]@ == #[trigger] long_widths_source(*entry, *config)[i],
    ensures
        widths@.map_values(|w: usize| w as nat) == long_widths_text(*entry, *config),
{
    let mut widths: Vec<usize> = Vec::new();
    for i in 0..7
        invariant
            cells@.len() == 8,
            forall|k: int| 0 <= k < 7 ==> cells@[k]@ == #[trigger] long_widths_source(*entry, *config)[k],
            widths@.map_values(|w: usize| w as nat) == long_widths_text(*entry, *config).take(
                i as int,
            ),
    {
        let n = text_len(&cells[i]);
        let ghost before = widths@.map_values(|w: usize| w as nat);
        widths.push(n);
        assert(widths@.map_values(|w: usize| w as nat) =~= before.push(n as nat));
        assert(long_widths_text(*entry, *config).take(i + 1) =~= long_widths_text(
            *entry,
            *config,
        ).take(i as int).push(byte_len(long_widths_source(*entry, *config)[i as int])));
    }
    let plain = raw_display_name(entry, config);
    let ghost before = widths@.map_values(|w: usize| w as nat);
    let n = text_len(&plain);
    widths.push(n);
    assert(widths@.map_values(|w: usize| w as nat) =~= before.push(n as nat));
    assert(long_widths_text(*entry, *config).take(7).push(byte_len(plain@)) =~= long_widths_text(
        *entry,
        *config,
    ));
    widths
}

/// The uncolored texts the long view's widths count.
pub open spec fn long_widths_source(e: Entry, c: Config) -> Seq<Seq<char>> {
    seq![
        permissions_text(e.kind, e.mode),
        link_count_text(e.links),
        text_or(e.owner, "N/A"@),
        text_or(e.group, "N/A"@),
        size_text(e.size, c.bytes),
        entry_time_text(e, c.time_format),
        text_or(e.git_state, "-"@),
        raw_name_text(c.sensitive, c.icon, e),
    ]
}

pub fn long_row(entry: &Entry, config: &Config, colors: &ColorConfig) -> (row: Row)
    requires
        entry_time_ok(*entry),
    ensures
        views(row.cells@) == long_cells_text(*entry, *config, *colors),
        row.widths@.map_values(|w: usize| w as nat) == long_widths_text(*entry, *config),
{
    let cells = long_cells(entry, config, colors);
    assert(views(cells@).len() == 8);
    assert(cells@.len() == 8);
    proof {
        assert forall|i: int| 0 <= i < 7 implies cells@[i]@ == #[trigger] long_widths_source(
            *entry,
            *config,
        )[i] by {
            assert(views(cells@)[i] == cells@[i]@);
        }
    }
    let widths = long_widths(entry, config, &cells);
    Row { cells, widths }
}

pub open spec fn section_times_ok(s: Section) -> bool {
    forall|j: int| 0 <= j < s.entries@.len() ==> entry_time_ok(#[trigger] s.entries@[j])
}

pub open spec fn sections_times_ok(sections: Seq<Section>) -> bool {
    forall|i: int| 0 <= i < sections.len() ==> section_times_ok(#[trigger] sections[i])
}

/// One section's table in the long view (`long`) or the short one.
fn section_table(section: &Section, config: &Config, colors: &ColorConfig, long: bool) -> (text:
    String)
    requires
        section_times_ok(*section),
    ensures
        text@ == section_table_text(*section, *config, *colors, long),
{
    let ghost es = section.entries@;
    let mut rows: Vec<Row> = Vec::new();
    let n: usize = if long {
        8
    } else {
        4
    };
    for i in 0..section.entries.len()
        invariant
            es == section.entries@,
            section_times_ok(*section),
            n == (if long {
                8usize
            } else {
                4usize
            }),
            rows@.len() == i,
            forall|k: int|
                0 <= k < i ==> (#[trigger] rows@[k]).cells@.len() == n && rows@[k].widths@.len()
                    == n,
            row_cells(rows@) == Seq::new(i as nat, |k: int| row_cells_for(es[k], *config, *colors, long)),
            row_widths(rows@) == Seq::new(i as nat, |k: int| row_widths_for(es[k], *config, long)),
    {
        assert(entry_time_ok(es[i as int]));
        let ghost before_c = row_cells(rows@);
        let ghost before_w = row_widths(rows@);
        let row = if long {
            long_row(&section.entries[i], config, colors)
        } else {
            short_row(&section.entries[i], config, colors)
        };
        let ghost rc = views(row.cells@);
        let ghost rwv = row.widths@.map_values(|w: usize| w as nat);
        assert(rc == row_cells_for(es[i as int], *config, *colors, long));
        assert(rwv == row_widths_for(es[i as int], *config, long));
        assert(rc.len() == n && rwv.len() == n);
        rows.push(row);
        assert(row_cells(rows@) =~= before_c.push(rc));
        assert(row_widths(rows@) =~= before_w.push(rwv));
        assert(row_cells(rows@) =~= Seq::new(
            (i + 1) as nat,
            |k: int| row_cells_for(es[k], *config, *colors, long),
        ));
        assert(row_widths(rows@) =~= Seq::new(
            (i + 1) as nat,
            |k: int| row_widths_for(es[k], *config, long),
        ));
    }
    let headers: Vec<&str> = if long {
        vec!["MODE", "LINKS", "OWNER", "GROUP", "SIZE", "MODIFIED", "GIT", "NAME"]
    } else {
        vec!["T", "NAME", "SIZE", "MODIFIED"]
    };
    assert(str_views(headers@) =~= if long {
        long_headers()
    } else {
        default_headers()
    });
    let text = print_rows(&headers, &rows);
    proof {
        reveal(section_table_text);
    }
    text
}

/// A section's table with kind, name, size and time.
pub fn render_default_table(section: &Section, config: &Config, colors: &ColorConfig) -> (text:
    String)
    requires
        section_times_ok(*section),
    ensures
        text@ == section_table_text(*section, *config, *colors, false),
{
    section_table(section, config, colors, false)
}

/// A section's table with mode, links, owner, group, size, time, Git
/// state and name.
pub fn render_long_table(section: &Section, config: &Config, colors: &ColorConfig) -> (text:
    String)
    requires
        section_times_ok(*section),
    ensures
        text@ == section_table_text(*section, *config, *colors, true),
{
    section_table(section, config, colors, true)
}

/// The table output of all sections.
pub fn render_table(sections: &Vec<Section>, config: &Config, colors: &ColorConfig) -> (text:
    String)
    requires
        sections_times_ok(sections@),
    ensures
        text@ == table_text(sections@, *config, *colors),
{
    let titled = config.recursive || sections.len() > 1;
    let ghost parts = Seq::new(
        sections@.len(),
        |i: int| table_part(sections@, i, titled, *config, *colors),
    );
    let mut text = String::new();
    for index in 0..sections.len()
        invariant
            sections_times_ok(sections@),
            titled == (config.recursive || sections@.len() > 1),
            parts == Seq::new(
                sections@.len(),
                |i: int| table_part(sections@, i, titled, *config, *colors),
            ),
            text@ == crate::text::concat(parts.take(index as int)),
    {
        let ghost before = text@;
        if titled {
            if index > 0 {
                push_char(&mut text, '\n');
            }
            let title = section_title(&sections[index]);
            push_str(&mut text, title.as_str());
            push_str(&mut text, ":\n");
        }
        assert(section_times_ok(sections@[index as int]));
        let table = if config.long {
            render_long_table(&sections[index], config, colors)
        } else {
            render_default_table(&sections[index], config, colors)
        };
        push_str(&mut text, table.as_str());
        proof {
            reveal_strlit(":\n");
            assert(parts.take(index + 1) =~= parts.take(index as int).push(parts[index as int]));
            crate::text::lemma_concat_push(parts.take(index as int), parts[index as int]);
            assert(text@ =~= before + parts[index as int]);
        }
    }
    assert(parts.take(sections.len() as int) =~= parts);
    text
}


// ---------------------------------------------------------------------------
// Escaping
// ---------------------------------------------------------------------------

/// Control characters (Unicode `Cc`).
pub open spec fn control_char(c: char) -> bool {
    c <= '\u{1f}' || ('\u{7f}' <= c && c <= '\u{9f}')
}

pub open spec fn hex_digit(d: nat) -> char {
    if d < 10 {
        (d + 48) as char
    } else {
        (d + 87) as char
    }
}

/// Four lower-case hexadecimal digits.
pub open spec fn hex4(n: nat) -> Seq<char> {
    seq![
        hex_digit((n / 4096) % 16),
        hex_digit((n / 256) % 16),
        hex_digit((n / 16) % 16),
        hex_digit(n % 16),
    ]
}

/// The JSON escape of one character: quote, backslash, newline, carriage
/// return and tab by their short forms, other control characters as
/// `\u` and four hex digits.
pub open spec fn json_char_text(c: char) -> Seq<char> {
    if c == '"' {
        seq!['\\', '"']
    } else if c == '\\' {
        seq!['\\', '\\']
    } else if c == '\n' {
        seq!['\\', 'n']
    } else if c == '\r' {
        seq!['\\', 'r']
    } else if c == '\t' {
        seq!['\\', 't']
    } else if control_char(c) {
        seq!['\\', 'u'] + hex4(c as nat)
    } else {
        seq![c]
    }
}

pub open spec fn json_escaped(v: Seq<char>) -> Seq<char>
    decreases v.len(),
{
    if v.len() == 0 {
        Seq::empty()
    } else {
        json_escaped(v.drop_last()) + json_char_text(v.last())
    }
}

pub(crate) fn push_hex_digit(out: &mut String, d: u32)
    requires
        d < 16,
    ensures
        final(out)@ == old(out)@.push(hex_digit(d as nat)),
{
    let c = if d < 10 {
        ((d as u8) + 48) as char
    } else {
        ((d as u8) + 87) as char
    };
    push_char(out, c);
}

fn push_json_char(out: &mut String, ch: char)
    ensures
        final(out)@ == old(out)@ + json_char_text(ch),
{
    let ghost start = out@;
    if ch == '"' {
        push_str(out, "\\\"");
    } else if ch == '\\' {
        push_str(out, "\\\\");
    } else if ch == '\n' {
        push_str(out, "\\n");
    } else if ch == '\r' {
        push_str(out, "\\r");
    } else if ch == '\t' {
        push_str(out, "\\t");
    } else if ch <= '\u{1f}' || ('\u{7f}' <= ch && ch <= '\u{9f}') {
        push_str(out, "\\u");
        let n = ch as u32;
        push_hex_digit(out, (n / 4096) % 16);
        push_hex_digit(out, (n / 256) % 16);
        push_hex_digit(out, (n / 16) % 16);
        push_hex_digit(out, n % 16);
    } else {
        push_char(out, ch);
    }
    proof {
        reveal_strlit("\\\"");
        reveal_strlit("\\\\");
        reveal_strlit("\\n");
        reveal_strlit("\\r");
        reveal_strlit("\\t");
        reveal_strlit("\\u");
    }
    assert(out@ =~= start + json_char_text(ch));
}

/// Escapes a JSON string body.
pub fn json_escape(value: &str) -> (escaped: String)
    ensures
        escaped@ == json_escaped(value@),
{
    let v = chars_of(value);
    let mut escaped = String::new();
    for i in 0..v.len()
        invariant
            escaped@ == json_escaped(v@.take(i as int)),
    {
        push_json_char(&mut escaped, v[i]);
        assert(v@.take(i + 1).drop_last() =~= v@.take(i as int));
    }
    assert(v@.take(v.len() as int) =~= v@);
    escaped
}

/// A double-quoted YAML string.
pub open spec fn yaml_string_text(v: Seq<char>) -> Seq<char> {
    seq!['"'] + json_escaped(v) + seq!['"']
}

pub fn yaml_string(value: &str) -> (s: String)
    ensures
        s@ == yaml_string_text(value@),
{
    let mut s = String::new();
    push_char(&mut s, '"');
    let e = json_escape(value);
    push_str(&mut s, e.as_str());
    push_char(&mut s, '"');
    assert(s@ =~= yaml_string_text(value@));
    s
}

// ---------------------------------------------------------------------------
// Line outputs
// ---------------------------------------------------------------------------

/// The entries of all sections, section after section.
pub open spec fn listed(sections: Seq<Section>) -> Seq<Entry>
    decreases sections.len(),
{
    if sections.len() == 0 {
        Seq::empty()
    } else {
        listed(sections.drop_last()) + sections.last().entries@
    }
}

/// How each entry is written.
#[derive(Clone, Copy, PartialEq, Eq, Structural)]
pub enum Style {
    /// One line: the path (with the decorated name before ` -> ` where
    /// icons or secret marks are on) when `paths`, else the shown name.
    Plain { paths: bool },
    Csv,
    Json,
    Yaml,
}

pub open spec fn git_text(e: Entry) -> Seq<char> {
    text_or(e.git_state, "-"@)
}

pub open spec fn size_number(e: Entry) -> Seq<char> {
    decimal(
        match e.size {
            Some(n) => n as nat,
            None => 0,
        },
    )
}

pub open spec fn csv_line(e: Entry, c: Config) -> Seq<char> {
    let esc = |t: Seq<char>| crate::format::csv_escaped(t);
    esc(e.path@) + ","@ + esc(kind_label(e.kind)) + ","@ + esc(e.name@) + ","@ + size_number(e)
        + ","@ + esc(entry_time_text(e, c.time_format)) + ","@ + bool_text(e.sensitive) + ","@
        + esc(git_text(e))
}

pub open spec fn json_object(e: Entry, c: Config) -> Seq<char> {
    "  {\"path\":\""@ + json_escaped(e.path@) + "\",\"type\":\""@ + json_escaped(
        kind_label(e.kind),
    ) + "\",\"name\":\""@ + json_escaped(e.name@) + "\",\"size\":"@ + size_number(e)
        + ",\"modified\":\""@ + json_escaped(entry_time_text(e, c.time_format))
        + "\",\"sensitive\":"@ + bool_text(e.sensitive) + ",\"git_status\":\""@ + json_escaped(
        git_text(e),
    ) + "\"}"@
}

pub open spec fn yaml_block(e: Entry, c: Config) -> Seq<char> {
    "- path: "@ + yaml_string_text(e.path@) + "\n  type: "@ + yaml_string_text(kind_label(e.kind))
        + "\n  name: "@ + yaml_string_text(e.name@) + "\n  size: "@ + size_number(e)
        + "\n  modified: "@ + yaml_string_text(entry_time_text(e, c.time_format))
        + "\n  sensitive: "@ + bool_text(e.sensitive) + "\n  git_status: "@ + yaml_string_text(
        git_text(e),
    ) + "\n"@
}

/// What one entry contributes to an output.
pub open spec fn entry_block(e: Entry, style: Style, c: Config, colors: ColorConfig) -> Seq<char> {
    match style {
        Style::Plain { paths } => (if paths {
            paint_text(
                colors.enabled,
                pair_views(colors.values@),
                e,
                path_line_text(c.sensitive, c.icon, e, e.path@),
                c.sensitive,
            )
        } else {
            shown_name(e, c, colors)
        }).push('\n'),
        Style::Csv => csv_line(e, c).push('\n'),
        Style::Json => json_object(e, c),
        Style::Yaml => yaml_block(e, c),
    }
}

fn size_number_text(entry: &Entry) -> (s: String)
    ensures
        s@ == size_number(*entry),
{
    crate::text::decimal_string(
        match entry.size {
            Some(n) => n,
            None => 0,
        } as u128,
    )
}

fn csv_entry(entry: &Entry, config: &Config) -> (line: String)
    requires
        entry_time_ok(*entry),
    ensures
        line@ == csv_line(*entry, *config),
{
    let mut line = crate::format::csv_escape(entry.path.as_str());
    push_char(&mut line, ',');
    push_str(&mut line, crate::format::csv_escape(entry.kind.label()).as_str());
    push_char(&mut line, ',');
    push_str(&mut line, crate::format::csv_escape(entry.name.as_str()).as_str());
    push_char(&mut line, ',');
    push_str(&mut line, size_number_text(entry).as_str());
    push_char(&mut line, ',');
    let time = format_time(entry.modified, entry.local_time, config.time_format);
    push_str(&mut line, crate::format::csv_escape(time.as_str()).as_str());
    push_char(&mut line, ',');
    push_bool(&mut line, entry.sensitive);
    push_char(&mut line, ',');
    let git = or_text(&entry.git_state, "-");
    push_str(&mut line, crate::format::csv_escape(git.as_str()).as_str());
    proof {
        reveal_strlit(",");
    }
    assert(line@ =~= csv_line(*entry, *config));
    line
}

fn json_entry(entry: &Entry, config: &Config) -> (obj: String)
    requires
        entry_time_ok(*entry),
    ensures
        obj@ == json_object(*entry, *config),
{
    let mut obj = String::from_str("  {\"path\":\"");
    push_str(&mut obj, json_escape(entry.path.as_str()).as_str());
    push_str(&mut obj, "\",\"type\":\"");
    push_str(&mut obj, json_escape(entry.kind.label()).as_str());
    push_str(&mut obj, "\",\"name\":\"");
    push_str(&mut obj, json_escape(entry.name.as_str()).as_str());
    push_str(&mut obj, "\",\"size\":");
    push_str(&mut obj, size_number_text(entry).as_str());
    push_str(&mut obj, ",\"modified\":\"");
    let time = format_time(entry.modified, entry.local_time, config.time_format);
    push_str(&mut obj, json_escape(time.as_str()).as_str());
    push_str(&mut obj, "\",\"sensitive\":");
    push_bool(&mut obj, entry.sensitive);
    push_str(&mut obj, ",\"git_status\":\"");
    let git = or_text(&entry.git_state, "-");
    push_str(&mut obj, json_escape(git.as_str()).as_str());
    push_str(&mut obj, "\"}");
    assert(obj@ =~= json_object(*entry, *config));
    obj
}

fn yaml_entry(entry: &Entry, config: &Config) -> (block: String)
    requires
        entry_time_ok(*entry),
    ensures
        block@ == yaml_block(*entry, *config),
{
    let mut block = String::from_str("- path: ");
    push_str(&mut block, yaml_string(entry.path.as_str()).as_str());
    push_str(&mut block, "\n  type: ");
    push_str(&mut block, yaml_string(entry.kind.label()).as_str());
    push_str(&mut block, "\n  name: ");
    push_str(&mut block, yaml_string(entry.name.as_str()).as_str());
    push_str(&mut block, "\n  size: ");
    push_str(&mut block, size_number_text(entry).as_str());
    push_str(&mut block, "\n  modified: ");
    let time = format_time(entry.modified, entry.local_time, config.time_format);
    push_str(&mut block, yaml_string(time.as_str()).as_str());
    push_str(&mut block, "\n  sensitive: ");
    push_bool(&mut block, entry.sensitive);
    push_str(&mut block, "\n  git_status: ");
    let git = or_text(&entry.git_state, "-");
    push_str(&mut block, yaml_string(git.as_str()).as_str());
    push_str(&mut block, "\n");
    assert(block@ =~= yaml_block(*entry, *config));
    block
}

fn entry_text(entry: &Entry, style: Style, config: &Config, colors: &ColorConfig) -> (text: String)
    requires
        entry_time_ok(*entry),
    ensures
        text@ == entry_block(*entry, style, *config, *colors),
{
    match style {
        Style::Plain { paths } => {
            let mut line = if paths {
                colors.paint_path(entry, config, &entry.path)
            } else {
                display_name(entry, config, colors)
            };
            push_char(&mut line, '\n');
            line
        },
        Style::Csv => {
            let mut line = csv_entry(entry, config);
            push_char(&mut line, '\n');
            line
        },
        Style::Json => json_entry(entry, config),
        Style::Yaml => yaml_entry(entry, config),
    }
}

/// Each entry's text, in order.
fn entry_texts(sections: &Vec<Section>, style: Style, config: &Config, colors: &ColorConfig) -> (texts:
    Vec<String>)
    requires
        sections_times_ok(sections@),
    ensures
        views(texts@) == listed(sections@).map_values(
            |e: Entry| entry_block(e, style, *config, *colors),
        ),
{
    let ghost f = |e: Entry| entry_block(e, style, *config, *colors);
    let mut texts: Vec<String> = Vec::new();
    for i in 0..sections.len()
        invariant
            sections_times_ok(sections@),
            f == (|e: Entry| entry_block(e, style, *config, *colors)),
            views(texts@) == listed(sections@.take(i as int)).map_values(f),
    {
        let entries = &sections[i].entries;
        let ghost before = listed(sections@.take(i as int));
        proof {
            assert(sections@.take(i + 1).drop_last() =~= sections@.take(i as int));
            assert(listed(sections@.take(i + 1)) == before + entries@);
            assert(section_times_ok(sections@[i as int]));
        }
        for j in 0..entries.len()
            invariant
                sections_times_ok(sections@),
                i < sections@.len(),
                entries@ == sections@[i as int].entries@,
                section_times_ok(sections@[i as int]),
                f == (|e: Entry| entry_block(e, style, *config, *colors)),
                before == listed(sections@.take(i as int)),
                listed(sections@.take(i + 1)) == before + entries@,
                views(texts@) == (before + entries@.take(j as int)).map_values(f),
        {
            assert(entry_time_ok(entries@[j as int]));
            let t = entry_text(&entries[j], style, config, colors);
            let ghost old_texts = views(texts@);
            texts.push(t);
            assert(views(texts@) =~= old_texts.push(t@));
            assert((before + entries@.take(j + 1)).map_values(f) =~= (before + entries@.take(
                j as int,
            )).map_values(f).push(f(entries@[j as int])));
        }
        assert(entries@.take(entries.len() as int) =~= entries@);
    }
    assert(sections@.take(sections.len() as int) =~= sections@);
    texts
}

fn concat_texts(texts: &Vec<String>) -> (text: String)
    ensures
        text@ == crate::text::concat(views(texts@)),
{
    let mut text = String::new();
    for i in 0..texts.len()
        invariant
            text@ == crate::text::concat(views(texts@).take(i as int)),
    {
        push_str(&mut text, texts[i].as_str());
        proof {
            assert(views(texts@).take(i + 1) =~= views(texts@).take(i as int).push(texts@[i as int]@));
            crate::text::lemma_concat_push(views(texts@).take(i as int), texts@[i as int]@);
        }
    }
    assert(views(texts@).take(texts.len() as int) =~= views(texts@));
    text
}

/// The plain output: one line per entry; paths when recursing or listing
/// several sections, names otherwise.
pub open spec fn plain_text(sections: Seq<Section>, c: Config, colors: ColorConfig) -> Seq<char> {
    let style = Style::Plain { paths: c.recursive || sections.len() > 1 };
    crate::text::concat(listed(sections).map_values(|e: Entry| entry_block(e, style, c, colors)))
}

pub fn render_plain(sections: &Vec<Section>, config: &Config, colors: &ColorConfig) -> (text:
    String)
    requires
        sections_times_ok(sections@),
    ensures
        text@ == plain_text(sections@, *config, *colors),
{
    let style = Style::Plain { paths: config.recursive || sections.len() > 1 };
    concat_texts(&entry_texts(sections, style, config, colors))
}

/// The CSV output: a header line and one line per entry.
pub open spec fn csv_text(sections: Seq<Section>, c: Config) -> Seq<char> {
    "path,type,name,size,modified,sensitive,git_status\n"@ + crate::text::concat(
        listed(sections).map_values(|e: Entry| csv_line(e, c).push('\n')),
    )
}

pub fn render_csv(sections: &Vec<Section>, config: &Config) -> (text: String)
    requires
        sections_times_ok(sections@),
    ensures
        text@ == csv_text(sections@, *config),
{
    let colors = ColorConfig { enabled: false, values: Vec::new() };
    let mut text = String::from_str("path,type,name,size,modified,sensitive,git_status\n");
    let body = concat_texts(&entry_texts(sections, Style::Csv, config, &colors));
    push_str(&mut text, body.as_str());
    assert(listed(sections@).map_values(|e: Entry| entry_block(e, Style::Csv, *config, colors))
        =~= listed(sections@).map_values(|e: Entry| csv_line(e, *config).push('\n')));
    text
}

/// The JSON output: an array of one object per entry, one per line.
pub open spec fn json_text(sections: Seq<Section>, c: Config) -> Seq<char> {
    let objects = listed(sections).map_values(|e: Entry| json_object(e, c));
    "[\n"@ + crate::text::join(objects, ",\n"@) + (if objects.len() > 0 {
        "\n"@
    } else {
        Seq::empty()
    }) + "]\n"@
}

pub fn render_json(sections: &Vec<Section>, config: &Config) -> (text: String)
    requires
        sections_times_ok(sections@),
    ensures
        text@ == json_text(sections@, *config),
{
    let colors = ColorConfig { enabled: false, values: Vec::new() };
    let objects = entry_texts(sections, Style::Json, config, &colors);
    assert(listed(sections@).map_values(|e: Entry| entry_block(e, Style::Json, *config, colors))
        =~= listed(sections@).map_values(|e: Entry| json_object(e, *config)));
    let mut text = String::from_str("[\n");
    let body = crate::text::join_strings(&objects, ",\n");
    push_str(&mut text, body.as_str());
    if objects.len() > 0 {
        push_str(&mut text, "\n");
    }
    push_str(&mut text, "]\n");
    proof {
        reveal_strlit("\n");
    }
    assert(text@ =~= json_text(sections@, *config));
    text
}

/// The YAML output: a sequence item of seven keys per entry.
pub open spec fn yaml_text(sections: Seq<Section>, c: Config) -> Seq<char> {
    crate::text::concat(listed(sections).map_values(|e: Entry| yaml_block(e, c)))
}

pub fn render_yaml(sections: &Vec<Section>, config: &Config) -> (text: String)
    requires
        sections_times_ok(sections@),
    ensures
        text@ == yaml_text(sections@, *config),
{
    let colors = ColorConfig { enabled: false, values: Vec::new() };
    let blocks = entry_texts(sections, Style::Yaml, config, &colors);
    assert(listed(sections@).map_values(|e: Entry| entry_block(e, Style::Yaml, *config, colors))
        =~= listed(sections@).map_values(|e: Entry| yaml_block(e, *config)));
    concat_texts(&blocks)
}

/// The totals line, after an empty line.
pub open spec fn summary_text(s: Summary, bytes: bool) -> Seq<char> {
    "\nsummary: files="@ + decimal(s.files as nat) + " dirs="@ + decimal(s.dirs as nat)
        + " links="@ + decimal(s.links as nat) + " others="@ + decimal(s.others as nat)
        + " size="@ + size_text(Some(s.bytes), bytes) + "\n"@
}

pub fn render_summary(summary: &Summary, config: &Config) -> (text: String)
    ensures
        text@ == summary_text(*summary, config.bytes),
{
    let mut text = String::from_str("\nsummary: files=");
    push_decimal(&mut text, summary.files as u128);
    push_str(&mut text, " dirs=");
    push_decimal(&mut text, summary.dirs as u128);
    push_str(&mut text, " links=");
    push_decimal(&mut text, summary.links as u128);
    push_str(&mut text, " others=");
    push_decimal(&mut text, summary.others as u128);
    push_str(&mut text, " size=");
    push_str(&mut text, format_size(Some(summary.bytes), config.bytes).as_str());
    push_str(&mut text, "\n");
    proof {
        reveal_strlit("\nsummary: files=");
    }
    assert(text@ =~= summary_text(*summary, config.bytes));
    text
}

/// The output in the configured mode.
pub open spec fn render_text(sections: Seq<Section>, c: Config, colors: ColorConfig) -> Seq<char> {
    match c.output {
        OutputMode::Table => table_text(sections, c, colors),
        OutputMode::Plain => plain_text(sections, c, colors),
        OutputMode::Csv => csv_text(sections, c),
        OutputMode::Json => json_text(sections, c),
        OutputMode::Yaml => yaml_text(sections, c),
    }
}

pub fn render(sections: &Vec<Section>, config: &Config, colors: &ColorConfig) -> (text: String)
    requires
        sections_times_ok(sections@),
    ensures
        text@ == render_text(sections@, *config, *colors),
{
    match config.output {
        OutputMode::Table => render_table(sections, config, colors),
        OutputMode::Plain => render_plain(sections, config, colors),
        OutputMode::Csv => render_csv(sections, config),
        OutputMode::Json => render_json(sections, config),
        OutputMode::Yaml => render_yaml(sections, config),
    }
}

/// Whether every entry's local time can be shown.
pub fn times_in_range(sections: &Vec<Section>) -> (b: bool)
    ensures
        b == sections_times_ok(sections@),
{
    for i in 0..sections.len()
        invariant
            forall|a: int| 0 <= a < i ==> section_times_ok(#[trigger] sections@[a]),
    {
        let entries = &sections[i].entries;
        for j in 0..entries.len()
            invariant
                i < sections@.len(),
                entries@ == sections@[i as int].entries@,
                forall|a: int| 0 <= a < i ==> section_times_ok(#[trigger] sections@[a]),
                forall|k: int| 0 <= k < j ==> entry_time_ok(#[trigger] entries@[k]),
        {
            let ok = match entries[j].local_time {
                Some(p) => match p.utc_offset_seconds {
                    Some(o) => o != i32::MIN,
                    None => true,
                },
                None => true,
            };
            if !ok {
                assert(!section_times_ok(sections@[i as int]));
                return false;
            }
        }
    }
    true
}

/// The JSON output holds one object per entry, section after section; when
/// no section has an entry it is the empty array `[` `]` on two lines.
pub proof fn json_has_an_object_per_entry(sections: Seq<Section>, c: Config)
    ensures
        listed(sections).map_values(|e: Entry| json_object(e, c)).len() == listed(sections).len(),
        listed(sections).len() == 0 ==> json_text(sections, c) == "[\n]\n"@,
{
    if listed(sections).len() == 0 {
        let objects = listed(sections).map_values(|e: Entry| json_object(e, c));
        assert(objects.len() == 0);
        reveal_strlit("[\n");
        reveal_strlit("]\n");
        reveal_strlit("[\n]\n");
        assert("[\n"@ + crate::text::join(objects, ",\n"@) + Seq::<char>::empty() + "]\n"@ =~= "[\n]\n"@);
    }
}

/// Without rows nothing is printed, not even the header line.
pub proof fn no_rows_print_nothing(headers: Seq<Seq<char>>, widths: Seq<Seq<nat>>)
    ensures
        rows_text(headers, Seq::<Seq<Seq<char>>>::empty(), widths) == Seq::<char>::empty(),
{
}

/// The long view's mode column: the kind character, then the owner's,
/// group's and others' read, write and execute columns, each showing its
/// letter exactly when its bit (`0o400` down to `0o001`) is set in the
/// mode and `-` otherwise.
pub proof fn permission_columns_show_their_bits(kind: EntryKind, m: u32)
    ensures
        ({
            let t = permissions_text(kind, Some(m));
            &&& t.len() == 10
            &&& t[0] == (if kind == EntryKind::Dir {
                'd'
            } else if kind == EntryKind::Link || kind == EntryKind::BrokenLink {
                'l'
            } else {
                '-'
            })
            &&& t[1] == (if m & 0o400 != 0 { 'r' } else { '-' })
            &&& t[2] == (if m & 0o200 != 0 { 'w' } else { '-' })
            &&& t[3] == (if m & 0o100 != 0 { 'x' } else { '-' })
            &&& t[4] == (if m & 0o040 != 0 { 'r' } else { '-' })
            &&& t[5] == (if m & 0o020 != 0 { 'w' } else { '-' })
            &&& t[6] == (if m & 0o010 != 0 { 'x' } else { '-' })
            &&& t[7] == (if m & 0o004 != 0 { 'r' } else { '-' })
            &&& t[8] == (if m & 0o002 != 0 { 'w' } else { '-' })
            &&& t[9] == (if m & 0o001 != 0 { 'x' } else { '-' })
        }),
        permissions_text(kind, None) == "N/A"@,
{
    assert(256u32 >> 0u32 == 0o400u32 && 256u32 >> 1u32 == 0o200u32 && 256u32 >> 2u32 == 0o100u32
        && 256u32 >> 3u32 == 0o040u32 && 256u32 >> 4u32 == 0o020u32 && 256u32 >> 5u32 == 0o010u32
        && 256u32 >> 6u32 == 0o004u32 && 256u32 >> 7u32 == 0o002u32 && 256u32 >> 8u32 == 0o001u32)
        by (bit_vector);
    let t = permissions_text(kind, Some(m));
    assert(permission_bit(0) == 0o400u32);
    assert(permission_bit(1) == 0o200u32);
    assert(permission_bit(2) == 0o100u32);
    assert(permission_bit(3) == 0o040u32);
    assert(permission_bit(4) == 0o020u32);
    assert(permission_bit(5) == 0o010u32);
    assert(permission_bit(6) == 0o004u32);
    assert(permission_bit(7) == 0o002u32);
    assert(permission_bit(8) == 0o001u32);
}

proof fn lemma_padded_two(n: int)
    requires
        0 <= n < 100,
    ensures
        signed_padded(n, 2) == seq![((n / 10) + 48) as char, ((n % 10) + 48) as char],
{
    let m = n as nat;
    if m < 10 {
        assert(decimal(m) == seq![crate::text::digit_char(m)]);
        assert(zero_pad(decimal(m), 2) =~= seq!['0', crate::text::digit_char(m)]);
    } else {
        assert(decimal(m / 10) == seq![crate::text::digit_char(m / 10)]);
        assert(decimal(m) =~= seq![crate::text::digit_char(m / 10), crate::text::digit_char(m % 10)]);
    }
}

/// With the clock's fields, a time is written with the date first, then
/// the hour and the minute (and in ISO form the second) as two digits
/// each, in that order: for fields of two digits, the local form is
/// `date HH:MM` and the ISO form `dateTHH:MM:SS` followed by the offset.
pub proof fn clock_time_layout(seconds: int, p: TimeParts)
    requires
        0 <= p.month < 100,
        0 <= p.day < 100,
        0 <= p.hour < 100,
        0 <= p.minute < 100,
        0 <= p.second < 100,
    ensures
        ({
            let date = signed_padded(p.year as int, 4) + seq!['-'] + seq![
                ((p.month / 10) + 48) as char,
                ((p.month % 10) + 48) as char,
            ] + seq!['-'] + seq![((p.day / 10) + 48) as char, ((p.day % 10) + 48) as char];
            let hh = seq![((p.hour / 10) + 48) as char, ((p.hour % 10) + 48) as char];
            let mm = seq![((p.minute / 10) + 48) as char, ((p.minute % 10) + 48) as char];
            let ss = seq![((p.second / 10) + 48) as char, ((p.second % 10) + 48) as char];
            &&& time_text(Some(seconds), Some(p), TimeFormat::Local) == date + seq![' '] + hh
                + seq![':'] + mm
            &&& time_text(Some(seconds), Some(p), TimeFormat::Iso) == date + seq!['T'] + hh
                + seq![':'] + mm + seq![':'] + ss + offset_text(p.utc_offset_seconds)
        }),
{
    lemma_padded_two(p.month as int);
    lemma_padded_two(p.day as int);
    lemma_padded_two(p.hour as int);
    lemma_padded_two(p.minute as int);
    lemma_padded_two(p.second as int);
}

/// A zone offset is written as its sign, then its whole hours and the
/// remaining minutes as two digits each: `+09:00`, `-03:30`.
pub proof fn offset_text_layout(o: i32)
    requires
        -360_000 < o < 360_000,
    ensures
        ({
            let a = if o < 0 { -o } else { o as int };
            let h = a / 3600;
            let m = a % 3600 / 60;
            offset_text(Some(o)) == seq![
                if o < 0 { '-' } else { '+' },
                ((h / 10) + 48) as char,
                ((h % 10) + 48) as char,
                ':',
                ((m / 10) + 48) as char,
                ((m % 10) + 48) as char,
            ]
        }),
{
    let a = if o < 0 { -o } else { o as int };
    lemma_padded_two(a / 3600);
    lemma_padded_two(a % 3600 / 60);
    assert(signed_padded(a / 3600, 2) == zero_pad(decimal((a / 3600) as nat), 2));
    assert(signed_padded(a % 3600 / 60, 2) == zero_pad(decimal((a % 3600 / 60) as nat), 2));
    let sign = if o < 0 { '-' } else { '+' };
    assert(offset_text(Some(o)) =~= seq![sign] + signed_padded(a / 3600, 2) + seq![':']
        + signed_padded(a % 3600 / 60, 2));
}

} // verus!
