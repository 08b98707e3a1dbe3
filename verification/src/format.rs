//! Rendering of a collected listing as table, plain, CSV, JSON or YAML text.
use vstd::prelude::*;
use crate::args::{Config, OutputMode, TimeFormat};
use crate::model::{kind_label, kind_name, Entry, FileKind, Listing, Section, Summary};
use crate::size::{human_size, human_size_text};
use crate::text::{
    bool_text, chars_of, concat, contains_char, decimal, finish_lines, has_char, join,
    join_strings, lemma_concat_push, lemma_lines_append, lemma_map_concat_empty,
    lemma_map_concat_ends, lemma_map_concat_step, lines_text, map_concat, pad_left, pad_right, push_bool, push_char,
    push_chars, push_decimal, push_pad_left, push_pad_right, push_str, rsplit_once, same_chars,
    split_first, split_last, split_once, string_of,
};
use crate::time::{offset_ok, time_in_zone, time_ok, time_text, timestamp_in_range, zone_offset};
use crate::lister::render::{hex_digit, push_hex_digit};

verus! {

// ---------------------------------------------------------------------------
// Field escaping
// ---------------------------------------------------------------------------

pub open spec fn csv_needs_quotes(v: Seq<char>) -> bool {
    has_char(v, ',') || has_char(v, '"') || has_char(v, '\n')
}

pub open spec fn csv_char_fn() -> spec_fn(char) -> Seq<char> {
    |c: char| csv_char(c)
}

pub open spec fn csv_char(c: char) -> Seq<char> {
    if c == '"' {
        seq!['"', '"']
    } else {
        seq![c]
    }
}

/// A CSV field: quoted, with inner quotes doubled, when it holds a comma,
/// a quote or a newline; unchanged otherwise.
pub open spec fn csv_escaped(v: Seq<char>) -> Seq<char> {
    if csv_needs_quotes(v) {
        seq!['"'] + map_concat(v, csv_char_fn()) + seq!['"']
    } else {
        v
    }
}

pub open spec fn json_char_text_fn() -> spec_fn(char) -> Seq<char> {
    |c: char| json_char_text(c)
}

pub open spec fn json_char_text(c: char) -> Seq<char> {
    if c == '"' {
        seq!['\\', '"']
    } else if c == '\\' {
        seq!['\\', '\\']
    } else if c == '\n' {
        seq!['\\', 'n']
    } else if c == '\r' {
        seq!['\\', 'r']
    } else if c == '\t' {
        seq!['\\', 't']
    } else if (c as u32) < 0x20 {
        seq!['\\', 'u', '0', '0', hex_digit(((c as u32) / 16) as nat), hex_digit(((c as u32) % 16) as nat)]
    } else {
        seq![c]
    }
}

/// A JSON string body: quote, backslash, newline, carriage return and tab
/// by their short escapes, the other control characters below U+0020 as
/// `\u00` and two hex digits, every other character kept.
pub open spec fn json_escaped(v: Seq<char>) -> Seq<char> {
    map_concat(v, json_char_text_fn())
}

pub open spec fn is_bare_yaml(c: char) -> bool {
    ('a' <= c <= 'z') || ('A' <= c <= 'Z') || ('0' <= c <= '9') || c == '.' || c == '/' || c
        == '_' || c == '-'
}

pub open spec fn yaml_quote_char_fn() -> spec_fn(char) -> Seq<char> {
    |c: char| yaml_quote_char(c)
}

pub open spec fn yaml_quote_char(c: char) -> Seq<char> {
    if c == '"' {
        seq!['\\', '"']
    } else {
        seq![c]
    }
}

/// A YAML scalar: bare when non-empty and made only of ASCII letters,
/// digits and `./_-`; otherwise double-quoted with inner quotes escaped.
pub open spec fn yaml_scalar_text(v: Seq<char>) -> Seq<char> {
    if v.len() > 0 && forall|i: int| 0 <= i < v.len() ==> is_bare_yaml(#[trigger] v[i]) {
        v
    } else {
        seq!['"'] + map_concat(v, yaml_quote_char_fn()) + seq!['"']
    }
}

/// Quotes and escapes a CSV field when it needs it.
pub fn csv_escape(text: &str) -> (r: String)
    ensures
        r@ == csv_escaped(text@),
{
    let chars = chars_of(text);
    let value = &chars;
    if contains_char(value, ',') || contains_char(value, '"') || contains_char(value, '\n') {
                let mut r = String::new();
        push_char(&mut r, '"');
        proof {
            lemma_map_concat_empty(value@, csv_char_fn());
        }
        for i in 0..value.len()
            invariant
                r@ == seq!['"'] + map_concat(value@.take(i as int), csv_char_fn()),
        {
            let c = value[i];
            if c == '"' {
                push_char(&mut r, '"');
                push_char(&mut r, '"');
            } else {
                push_char(&mut r, c);
            }
            proof {
                lemma_map_concat_step(value@, csv_char_fn(), i as int);
                assert(csv_char_fn()(c) == csv_char(c));
            }
            assert(r@ =~= seq!['"'] + map_concat(value@.take(i + 1), csv_char_fn()));
        }
        push_char(&mut r, '"');
        assert(value@.take(value.len() as int) =~= value@);
        r
    } else {
        string_of(value)
    }
}

/// Appends the JSON escape of one character.
fn json_char(out: &mut String, ch: char)
    ensures
        final(out)@ == old(out)@ + json_char_text(ch),
{
    let ghost start = out@;
    if ch == '"' {
        push_char(out, '\\');
        push_char(out, '"');
    } else if ch == '\\' {
        push_char(out, '\\');
        push_char(out, '\\');
    } else if ch == '\n' {
        push_char(out, '\\');
        push_char(out, 'n');
    } else if ch == '\r' {
        push_char(out, '\\');
        push_char(out, 'r');
    } else if ch == '\t' {
        push_char(out, '\\');
        push_char(out, 't');
    } else if (ch as u32) < 0x20 {
        push_char(out, '\\');
        push_char(out, 'u');
        push_char(out, '0');
        push_char(out, '0');
        let n = ch as u32;
        push_hex_digit(out, n / 16);
        push_hex_digit(out, n % 16);
    } else {
        push_char(out, ch);
    }
    assert(out@ =~= start + json_char_text(ch));
}

/// Escapes a JSON string body.
pub fn json_escape(text: &str) -> (r: String)
    ensures
        r@ == json_escaped(text@),
{
    let chars = chars_of(text);
    let value = &chars;
        let mut r = String::new();
    proof {
        lemma_map_concat_empty(value@, json_char_text_fn());
    }
    for i in 0..value.len()
        invariant
            r@ == map_concat(value@.take(i as int), json_char_text_fn()),
    {
        json_char(&mut r, value[i]);
        proof {
            lemma_map_concat_step(value@, json_char_text_fn(), i as int);
            assert(json_char_text_fn()(value@[i as int]) == json_char_text(value@[i as int]));
        }
    }
    assert(value@.take(value.len() as int) =~= value@);
    r
}

fn is_bare_yaml_char(ch: char) -> (b: bool)
    ensures
        b == is_bare_yaml(ch),
{
    ('a' <= ch && ch <= 'z') || ('A' <= ch && ch <= 'Z') || ('0' <= ch && ch <= '9') || ch == '.'
        || ch == '/' || ch == '_' || ch == '-'
}

/// Writes a value as a YAML scalar, quoting it when needed.
pub fn yaml_scalar(text: &str) -> (r: String)
    ensures
        r@ == yaml_scalar_text(text@),
{
    let chars = chars_of(text);
    let value = &chars;
    let mut all_bare = true;
    for i in 0..value.len()
        invariant
            all_bare == forall|k: int| 0 <= k < i ==> is_bare_yaml(#[trigger] value@[k]),
    {
        if !is_bare_yaml_char(value[i]) {
            all_bare = false;
        }
    }
    if all_bare && value.len() > 0 {
        return string_of(value);
    }
        let mut r = String::new();
    push_char(&mut r, '"');
    proof {
        lemma_map_concat_empty(value@, yaml_quote_char_fn());
    }
    for i in 0..value.len()
        invariant
            r@ == seq!['"'] + map_concat(value@.take(i as int), yaml_quote_char_fn()),
    {
        let c = value[i];
        if c == '"' {
            push_char(&mut r, '\\');
            push_char(&mut r, '"');
        } else {
            push_char(&mut r, c);
        }
        proof {
            lemma_map_concat_step(value@, yaml_quote_char_fn(), i as int);
            assert(yaml_quote_char_fn()(c) == yaml_quote_char(c));
        }
        assert(r@ =~= seq!['"'] + map_concat(value@.take(i + 1), yaml_quote_char_fn()));
    }
    push_char(&mut r, '"');
    assert(value@.take(value.len() as int) =~= value@);
    r
}

// ---------------------------------------------------------------------------
// Name decoration and colors
// ---------------------------------------------------------------------------

/// The `--icon` prefix for an entry.
pub open spec fn icon_text(e: Entry, c: Config) -> Seq<char> {
    if !c.icon {
        Seq::empty()
    } else {
        match e.kind {
            FileKind::Directory => "[D] "@,
            FileKind::Symlink | FileKind::BrokenSymlink => "[L] "@,
            FileKind::Executable => "[X] "@,
            _ => "[F] "@,
        }
    }
}

/// The `--sensitive` marker for an entry.
pub open spec fn marker_text(e: Entry, c: Config) -> Seq<char> {
    if c.sensitive && e.sensitive {
        " !"@
    } else {
        Seq::empty()
    }
}

/// The value of a `key=value` piece for `key`.
pub open spec fn piece_value(piece: Seq<char>, key: Seq<char>) -> Option<Seq<char>> {
    match split_first(piece, '=') {
        Some((left, right)) => if left == key {
            Some(right)
        } else {
            None
        },
        None => None,
    }
}

/// The value of the first `:`-separated piece of `spec` whose key is `key`.
pub open spec fn color_lookup(spec: Seq<char>, key: Seq<char>) -> Option<Seq<char>>
    decreases spec.len(),
{
    match split_first(spec, ':') {
        Some((piece, rest)) => {
            proof {
                crate::text::lemma_first_index(spec, ':');
            }
            match piece_value(piece, key) {
                Some(v) => Some(v),
                None => color_lookup(rest, key),
            }
        },
        None => piece_value(spec, key),
    }
}

/// The color key of a file kind, if it has one.
pub open spec fn kind_key(kind: FileKind) -> Option<Seq<char>> {
    match kind {
        FileKind::Directory => Some("di"@),
        FileKind::Symlink | FileKind::BrokenSymlink => Some("ln"@),
        FileKind::Executable => Some("ex"@),
        _ => None,
    }
}

/// The `*.ext` rule for the text after the last dot of `name`.
pub open spec fn extension_lookup(name: Seq<char>, spec: Seq<char>) -> Option<Seq<char>> {
    match split_last(name, '.') {
        Some((_, ext)) => color_lookup(spec, "*."@ + ext),
        None => None,
    }
}

/// The color of an entry: its kind's rule first, then its extension's rule.
pub open spec fn color_of(e: Entry, c: Config) -> Option<Seq<char>> {
    match c.color_spec {
        None => None,
        Some(spec) => {
            let by_kind = match kind_key(e.kind) {
                Some(k) => color_lookup(spec@, k),
                None => None,
            };
            match by_kind {
                Some(v) => Some(v),
                None => extension_lookup(e.name@, spec@),
            }
        },
    }
}

/// The name as displayed: icon, name and marker, wrapped in the entry's
/// ANSI color when one applies.
pub open spec fn decorated(e: Entry, c: Config) -> Seq<char> {
    let base = icon_text(e, c) + e.name@ + marker_text(e, c);
    match color_of(e, c) {
        Some(code) => "\x1b["@ + code + "m"@ + base + "\x1b[0m"@,
        None => base,
    }
}

fn icon(entry: &Entry, config: &Config) -> (s: &'static str)
    ensures
        s@ == icon_text(*entry, *config),
{
    if !config.icon {
        proof {
            reveal_strlit("");
        }
        return "";
    }
    match entry.kind {
        FileKind::Directory => "[D] ",
        FileKind::Symlink | FileKind::BrokenSymlink => "[L] ",
        FileKind::Executable => "[X] ",
        _ => "[F] ",
    }
}

fn marker(entry: &Entry, config: &Config) -> (s: &'static str)
    ensures
        s@ == marker_text(*entry, *config),
{
    proof {
        reveal_strlit("");
    }
    if config.sensitive && entry.sensitive {
        " !"
    } else {
        ""
    }
}

fn piece(part: &Vec<char>, key: &Vec<char>) -> (r: Option<Vec<char>>)
    ensures
        match r {
            Some(v) => piece_value(part@, key@) == Some(v@),
            None => piece_value(part@, key@) is None,
        },
{
    match split_once(part, '=') {
        Some((left, right)) => {
            if same_chars(&left, key) {
                Some(right)
            } else {
                None
            }
        },
        None => None,
    }
}

/// Looks `key` up in an `LS_COLORS`-style `key=value:key=value` list.
fn color_value(spec: &Vec<char>, key: &Vec<char>) -> (r: Option<Vec<char>>)
    ensures
        match r {
            Some(v) => color_lookup(spec@, key@) == Some(v@),
            None => color_lookup(spec@, key@) is None,
        },
{
    let mut rest = spec.clone();
    loop
        invariant
            color_lookup(spec@, key@) == color_lookup(rest@, key@),
        decreases rest.len(),
    {
        proof {
            crate::text::lemma_first_index(rest@, ':');
        }
        match split_once(&rest, ':') {
            Some((part, tail)) => {
                match piece(&part, key) {
                    Some(v) => {
                        return Some(v);
                    },
                    None => {
                        rest = tail;
                    },
                }
            },
            None => {
                return piece(&rest, key);
            },
        }
    }
}

fn kind_color(kind: FileKind, spec: &Vec<char>) -> (r: Option<Vec<char>>)
    ensures
        match kind_key(kind) {
            Some(k) => match r {
                Some(v) => color_lookup(spec@, k) == Some(v@),
                None => color_lookup(spec@, k) is None,
            },
            None => r is None,
        },
{
    let key = match kind {
        FileKind::Directory => "di",
        FileKind::Symlink | FileKind::BrokenSymlink => "ln",
        FileKind::Executable => "ex",
        _ => {
            return None;
        },
    };
    color_value(spec, &chars_of(key))
}

fn extension_color(name: &Vec<char>, spec: &Vec<char>) -> (r: Option<Vec<char>>)
    ensures
        match r {
            Some(v) => extension_lookup(name@, spec@) == Some(v@),
            None => extension_lookup(name@, spec@) is None,
        },
{
    let (_, extension) = rsplit_once(name, '.')?;
    let mut key = chars_of("*.");
    let ghost prefix = key@;
    for i in 0..extension.len()
        invariant
            key@ == prefix + extension@.take(i as int),
    {
        key.push(extension[i]);
        assert(prefix + extension@.take(i as int) + seq![extension@[i as int]] =~= prefix
            + extension@.take(i + 1));
    }
    assert(extension@.take(extension.len() as int) =~= extension@);
    color_value(spec, &key)
}

fn color_code(entry: &Entry, config: &Config) -> (r: Option<Vec<char>>)
    ensures
        match r {
            Some(v) => color_of(*entry, *config) == Some(v@),
            None => color_of(*entry, *config) is None,
        },
{
    let spec = match &config.color_spec {
        Some(s) => chars_of(s.as_str()),
        None => {
            return None;
        },
    };
    match kind_color(entry.kind, &spec) {
        Some(v) => Some(v),
        None => extension_color(&chars_of(entry.name.as_str()), &spec),
    }
}

fn colorize_name(name: String, entry: &Entry, config: &Config) -> (r: String)
    ensures
        r@ == match color_of(*entry, *config) {
            Some(code) => "\x1b["@ + code + "m"@ + name@ + "\x1b[0m"@,
            None => name@,
        },
{
    let code = match color_code(entry, config) {
        Some(code) => code,
        None => {
            return name;
        },
    };
    let mut r = String::new();
    push_str(&mut r, "\x1b[");
    push_chars(&mut r, &code);
    push_str(&mut r, "m");
    push_str(&mut r, name.as_str());
    push_str(&mut r, "\x1b[0m");
    r
}

/// Icon, name and sensitivity marker, colored when a rule applies.
fn decorate_name(entry: &Entry, config: &Config, color: bool) -> (r: String)
    ensures
        r@ == if color {
            decorated(*entry, *config)
        } else {
            icon_text(*entry, *config) + entry.name@ + marker_text(*entry, *config)
        },
{
    let mut name = String::new();
    push_str(&mut name, icon(entry, config));
    push_str(&mut name, entry.name.as_str());
    push_str(&mut name, marker(entry, config));
    if color {
        name = colorize_name(name, entry, config);
    }
    name
}

// ---------------------------------------------------------------------------
// Rows of the table and plain outputs
// ---------------------------------------------------------------------------

/// Rows of several groups, group after group.
pub open spec fn rows_concat(parts: Seq<Seq<Seq<char>>>) -> Seq<Seq<char>>
    decreases parts.len(),
{
    if parts.len() == 0 {
        Seq::empty()
    } else {
        rows_concat(parts.drop_last()) + parts.last()
    }
}

pub proof fn lemma_rows_concat_new(n: nat, g: spec_fn(int) -> Seq<Seq<char>>)
    ensures
        rows_concat(Seq::new(n + 1, g)) == rows_concat(Seq::new(n, g)) + g(n as int),
{
    assert(Seq::new(n + 1, g).drop_last() =~= Seq::new(n, g));
}

/// Every modification time of the listing can be rendered in `format`.
pub open spec fn listing_times_ok(l: Listing, format: TimeFormat) -> bool {
    forall|i: int, j: int|
        0 <= i < l.sections@.len() && 0 <= j < l.sections@[i].entries@.len() ==> time_ok(
            #[trigger] l.sections@[i].entries@[j].modified,
            format,
        )
}

pub open spec fn section_times_ok(s: Section, format: TimeFormat) -> bool {
    forall|j: int| 0 <= j < s.entries@.len() ==> time_ok(#[trigger] s.entries@[j].modified, format)
}

/// Local-zone offsets chosen for the entries, per section and entry.
pub open spec fn offsets_ok(zone: Seq<Seq<int>>) -> bool {
    forall|i: int, j: int|
        0 <= i < zone.len() && 0 <= j < zone[i].len() ==> offset_ok(#[trigger] zone[i][j])
}

/// The zone has an offset for every entry of the listing, section by
/// section.
pub open spec fn zone_fits(zone: Seq<Seq<int>>, l: Listing) -> bool {
    &&& zone.len() == l.sections@.len()
    &&& forall|i: int| 0 <= i < zone.len() ==> (#[trigger] zone[i]).len() == l.sections@[i].entries@.len()
}

/// Offsets as integers.
pub open spec fn offsets_of(v: Seq<i32>) -> Seq<int> {
    v.map_values(|o: i32| o as int)
}

/// A zone given section by section, as integers.
pub open spec fn zone_of(z: Seq<Vec<i32>>) -> Seq<Seq<int>> {
    z.map_values(|v: Vec<i32>| offsets_of(v@))
}

/// A zone with an offset below a day for every entry of the listing.
pub open spec fn zone_ok(z: Seq<Vec<i32>>, l: Listing) -> bool {
    zone_fits(zone_of(z), l) && offsets_ok(zone_of(z))
}

pub open spec fn section_offsets_ok(offs: Seq<int>) -> bool {
    forall|j: int| 0 <= j < offs.len() ==> offset_ok(#[trigger] offs[j])
}

proof fn lemma_zone_section(z: Seq<Vec<i32>>, l: Listing, i: int)
    requires
        zone_ok(z, l),
        0 <= i < l.sections@.len(),
    ensures
        z[i]@.len() == l.sections@[i].entries@.len(),
        section_offsets_ok(offsets_of(z[i]@)),
        zone_of(z)[i] == offsets_of(z[i]@),
{
    assert(zone_of(z)[i] == offsets_of(z[i]@));
    assert forall|b: int| 0 <= b < offsets_of(z[i]@).len() implies offset_ok(
        #[trigger] offsets_of(z[i]@)[b],
    ) by {
        assert(zone_of(z)[i][b] == offsets_of(z[i]@)[b]);
    }
}

/// A size as raw bytes or in readable form.
pub open spec fn size_text(size: u64, bytes: bool) -> Seq<char> {
    if bytes {
        decimal(size as nat)
    } else {
        human_size_text(size as nat)
    }
}

/// One table row: kind, right-aligned size, time and decorated name.
pub open spec fn table_row_text(e: Entry, c: Config, offset: int) -> Seq<char> {
    let kind = if c.long {
        pad_right(kind_name(e.kind), 4)
    } else {
        pad_right(kind_label(e.kind), 2)
    };
    kind + " "@ + pad_left(size_text(e.size, c.bytes), 10) + "  "@ + time_text(
        e.modified,
        c.time_format,
        offset,
    ) + "  "@ + decorated(e, c)
}

/// The `path:` heading, shown only when there are several sections.
pub open spec fn heading_rows(s: Section, count: nat) -> Seq<Seq<char>> {
    if count > 1 {
        seq![s.path@ + ":"@]
    } else {
        Seq::empty()
    }
}

pub open spec fn table_section_rows(s: Section, count: nat, c: Config, offs: Seq<int>) -> Seq<
    Seq<char>,
> {
    heading_rows(s, count) + Seq::new(
        s.entries@.len(),
        |j: int| table_row_text(s.entries@[j], c, offs[j]),
    )
}

pub open spec fn table_rows_of(l: Listing, c: Config, zone: Seq<Seq<int>>) -> Seq<Seq<char>> {
    rows_concat(
        Seq::new(
            l.sections@.len(),
            |i: int| table_section_rows(l.sections@[i], l.sections@.len(), c, zone[i]),
        ),
    )
}

pub open spec fn plain_section_rows(s: Section, count: nat, c: Config) -> Seq<Seq<char>> {
    heading_rows(s, count) + Seq::new(s.entries@.len(), |j: int| decorated(s.entries@[j], c))
}

pub open spec fn plain_rows_of(l: Listing, c: Config) -> Seq<Seq<char>> {
    rows_concat(
        Seq::new(
            l.sections@.len(),
            |i: int| plain_section_rows(l.sections@[i], l.sections@.len(), c),
        ),
    )
}

/// A size as raw bytes or in readable form.
fn format_size(size: u64, bytes: bool) -> (s: String)
    ensures
        s@ == size_text(size, bytes),
{
    if bytes {
        let mut s = String::new();
        push_decimal(&mut s, size as u128);
        return s;
    }
    human_size(size)
}

fn push_section_heading(rows: &mut Vec<String>, section: &Section, count: usize)
    ensures
        crate::text::views(final(rows)@) == crate::text::views(old(rows)@) + heading_rows(
            *section,
            count as nat,
        ),
{
    let ghost before = crate::text::views(rows@);
    if count > 1 {
        let mut h = String::new();
        push_str(&mut h, section.path.as_str());
        push_str(&mut h, ":");
        rows.push(h);
    }
    assert(crate::text::views(rows@) =~= before + heading_rows(*section, count as nat));
}

fn table_row(entry: &Entry, config: &Config, offset: i32) -> (r: (String, Ghost<int>))
    requires
        time_ok(entry.modified, config.time_format),
        offset_ok(offset as int),
    ensures
        r.1@ == offset as int,
        r.0@ == table_row_text(*entry, *config, r.1@),
{
    let name = decorate_name(entry, config, true);
    let size = format_size(entry.size, config.bytes);
    let time = time_in_zone(entry.modified, config.time_format, offset);
    let off = Ghost(offset as int);
    let mut row = String::new();
    if config.long {
        push_pad_right(&mut row, &chars_of(entry.kind.name()), 4);
    } else {
        push_pad_right(&mut row, &chars_of(entry.kind.label()), 2);
    }
    push_str(&mut row, " ");
    push_pad_left(&mut row, &chars_of(size.as_str()), 10);
    push_str(&mut row, "  ");
    push_str(&mut row, time.as_str());
    push_str(&mut row, "  ");
    push_str(&mut row, name.as_str());
    (row, off)
}

fn table_rows(section: &Section, config: &Config, offsets: &Vec<i32>) -> (r: (Vec<String>, Ghost<Seq<int>>))
    requires
        offsets@.len() == section.entries@.len(),
        section_offsets_ok(offsets_of(offsets@)),
        section_times_ok(*section, config.time_format),
    ensures
        r.1@ == offsets_of(offsets@),
        r.1@.len() == section.entries@.len(),
        section_offsets_ok(r.1@),
        crate::text::views(r.0@) == Seq::new(
            section.entries@.len(),
            |j: int| table_row_text(section.entries@[j], *config, r.1@[j]),
        ),
{
    let mut rows: Vec<String> = Vec::new();
    let ghost mut offs: Seq<int> = Seq::empty();
    for j in 0..section.entries.len()
        invariant
            section_times_ok(*section, config.time_format),
            offs.len() == j,
            offsets@.len() == section.entries@.len(),
            section_offsets_ok(offsets_of(offsets@)),
            forall|k: int| 0 <= k < j ==> offs[k] == offsets@[k] as int,
            section_offsets_ok(offs),
            crate::text::views(rows@) == Seq::new(
                j as nat,
                |k: int| table_row_text(section.entries@[k], *config, offs[k]),
            ),
    {
        assert(offsets_of(offsets@)[j as int] == offsets@[j as int] as int);
        let (row, off) = table_row(&section.entries[j], config, offsets[j]);
        let ghost old_rows = crate::text::views(rows@);
        let ghost old_offs = offs;
        rows.push(row);
        proof {
            offs = offs.push(off@);
            assert(crate::text::views(rows@) =~= old_rows.push(row@));
            assert(old_rows =~= Seq::new(
                j as nat,
                |k: int| table_row_text(section.entries@[k], *config, offs[k]),
            ));
            assert(crate::text::views(rows@) =~= Seq::new(
                (j + 1) as nat,
                |k: int| table_row_text(section.entries@[k], *config, offs[k]),
            ));
        }
    }
    assert(offs =~= offsets_of(offsets@));
    (rows, Ghost(offs))
}

fn format_table(listing: &Listing, config: &Config, zone_in: &Vec<Vec<i32>>) -> (r: (String, Ghost<Seq<Seq<int>>>))
    requires
        zone_ok(zone_in@, *listing),
        listing_times_ok(*listing, config.time_format),
    ensures
        r.1@ == zone_of(zone_in@),
        offsets_ok(r.1@),
        zone_fits(r.1@, *listing),
        r.1@.len() == listing.sections@.len(),
        r.0@ == lines_text(table_rows_of(*listing, *config, r.1@)),
{
    let mut rows: Vec<String> = Vec::new();
    let ghost mut zone: Seq<Seq<int>> = Seq::empty();
    let count = listing.sections.len();
    for i in 0..listing.sections.len()
        invariant
            listing_times_ok(*listing, config.time_format),
            count == listing.sections@.len(),
            zone.len() == i,
            zone_ok(zone_in@, *listing),
            forall|k: int| 0 <= k < i ==> zone[k] == offsets_of(zone_in@[k]@),
            forall|k: int| 0 <= k < i ==> (#[trigger] zone[k]).len() == listing.sections@[k].entries@.len(),
            offsets_ok(zone),
            crate::text::views(rows@) == rows_concat(
                Seq::new(
                    i as nat,
                    |k: int| table_section_rows(listing.sections@[k], count as nat, *config, zone[k]),
                ),
            ),
    {
        let section = &listing.sections[i];
        let ghost before = crate::text::views(rows@);
        push_section_heading(&mut rows, section, count);
        proof {
            assert forall|j: int| 0 <= j < section.entries@.len() implies time_ok(
                #[trigger] section.entries@[j].modified, config.time_format,
            ) by {
                assert(listing.sections@[i as int].entries@[j] == section.entries@[j]);
            }
        }
        proof {
            lemma_zone_section(zone_in@, *listing, i as int);
        }
        let (mut section_rows, offs) = table_rows(section, config, &zone_in[i]);
        rows.append(&mut section_rows);
        proof {
            let ghost old_zone = zone;
            zone = zone.push(offs@);
            assert(Seq::new(
                i as nat,
                |k: int| table_section_rows(listing.sections@[k], count as nat, *config, old_zone[k]),
            ) =~= Seq::new(
                i as nat,
                |k: int| table_section_rows(listing.sections@[k], count as nat, *config, zone[k]),
            ));
            assert forall|a: int, b: int| 0 <= a < zone.len() && 0 <= b < zone[a].len() implies offset_ok(
                #[trigger] zone[a][b],
            ) by {
                if a < i {
                } else {
                    assert(offset_ok(offs@[b]));
                }
            }
            let g = |k: int| table_section_rows(listing.sections@[k], count as nat, *config, zone[k]);
            lemma_rows_concat_new(i as nat, g);
            assert(Seq::new(
                i as nat,
                |k: int| table_section_rows(listing.sections@[k], count as nat, *config, zone[k]),
            ) =~= Seq::new(i as nat, g));
            assert(crate::text::views(rows@) =~= before + heading_rows(*section, count as nat)
                + Seq::new(
                section.entries@.len(),
                |j: int| table_row_text(section.entries@[j], *config, offs@[j]),
            ));
            assert(g(i as int) =~= heading_rows(*section, count as nat) + Seq::new(
                section.entries@.len(),
                |j: int| table_row_text(section.entries@[j], *config, offs@[j]),
            ));
        }
    }
    let text = finish_lines(rows);
    proof {
        assert(Seq::new(
            count as nat,
            |k: int| table_section_rows(listing.sections@[k], count as nat, *config, zone[k]),
        ) =~= Seq::new(
            listing.sections@.len(),
            |k: int|
                table_section_rows(
                    listing.sections@[k],
                    listing.sections@.len(),
                    *config,
                    zone[k],
                ),
        ));
    }
    assert(zone =~= zone_of(zone_in@));
    (text, Ghost(zone))
}


fn plain_rows(section: &Section, config: &Config) -> (rows: Vec<String>)
    ensures
        crate::text::views(rows@) == Seq::new(
            section.entries@.len(),
            |j: int| decorated(section.entries@[j], *config),
        ),
{
    let mut rows: Vec<String> = Vec::new();
    for j in 0..section.entries.len()
        invariant
            crate::text::views(rows@) == Seq::new(
                j as nat,
                |k: int| decorated(section.entries@[k], *config),
            ),
    {
        let name = decorate_name(&section.entries[j], config, true);
        let ghost old_rows = crate::text::views(rows@);
        rows.push(name);
        assert(crate::text::views(rows@) =~= old_rows.push(
            decorated(section.entries@[j as int], *config),
        ));
        assert(crate::text::views(rows@) =~= Seq::new(
            (j + 1) as nat,
            |k: int| decorated(section.entries@[k], *config),
        ));
    }
    rows
}

fn format_plain(listing: &Listing, config: &Config) -> (text: String)
    ensures
        text@ == lines_text(plain_rows_of(*listing, *config)),
{
    let mut rows: Vec<String> = Vec::new();
    let count = listing.sections.len();
    for i in 0..listing.sections.len()
        invariant
            count == listing.sections@.len(),
            crate::text::views(rows@) == rows_concat(
                Seq::new(
                    i as nat,
                    |k: int| plain_section_rows(listing.sections@[k], count as nat, *config),
                ),
            ),
    {
        let section = &listing.sections[i];
        let ghost before = crate::text::views(rows@);
        push_section_heading(&mut rows, section, count);
        let mut section_rows = plain_rows(section, config);
        rows.append(&mut section_rows);
        proof {
            let g = |k: int| plain_section_rows(listing.sections@[k], count as nat, *config);
            lemma_rows_concat_new(i as nat, g);
            assert(crate::text::views(rows@) =~= before + heading_rows(*section, count as nat)
                + Seq::new(section.entries@.len(), |j: int| decorated(section.entries@[j], *config)));
            assert(crate::text::views(rows@) =~= before + g(i as int));
        }
    }
    finish_lines(rows)
}

// ---------------------------------------------------------------------------
// CSV
// ---------------------------------------------------------------------------

pub open spec fn csv_row_text(s: Section, e: Entry, c: Config, offset: int) -> Seq<char> {
    csv_escaped(s.path@) + ","@ + csv_escaped(kind_name(e.kind)) + ","@ + csv_escaped(e.name@)
        + ","@ + decimal(e.size as nat) + ","@ + csv_escaped(
        time_text(e.modified, c.time_format, offset),
    ) + ","@ + bool_text(e.sensitive)
}

pub open spec fn csv_section_rows(s: Section, c: Config, offs: Seq<int>) -> Seq<Seq<char>> {
    Seq::new(s.entries@.len(), |j: int| csv_row_text(s, s.entries@[j], c, offs[j]))
}

pub open spec fn csv_rows_of(l: Listing, c: Config, zone: Seq<Seq<int>>) -> Seq<Seq<char>> {
    seq!["path,type,name,size,modified,sensitive"@] + rows_concat(
        Seq::new(l.sections@.len(), |i: int| csv_section_rows(l.sections@[i], c, zone[i])),
    )
}

fn csv_row(section: &Section, entry: &Entry, config: &Config, offset: i32) -> (r: (String, Ghost<int>))
    requires
        time_ok(entry.modified, config.time_format),
        offset_ok(offset as int),
    ensures
        r.1@ == offset as int,
        r.0@ == csv_row_text(*section, *entry, *config, r.1@),
{
    let time = time_in_zone(entry.modified, config.time_format, offset);
    let off = Ghost(offset as int);
    let mut row = String::new();
    push_str(&mut row, csv_escape(section.path.as_str()).as_str());
    push_str(&mut row, ",");
    push_str(&mut row, csv_escape(entry.kind.name()).as_str());
    push_str(&mut row, ",");
    push_str(&mut row, csv_escape(entry.name.as_str()).as_str());
    push_str(&mut row, ",");
    push_decimal(&mut row, entry.size as u128);
    push_str(&mut row, ",");
    push_str(&mut row, csv_escape(time.as_str()).as_str());
    push_str(&mut row, ",");
    push_bool(&mut row, entry.sensitive);
    (row, off)
}

fn csv_rows(section: &Section, config: &Config, offsets: &Vec<i32>) -> (r: (Vec<String>, Ghost<Seq<int>>))
    requires
        offsets@.len() == section.entries@.len(),
        section_offsets_ok(offsets_of(offsets@)),
        section_times_ok(*section, config.time_format),
    ensures
        r.1@ == offsets_of(offsets@),
        r.1@.len() == section.entries@.len(),
        section_offsets_ok(r.1@),
        crate::text::views(r.0@) == csv_section_rows(*section, *config, r.1@),
{
    let mut rows: Vec<String> = Vec::new();
    let ghost mut offs: Seq<int> = Seq::empty();
    for j in 0..section.entries.len()
        invariant
            section_times_ok(*section, config.time_format),
            offs.len() == j,
            offsets@.len() == section.entries@.len(),
            section_offsets_ok(offsets_of(offsets@)),
            forall|k: int| 0 <= k < j ==> offs[k] == offsets@[k] as int,
            section_offsets_ok(offs),
            crate::text::views(rows@) == Seq::new(
                j as nat,
                |k: int| csv_row_text(*section, section.entries@[k], *config, offs[k]),
            ),
    {
        assert(offsets_of(offsets@)[j as int] == offsets@[j as int] as int);
        let (row, off) = csv_row(section, &section.entries[j], config, offsets[j]);
        let ghost old_rows = crate::text::views(rows@);
        let ghost old_offs = offs;
        rows.push(row);
        proof {
            offs = offs.push(off@);
            assert(crate::text::views(rows@) =~= old_rows.push(row@));
            assert(old_rows =~= Seq::new(
                j as nat,
                |k: int| csv_row_text(*section, section.entries@[k], *config, offs[k]),
            ));
            assert(crate::text::views(rows@) =~= Seq::new(
                (j + 1) as nat,
                |k: int| csv_row_text(*section, section.entries@[k], *config, offs[k]),
            ));
        }
    }
    assert(offs =~= offsets_of(offsets@));
    (rows, Ghost(offs))
}

/// Pushes the zone entry of one more section and keeps the earlier rows.
proof fn lemma_zone_push(zone: Seq<Seq<int>>, offs: Seq<int>)
    requires
        offsets_ok(zone),
        section_offsets_ok(offs),
    ensures
        offsets_ok(zone.push(offs)),
{
    let z = zone.push(offs);
    assert forall|a: int, b: int| 0 <= a < z.len() && 0 <= b < z[a].len() implies offset_ok(
        #[trigger] z[a][b],
    ) by {
        if a < zone.len() {
            assert(z[a] == zone[a]);
        } else {
            assert(z[a] == offs);
        }
    }
}

proof fn lemma_section_times(l: Listing, i: int, format: TimeFormat)
    requires
        listing_times_ok(l, format),
        0 <= i < l.sections@.len(),
    ensures
        section_times_ok(l.sections@[i], format),
{
    assert forall|j: int| 0 <= j < l.sections@[i].entries@.len() implies time_ok(
        #[trigger] l.sections@[i].entries@[j].modified, format,
    ) by {}
}

fn format_csv(listing: &Listing, config: &Config, zone_in: &Vec<Vec<i32>>) -> (r: (String, Ghost<Seq<Seq<int>>>))
    requires
        zone_ok(zone_in@, *listing),
        listing_times_ok(*listing, config.time_format),
    ensures
        r.1@ == zone_of(zone_in@),
        offsets_ok(r.1@),
        zone_fits(r.1@, *listing),
        r.0@ == lines_text(csv_rows_of(*listing, *config, r.1@)),
{
    let mut rows: Vec<String> = Vec::new();
    rows.push(String::from_str("path,type,name,size,modified,sensitive"));
    let ghost header = crate::text::views(rows@);
    let ghost mut zone: Seq<Seq<int>> = Seq::empty();
    for i in 0..listing.sections.len()
        invariant
            listing_times_ok(*listing, config.time_format),
            zone.len() == i,
            zone_ok(zone_in@, *listing),
            forall|k: int| 0 <= k < i ==> zone[k] == offsets_of(zone_in@[k]@),
            forall|k: int| 0 <= k < i ==> (#[trigger] zone[k]).len() == listing.sections@[k].entries@.len(),
            offsets_ok(zone),
            header == seq!["path,type,name,size,modified,sensitive"@],
            crate::text::views(rows@) == header + rows_concat(
                Seq::new(
                    i as nat,
                    |k: int| csv_section_rows(listing.sections@[k], *config, zone[k]),
                ),
            ),
    {
        let section = &listing.sections[i];
        let ghost before = crate::text::views(rows@);
        proof {
            lemma_section_times(*listing, i as int, config.time_format);
        }
        proof {
            lemma_zone_section(zone_in@, *listing, i as int);
        }
        let (mut section_rows, offs) = csv_rows(section, config, &zone_in[i]);
        rows.append(&mut section_rows);
        proof {
            let old_zone = zone;
            zone = zone.push(offs@);
            lemma_zone_push(old_zone, offs@);
            assert(Seq::new(
                i as nat,
                |k: int| csv_section_rows(listing.sections@[k], *config, old_zone[k]),
            ) =~= Seq::new(
                i as nat,
                |k: int| csv_section_rows(listing.sections@[k], *config, zone[k]),
            ));
            let g = |k: int| csv_section_rows(listing.sections@[k], *config, zone[k]);
            lemma_rows_concat_new(i as nat, g);
            assert(crate::text::views(rows@) =~= before + g(i as int));
        }
    }
    assert(zone =~= zone_of(zone_in@));
    (finish_lines(rows), Ghost(zone))
}


// ---------------------------------------------------------------------------
// JSON
// ---------------------------------------------------------------------------

pub open spec fn json_entry_text(e: Entry, tf: TimeFormat, offset: int) -> Seq<char> {
    "{\"name\":\""@ + json_escaped(e.name@) + "\",\"type\":\""@ + kind_name(e.kind)
        + "\",\"size\":"@ + decimal(e.size as nat) + ",\"modified\":\""@ + json_escaped(
        time_text(e.modified, tf, offset),
    ) + "\",\"sensitive\":"@ + bool_text(e.sensitive) + "}"@
}

pub open spec fn json_section_text(s: Section, tf: TimeFormat, offs: Seq<int>) -> Seq<char> {
    "{\"path\":\""@ + json_escaped(s.path@) + "\",\"entries\":["@ + join(
        Seq::new(s.entries@.len(), |j: int| json_entry_text(s.entries@[j], tf, offs[j])),
        ","@,
    ) + "]}"@
}

pub open spec fn json_summary_text(sm: Summary) -> Seq<char> {
    "{\"files\":"@ + decimal(sm.files as nat) + ",\"directories\":"@ + decimal(
        sm.directories as nat,
    ) + ",\"total_size\":"@ + decimal(sm.total_size as nat) + "}"@
}

pub open spec fn json_text(
    l: Listing,
    include_summary: bool,
    tf: TimeFormat,
    zone: Seq<Seq<int>>,
) -> Seq<char> {
    "{\"sections\":["@ + join(
        Seq::new(l.sections@.len(), |i: int| json_section_text(l.sections@[i], tf, zone[i])),
        ","@,
    ) + "]"@ + (if include_summary {
        ",\"summary\":"@ + json_summary_text(l.summary)
    } else {
        Seq::empty()
    }) + "}\n"@
}

fn json_entry(entry: &Entry, time_format: TimeFormat, offset: i32) -> (r: (String, Ghost<int>))
    requires
        time_ok(entry.modified, time_format),
        offset_ok(offset as int),
    ensures
        r.1@ == offset as int,
        r.0@ == json_entry_text(*entry, time_format, r.1@),
{
    let time = time_in_zone(entry.modified, time_format, offset);
    let off = Ghost(offset as int);
    let mut s = String::new();
    push_str(&mut s, "{\"name\":\"");
    push_str(&mut s, json_escape(entry.name.as_str()).as_str());
    push_str(&mut s, "\",\"type\":\"");
    push_str(&mut s, entry.kind.name());
    push_str(&mut s, "\",\"size\":");
    push_decimal(&mut s, entry.size as u128);
    push_str(&mut s, ",\"modified\":\"");
    push_str(&mut s, json_escape(time.as_str()).as_str());
    push_str(&mut s, "\",\"sensitive\":");
    push_bool(&mut s, entry.sensitive);
    push_str(&mut s, "}");
    (s, off)
}

fn json_section(section: &Section, time_format: TimeFormat, offsets: &Vec<i32>) -> (r: (String, Ghost<Seq<int>>))
    requires
        offsets@.len() == section.entries@.len(),
        section_offsets_ok(offsets_of(offsets@)),
        section_times_ok(*section, time_format),
    ensures
        r.1@ == offsets_of(offsets@),
        r.1@.len() == section.entries@.len(),
        section_offsets_ok(r.1@),
        r.0@ == json_section_text(*section, time_format, r.1@),
{
    let mut parts: Vec<String> = Vec::new();
    let ghost mut offs: Seq<int> = Seq::empty();
    for j in 0..section.entries.len()
        invariant
            section_times_ok(*section, time_format),
            offs.len() == j,
            offsets@.len() == section.entries@.len(),
            section_offsets_ok(offsets_of(offsets@)),
            forall|k: int| 0 <= k < j ==> offs[k] == offsets@[k] as int,
            section_offsets_ok(offs),
            crate::text::views(parts@) == Seq::new(
                j as nat,
                |k: int| json_entry_text(section.entries@[k], time_format, offs[k]),
            ),
    {
        assert(offsets_of(offsets@)[j as int] == offsets@[j as int] as int);
        let (part, off) = json_entry(&section.entries[j], time_format, offsets[j]);
        let ghost old_parts = crate::text::views(parts@);
        parts.push(part);
        proof {
            offs = offs.push(off@);
            assert(crate::text::views(parts@) =~= old_parts.push(part@));
            assert(old_parts =~= Seq::new(
                j as nat,
                |k: int| json_entry_text(section.entries@[k], time_format, offs[k]),
            ));
            assert(crate::text::views(parts@) =~= Seq::new(
                (j + 1) as nat,
                |k: int| json_entry_text(section.entries@[k], time_format, offs[k]),
            ));
        }
    }
    assert(offs =~= offsets_of(offsets@));
    let entries = join_strings(&parts, ",");
    let mut s = String::new();
    push_str(&mut s, "{\"path\":\"");
    push_str(&mut s, json_escape(section.path.as_str()).as_str());
    push_str(&mut s, "\",\"entries\":[");
    push_str(&mut s, entries.as_str());
    push_str(&mut s, "]}");
    (s, Ghost(offs))
}

fn json_summary(summary: Summary) -> (s: String)
    ensures
        s@ == json_summary_text(summary),
{
    let mut s = String::new();
    push_str(&mut s, "{\"files\":");
    push_decimal(&mut s, summary.files as u128);
    push_str(&mut s, ",\"directories\":");
    push_decimal(&mut s, summary.directories as u128);
    push_str(&mut s, ",\"total_size\":");
    push_decimal(&mut s, summary.total_size as u128);
    push_str(&mut s, "}");
    s
}

fn format_json(listing: &Listing, include_summary: bool, time_format: TimeFormat, zone_in: &Vec<Vec<i32>>) -> (r: (
    String,
    Ghost<Seq<Seq<int>>>,
))
    requires
        zone_ok(zone_in@, *listing),
        listing_times_ok(*listing, time_format),
    ensures
        r.1@ == zone_of(zone_in@),
        offsets_ok(r.1@),
        zone_fits(r.1@, *listing),
        r.0@ == json_text(*listing, include_summary, time_format, r.1@),
{
    let mut parts: Vec<String> = Vec::new();
    let ghost mut zone: Seq<Seq<int>> = Seq::empty();
    for i in 0..listing.sections.len()
        invariant
            listing_times_ok(*listing, time_format),
            zone.len() == i,
            zone_ok(zone_in@, *listing),
            forall|k: int| 0 <= k < i ==> zone[k] == offsets_of(zone_in@[k]@),
            forall|k: int| 0 <= k < i ==> (#[trigger] zone[k]).len() == listing.sections@[k].entries@.len(),
            offsets_ok(zone),
            crate::text::views(parts@) == Seq::new(
                i as nat,
                |k: int| json_section_text(listing.sections@[k], time_format, zone[k]),
            ),
    {
        proof {
            lemma_section_times(*listing, i as int, time_format);
        }
        proof {
            lemma_zone_section(zone_in@, *listing, i as int);
        }
        let (part, offs) = json_section(&listing.sections[i], time_format, &zone_in[i]);
        let ghost old_parts = crate::text::views(parts@);
        parts.push(part);
        proof {
            let old_zone = zone;
            zone = zone.push(offs@);
            lemma_zone_push(old_zone, offs@);
            assert(crate::text::views(parts@) =~= old_parts.push(part@));
            assert(old_parts =~= Seq::new(
                i as nat,
                |k: int| json_section_text(listing.sections@[k], time_format, zone[k]),
            ));
            assert(crate::text::views(parts@) =~= Seq::new(
                (i + 1) as nat,
                |k: int| json_section_text(listing.sections@[k], time_format, zone[k]),
            ));
        }
    }
    let sections = join_strings(&parts, ",");
    let mut s = String::new();
    push_str(&mut s, "{\"sections\":[");
    push_str(&mut s, sections.as_str());
    push_str(&mut s, "]");
    if include_summary {
        push_str(&mut s, ",\"summary\":");
        push_str(&mut s, json_summary(listing.summary).as_str());
    }
    push_str(&mut s, "}\n");
    assert(zone =~= zone_of(zone_in@));
    (s, Ghost(zone))
}


// ---------------------------------------------------------------------------
// YAML
// ---------------------------------------------------------------------------

pub open spec fn yaml_entry_rows(e: Entry, tf: TimeFormat, offset: int) -> Seq<Seq<char>> {
    seq![
        "  - name: "@ + yaml_scalar_text(e.name@),
        "    type: "@ + kind_name(e.kind),
        "    size: "@ + decimal(e.size as nat),
        "    modified: "@ + yaml_scalar_text(time_text(e.modified, tf, offset)),
        "    sensitive: "@ + bool_text(e.sensitive),
    ]
}

pub open spec fn yaml_section_rows(s: Section, tf: TimeFormat, offs: Seq<int>) -> Seq<Seq<char>> {
    seq!["- path: "@ + yaml_scalar_text(s.path@), "  entries:"@] + rows_concat(
        Seq::new(s.entries@.len(), |j: int| yaml_entry_rows(s.entries@[j], tf, offs[j])),
    )
}

pub open spec fn yaml_summary_rows(sm: Summary) -> Seq<Seq<char>> {
    seq![
        "summary:"@,
        "  files: "@ + decimal(sm.files as nat),
        "  directories: "@ + decimal(sm.directories as nat),
        "  total_size: "@ + decimal(sm.total_size as nat),
    ]
}

pub open spec fn yaml_rows_of(
    l: Listing,
    include_summary: bool,
    tf: TimeFormat,
    zone: Seq<Seq<int>>,
) -> Seq<Seq<char>> {
    seq!["sections:"@] + rows_concat(
        Seq::new(l.sections@.len(), |i: int| yaml_section_rows(l.sections@[i], tf, zone[i])),
    ) + if include_summary {
        yaml_summary_rows(l.summary)
    } else {
        Seq::empty()
    }
}

fn labelled(label: &str, value: &str) -> (s: String)
    ensures
        s@ == label@ + value@,
{
    let mut s = String::new();
    push_str(&mut s, label);
    push_str(&mut s, value);
    s
}

fn labelled_number(label: &str, n: u128) -> (s: String)
    ensures
        s@ == label@ + decimal(n as nat),
{
    let mut s = String::new();
    push_str(&mut s, label);
    push_decimal(&mut s, n);
    s
}

fn yaml_entry(entry: &Entry, time_format: TimeFormat, offset: i32) -> (r: (Vec<String>, Ghost<int>))
    requires
        time_ok(entry.modified, time_format),
        offset_ok(offset as int),
    ensures
        r.1@ == offset as int,
        crate::text::views(r.0@) == yaml_entry_rows(*entry, time_format, r.1@),
{
    let time = time_in_zone(entry.modified, time_format, offset);
    let off = Ghost(offset as int);
    let mut rows: Vec<String> = Vec::new();
    rows.push(labelled("  - name: ", yaml_scalar(entry.name.as_str()).as_str()));
    rows.push(labelled("    type: ", entry.kind.name()));
    rows.push(labelled_number("    size: ", entry.size as u128));
    rows.push(labelled("    modified: ", yaml_scalar(time.as_str()).as_str()));
    let mut last = String::new();
    push_str(&mut last, "    sensitive: ");
    push_bool(&mut last, entry.sensitive);
    rows.push(last);
    assert(crate::text::views(rows@) =~= yaml_entry_rows(*entry, time_format, off@));
    (rows, off)
}

fn push_yaml_section(rows: &mut Vec<String>, section: &Section, time_format: TimeFormat, offsets: &Vec<i32>) -> (offs:
    Ghost<Seq<int>>)
    requires
        offsets@.len() == section.entries@.len(),
        section_offsets_ok(offsets_of(offsets@)),
        section_times_ok(*section, time_format),
    ensures
        offs@ == offsets_of(offsets@),
        offs@.len() == section.entries@.len(),
        section_offsets_ok(offs@),
        crate::text::views(final(rows)@) == crate::text::views(old(rows)@) + yaml_section_rows(
            *section,
            time_format,
            offs@,
        ),
{
    let ghost start = crate::text::views(rows@);
    rows.push(labelled("- path: ", yaml_scalar(section.path.as_str()).as_str()));
    rows.push(String::from_str("  entries:"));
    let ghost head = crate::text::views(rows@);
    assert(head =~= start + seq!["- path: "@ + yaml_scalar_text(section.path@), "  entries:"@]);
    let ghost mut offs: Seq<int> = Seq::empty();
    for j in 0..section.entries.len()
        invariant
            section_times_ok(*section, time_format),
            offs.len() == j,
            offsets@.len() == section.entries@.len(),
            section_offsets_ok(offsets_of(offsets@)),
            forall|k: int| 0 <= k < j ==> offs[k] == offsets@[k] as int,
            section_offsets_ok(offs),
            crate::text::views(rows@) == head + rows_concat(
                Seq::new(j as nat, |k: int| yaml_entry_rows(section.entries@[k], time_format, offs[k])),
            ),
    {
        let ghost before = crate::text::views(rows@);
        assert(offsets_of(offsets@)[j as int] == offsets@[j as int] as int);
        let (mut entry_rows, off) = yaml_entry(&section.entries[j], time_format, offsets[j]);
        let ghost added = crate::text::views(entry_rows@);
        rows.append(&mut entry_rows);
        proof {
            let old_offs = offs;
            offs = offs.push(off@);
            assert(Seq::new(
                j as nat,
                |k: int| yaml_entry_rows(section.entries@[k], time_format, old_offs[k]),
            ) =~= Seq::new(
                j as nat,
                |k: int| yaml_entry_rows(section.entries@[k], time_format, offs[k]),
            ));
            let g = |k: int| yaml_entry_rows(section.entries@[k], time_format, offs[k]);
            lemma_rows_concat_new(j as nat, g);
            assert(crate::text::views(rows@) =~= before + added);
        }
    }
    assert(offs =~= offsets_of(offsets@));
    Ghost(offs)
}

fn yaml_summary(summary: Summary) -> (rows: Vec<String>)
    ensures
        crate::text::views(rows@) == yaml_summary_rows(summary),
{
    let mut rows: Vec<String> = Vec::new();
    rows.push(String::from_str("summary:"));
    rows.push(labelled_number("  files: ", summary.files as u128));
    rows.push(labelled_number("  directories: ", summary.directories as u128));
    rows.push(labelled_number("  total_size: ", summary.total_size as u128));
    assert(crate::text::views(rows@) =~= yaml_summary_rows(summary));
    rows
}

fn format_yaml(listing: &Listing, include_summary: bool, time_format: TimeFormat, zone_in: &Vec<Vec<i32>>) -> (r: (
    String,
    Ghost<Seq<Seq<int>>>,
))
    requires
        zone_ok(zone_in@, *listing),
        listing_times_ok(*listing, time_format),
    ensures
        r.1@ == zone_of(zone_in@),
        offsets_ok(r.1@),
        zone_fits(r.1@, *listing),
        r.0@ == lines_text(yaml_rows_of(*listing, include_summary, time_format, r.1@)),
{
    let mut rows: Vec<String> = Vec::new();
    rows.push(String::from_str("sections:"));
    let ghost header = crate::text::views(rows@);
    let ghost mut zone: Seq<Seq<int>> = Seq::empty();
    for i in 0..listing.sections.len()
        invariant
            listing_times_ok(*listing, time_format),
            zone.len() == i,
            zone_ok(zone_in@, *listing),
            forall|k: int| 0 <= k < i ==> zone[k] == offsets_of(zone_in@[k]@),
            forall|k: int| 0 <= k < i ==> (#[trigger] zone[k]).len() == listing.sections@[k].entries@.len(),
            offsets_ok(zone),
            header == seq!["sections:"@],
            crate::text::views(rows@) == header + rows_concat(
                Seq::new(
                    i as nat,
                    |k: int| yaml_section_rows(listing.sections@[k], time_format, zone[k]),
                ),
            ),
    {
        let ghost before = crate::text::views(rows@);
        proof {
            lemma_section_times(*listing, i as int, time_format);
        }
        proof {
            lemma_zone_section(zone_in@, *listing, i as int);
        }
        let offs = push_yaml_section(&mut rows, &listing.sections[i], time_format, &zone_in[i]);
        proof {
            let old_zone = zone;
            zone = zone.push(offs@);
            lemma_zone_push(old_zone, offs@);
            assert(Seq::new(
                i as nat,
                |k: int| yaml_section_rows(listing.sections@[k], time_format, old_zone[k]),
            ) =~= Seq::new(
                i as nat,
                |k: int| yaml_section_rows(listing.sections@[k], time_format, zone[k]),
            ));
            let g = |k: int| yaml_section_rows(listing.sections@[k], time_format, zone[k]);
            lemma_rows_concat_new(i as nat, g);
        }
    }
    let ghost body = crate::text::views(rows@);
    if include_summary {
        let mut tail = yaml_summary(listing.summary);
        rows.append(&mut tail);
    }
    assert(crate::text::views(rows@) =~= yaml_rows_of(
        *listing,
        include_summary,
        time_format,
        zone,
    ));
    assert(zone =~= zone_of(zone_in@));
    (finish_lines(rows), Ghost(zone))
}


// ---------------------------------------------------------------------------
// Whole listing
// ---------------------------------------------------------------------------

/// The free-form totals line, only for table and plain output.
pub open spec fn summary_line(sm: Summary, c: Config) -> Seq<char> {
    if !c.summary || c.output == OutputMode::Csv || c.output == OutputMode::Json || c.output
        == OutputMode::Yaml {
        Seq::empty()
    } else {
        "summary: files="@ + decimal(sm.files as nat) + " directories="@ + decimal(
            sm.directories as nat,
        ) + " size="@ + size_text(sm.total_size, c.bytes) + "\n"@
    }
}

/// The listing text for a local zone that is `zone[i][j]` seconds ahead of
/// UTC at the modification time of entry `j` of section `i`.
pub open spec fn listing_text(l: Listing, c: Config, zone: Seq<Seq<int>>) -> Seq<char> {
    let body = match c.output {
        OutputMode::Table => lines_text(table_rows_of(l, c, zone)),
        OutputMode::Plain => lines_text(plain_rows_of(l, c)),
        OutputMode::Csv => lines_text(csv_rows_of(l, c, zone)),
        OutputMode::Json => json_text(l, c.summary, c.time_format, zone),
        OutputMode::Yaml => lines_text(yaml_rows_of(l, c.summary, c.time_format, zone)),
    };
    body + summary_line(l.summary, c)
}

/// Appends the free-form totals line where the output takes one: after
/// table and plain output with `--summary`, never after CSV, JSON or YAML.
pub fn append_summary(text: &mut String, summary: Summary, config: &Config)
    ensures
        final(text)@ == old(text)@ + summary_line(summary, *config),
{
    if !config.summary || matches!(config.output, OutputMode::Csv | OutputMode::Json | OutputMode::Yaml) {
        return ;
    }
    push_str(text, "summary: files=");
    push_decimal(text, summary.files as u128);
    push_str(text, " directories=");
    push_decimal(text, summary.directories as u128);
    push_str(text, " size=");
    push_str(text, format_size(summary.total_size, config.bytes).as_str());
    push_str(text, "\n");
}

/// The listing rendered as the configuration asks, with local times in
/// the given zone: `zone[i][j]` is the UTC offset used for entry `j` of
/// section `i`; totals follow where asked for.
pub fn format_listing_in_zone(listing: &Listing, config: &Config, zone: &Vec<Vec<i32>>) -> (text:
    String)
    requires
        listing_times_ok(*listing, config.time_format),
        zone_ok(zone@, *listing),
    ensures
        text@ == listing_text(*listing, *config, zone_of(zone@)),
{
    let mut text = match config.output {
        OutputMode::Table => format_table(listing, config, zone).0,
        OutputMode::Plain => format_plain(listing, config),
        OutputMode::Csv => format_csv(listing, config, zone).0,
        OutputMode::Json => format_json(listing, config.summary, config.time_format, zone).0,
        OutputMode::Yaml => format_yaml(listing, config.summary, config.time_format, zone).0,
    };
    append_summary(&mut text, listing.summary, config);
    text
}

/// The UTC offsets of the machine's time zone at each entry's modification
/// time, section by section (see `zone_offset`).
pub fn listing_zone(listing: &Listing, config: &Config) -> (zone: Vec<Vec<i32>>)
    requires
        listing_times_ok(*listing, config.time_format),
    ensures
        zone_ok(zone@, *listing),
{
    let mut zone: Vec<Vec<i32>> = Vec::new();
    for i in 0..listing.sections.len()
        invariant
            listing_times_ok(*listing, config.time_format),
            zone@.len() == i,
            forall|k: int| 0 <= k < i ==> (#[trigger] zone@[k])@.len() == listing.sections@[k].entries@.len(),
            forall|k: int, b: int| 0 <= k < i && 0 <= b < zone@[k]@.len() ==> offset_ok(
                #[trigger] zone@[k]@[b] as int,
            ),
    {
        let entries = &listing.sections[i].entries;
        let mut offs: Vec<i32> = Vec::new();
        for j in 0..entries.len()
            invariant
                i < listing.sections@.len(),
                entries@ == listing.sections@[i as int].entries@,
                listing_times_ok(*listing, config.time_format),
                offs@.len() == j,
                forall|b: int| 0 <= b < j ==> offset_ok(#[trigger] offs@[b] as int),
        {
            assert(time_ok(listing.sections@[i as int].entries@[j as int].modified, config.time_format));
            offs.push(zone_offset(entries[j].modified, config.time_format));
        }
        zone.push(offs);
    }
    proof {
        assert forall|a: int, b: int| 0 <= a < zone_of(zone@).len() && 0 <= b < zone_of(zone@)[a].len()
            implies offset_ok(#[trigger] zone_of(zone@)[a][b]) by {
            assert(zone_of(zone@)[a][b] == zone@[a]@[b] as int);
        }
        assert forall|a: int| 0 <= a < zone_of(zone@).len() implies (#[trigger] zone_of(
            zone@,
        )[a]).len() == listing.sections@[a].entries@.len() by {
            assert(zone_of(zone@)[a] == offsets_of(zone@[a]@));
        }
    }
    zone
}

/// Renders the listing as the configuration asks, with local times in the
/// machine's time zone (the offsets `listing_zone` gathers), and totals
/// where asked for.
pub fn format_listing(listing: &Listing, config: &Config) -> (text: String)
    requires
        listing_times_ok(*listing, config.time_format),
    ensures
        exists|zone: Seq<Seq<int>>|
            offsets_ok(zone) && zone_fits(zone, *listing) && text@ == #[trigger] listing_text(
                *listing,
                *config,
                zone,
            ),
{
    let zone = listing_zone(listing, config);
    format_listing_in_zone(listing, config, &zone)
}


/// Whether every modification time of the listing can be formatted.
pub fn times_in_range(listing: &Listing, format: TimeFormat) -> (b: bool)
    ensures
        b == listing_times_ok(*listing, format),
{
    for i in 0..listing.sections.len()
        invariant
            forall|a: int, j: int|
                0 <= a < i && 0 <= j < listing.sections@[a].entries@.len() ==> time_ok(
                    #[trigger] listing.sections@[a].entries@[j].modified, format,
                ),
    {
        let entries = &listing.sections[i].entries;
        for j in 0..entries.len()
            invariant
                i < listing.sections@.len(),
                entries@ == listing.sections@[i as int].entries@,
                forall|a: int, k: int|
                    0 <= a < i && 0 <= k < listing.sections@[a].entries@.len() ==> time_ok(
                        #[trigger] listing.sections@[a].entries@[k].modified, format,
                    ),
                forall|k: int| 0 <= k < j ==> time_ok(#[trigger] entries@[k].modified, format),
        {
            let ok = match entries[j].modified {
                Some(t) => timestamp_in_range(t, format),
                None => true,
            };
            if !ok {
                assert(!time_ok(listing.sections@[i as int].entries@[j as int].modified, format));
                return false;
            }
        }
    }
    true
}


// ---------------------------------------------------------------------------
// Laws
// ---------------------------------------------------------------------------

proof fn lemma_csv_row_count(l: Listing, c: Config, zone: Seq<Seq<int>>, n: nat)
    requires
        n <= l.sections@.len(),
    ensures
        rows_concat(
            Seq::new(n, |i: int| csv_section_rows(l.sections@[i], c, zone[i])),
        ).len() == crate::model::section_entries(l.sections@.take(n as int)).len(),
    decreases n,
{
    let g = |i: int| csv_section_rows(l.sections@[i], c, zone[i]);
    if n == 0 {
        assert(l.sections@.take(0) =~= Seq::<Section>::empty());
        assert(Seq::new(0, g) =~= Seq::<Seq<Seq<char>>>::empty());
    } else {
        let m = (n - 1) as nat;
        lemma_csv_row_count(l, c, zone, m);
        lemma_rows_concat_new(m, g);
        assert(l.sections@.take(n as int).drop_last() =~= l.sections@.take(m as int));
        assert(l.sections@.take(n as int).last() == l.sections@[m as int]);
    }
}

/// CSV output is the header line and exactly one line per entry; the
/// summary option adds nothing to it.
pub proof fn csv_has_a_line_per_entry(l: Listing, c: Config, zone: Seq<Seq<int>>)
    requires
        c.output == OutputMode::Csv,
    ensures
        listing_text(l, c, zone) == lines_text(csv_rows_of(l, c, zone)),
        csv_rows_of(l, c, zone).len() == 1 + crate::model::section_entries(l.sections@).len(),
{
    lemma_csv_row_count(l, c, zone, l.sections@.len());
    assert(l.sections@.take(l.sections@.len() as int) =~= l.sections@);
    assert(lines_text(csv_rows_of(l, c, zone)) + Seq::<char>::empty() =~= lines_text(
        csv_rows_of(l, c, zone),
    ));
}

proof fn lemma_plain_row_count(l: Listing, c: Config, n: nat)
    requires
        n <= l.sections@.len(),
    ensures
        rows_concat(
            Seq::new(n, |i: int| plain_section_rows(l.sections@[i], l.sections@.len(), c)),
        ).len() == crate::model::section_entries(l.sections@.take(n as int)).len() + if l.sections@.len()
            > 1 {
            n as int
        } else {
            0
        },
    decreases n,
{
    let g = |i: int| plain_section_rows(l.sections@[i], l.sections@.len(), c);
    if n == 0 {
        assert(l.sections@.take(0) =~= Seq::<Section>::empty());
        assert(Seq::new(0, g) =~= Seq::<Seq<Seq<char>>>::empty());
    } else {
        let m = (n - 1) as nat;
        lemma_plain_row_count(l, c, m);
        lemma_rows_concat_new(m, g);
        assert(l.sections@.take(n as int).drop_last() =~= l.sections@.take(m as int));
        assert(l.sections@.take(n as int).last() == l.sections@[m as int]);
    }
}

/// Plain output is one line per entry, each section headed by its own line
/// when there are several; without `--summary` nothing else is printed.
pub proof fn plain_has_a_line_per_entry(l: Listing, c: Config, zone: Seq<Seq<int>>)
    requires
        c.output == OutputMode::Plain,
        !c.summary,
    ensures
        listing_text(l, c, zone) == lines_text(plain_rows_of(l, c)),
        plain_rows_of(l, c).len() == crate::model::section_entries(l.sections@).len() + if l.sections@.len()
            > 1 {
            l.sections@.len() as int
        } else {
            0
        },
{
    lemma_plain_row_count(l, c, l.sections@.len());
    assert(l.sections@.take(l.sections@.len() as int) =~= l.sections@);
    assert(lines_text(plain_rows_of(l, c)) + Seq::<char>::empty() =~= lines_text(
        plain_rows_of(l, c),
    ));
}

/// The text of a quoted CSV field's inside: each doubled quote stands for
/// one quote.
pub open spec fn csv_undoubled(s: Seq<char>) -> Seq<char>
    decreases s.len(),
{
    if s.len() == 0 {
        s
    } else if s.len() >= 2 && s.last() == '"' && s[s.len() - 2] == '"' {
        csv_undoubled(s.take(s.len() - 2)).push('"')
    } else {
        csv_undoubled(s.drop_last()).push(s.last())
    }
}

/// The value a CSV reader takes from one field: the inside of a quoted
/// field with its doubled quotes undone, any other field as it stands.
pub open spec fn csv_field_value(f: Seq<char>) -> Seq<char> {
    if f.len() >= 2 && f[0] == '"' && f.last() == '"' {
        csv_undoubled(f.subrange(1, f.len() - 1))
    } else {
        f
    }
}

proof fn lemma_csv_undoubled(v: Seq<char>)
    ensures
        csv_undoubled(map_concat(v, csv_char_fn())) == v,
    decreases v.len(),
{
    let f = csv_char_fn();
    if v.len() == 0 {
        lemma_map_concat_empty(v, f);
        assert(v.take(0) =~= v);
    } else {
        lemma_map_concat_ends(v, f);
        lemma_csv_undoubled(v.drop_last());
        let x = map_concat(v.drop_last(), f);
        let c = v.last();
        if c == '"' {
            let t = x + seq!['"', '"'];
            assert(t.take(t.len() - 2) =~= x);
        } else {
            let t = x + seq![c];
            assert(t.drop_last() =~= x);
        }
        assert(v.drop_last().push(c) =~= v);
    }
}

/// Reading back a CSV field that `csv_escape` wrote gives the value; a
/// value that needs no quotes is written as it stands.
pub proof fn csv_fields_read_back(v: Seq<char>)
    ensures
        csv_field_value(csv_escaped(v)) == v,
        !csv_needs_quotes(v) ==> csv_escaped(v) == v,
{
    if csv_needs_quotes(v) {
        let inner = map_concat(v, csv_char_fn());
        let f = seq!['"'] + inner + seq!['"'];
        assert(f.subrange(1, f.len() - 1) =~= inner);
        lemma_csv_undoubled(v);
    } else {
        if v.len() >= 2 && v[0] == '"' {
            assert(has_char(v, '"'));
        }
    }
}

/// The value of a hexadecimal digit.
pub open spec fn hex_value(c: char) -> int {
    if '0' <= c <= '9' {
        c as int - 48
    } else {
        c as int - 87
    }
}

/// The characters a JSON reader takes from the inside of a string: each
/// escape stands for the character it names, anything else for itself.
pub open spec fn json_unescaped(s: Seq<char>) -> Seq<char>
    decreases s.len(),
{
    if s.len() == 0 {
        s
    } else if s[0] == '\\' && s.len() >= 2 && (s[1] == '"' || s[1] == '\\') {
        seq![s[1]] + json_unescaped(s.skip(2))
    } else if s[0] == '\\' && s.len() >= 2 && s[1] == 'n' {
        seq!['\n'] + json_unescaped(s.skip(2))
    } else if s[0] == '\\' && s.len() >= 2 && s[1] == 'r' {
        seq!['\r'] + json_unescaped(s.skip(2))
    } else if s[0] == '\\' && s.len() >= 2 && s[1] == 't' {
        seq!['\t'] + json_unescaped(s.skip(2))
    } else if s[0] == '\\' && s.len() >= 6 && s[1] == 'u' {
        seq![
            (4096 * hex_value(s[2]) + 256 * hex_value(s[3]) + 16 * hex_value(s[4]) + hex_value(
                s[5],
            )) as char,
        ] + json_unescaped(s.skip(6))
    } else {
        seq![s[0]] + json_unescaped(s.skip(1))
    }
}

proof fn lemma_json_char_read_back(c: char, rest: Seq<char>)
    ensures
        json_unescaped(json_char_text(c) + rest) == seq![c] + json_unescaped(rest),
        forall|k: int| 0 <= k < json_char_text(c).len() ==> (#[trigger] json_char_text(c)[k]) as u32 >= 0x20,
{
    let t = json_char_text(c) + rest;
    if c == '"' || c == '\\' || c == '\n' || c == '\r' || c == '\t' {
        assert(t.skip(2) =~= rest);
    } else if (c as u32) < 0x20 {
        let n = c as u32;
        assert(t.skip(6) =~= rest);
        assert(hex_value(hex_digit((n / 16) as nat)) == n / 16);
        assert(hex_value(hex_digit((n % 16) as nat)) == n % 16);
        assert(hex_value('0') == 0);
        assert(4096 * hex_value(t[2]) + 256 * hex_value(t[3]) + 16 * hex_value(t[4]) + hex_value(t[5]) == n);
    } else {
        assert(t.skip(1) =~= rest);
    }
}

proof fn lemma_json_read_back(v: Seq<char>)
    ensures
        json_unescaped(json_escaped(v)) == v,
        forall|k: int| 0 <= k < json_escaped(v).len() ==> (#[trigger] json_escaped(v)[k]) as u32 >= 0x20,
    decreases v.len(),
{
    let f = json_char_text_fn();
    if v.len() == 0 {
        lemma_map_concat_empty(v, f);
        assert(v.take(0) =~= v);
    } else {
        lemma_map_concat_ends(v, f);
        lemma_json_read_back(v.drop_first());
        lemma_json_char_read_back(v[0], json_escaped(v.drop_first()));
        assert(seq![v[0]] + v.drop_first() =~= v);
        let a = json_char_text(v[0]);
        let b = json_escaped(v.drop_first());
        assert forall|k: int| 0 <= k < (a + b).len() implies ((a + b)[k]) as u32 >= 0x20 by {
            if k < a.len() {
                assert((a + b)[k] == a[k]);
            } else {
                assert((a + b)[k] == b[k - a.len()]);
            }
        }
    }
}

/// A JSON string body written by `json_escape` holds no control character,
/// as JSON requires, and a JSON reader takes the value back from it.
pub proof fn json_strings_read_back(v: Seq<char>)
    ensures
        json_unescaped(json_escaped(v)) == v,
        forall|k: int| 0 <= k < json_escaped(v).len() ==> (#[trigger] json_escaped(v)[k]) as u32 >= 0x20,
{
    lemma_json_read_back(v);
}

/// The free-form totals line comes only after table and plain output with
/// `--summary`; CSV, JSON and YAML never get it.
pub proof fn summary_line_only_for_text_outputs(sm: Summary, c: Config)
    ensures
        c.output == OutputMode::Csv || c.output == OutputMode::Json || c.output
            == OutputMode::Yaml || !c.summary ==> summary_line(sm, c) == Seq::<char>::empty(),
        c.summary && (c.output == OutputMode::Table || c.output == OutputMode::Plain)
            ==> summary_line(sm, c) == "summary: files="@ + decimal(sm.files as nat)
            + " directories="@ + decimal(sm.directories as nat) + " size="@ + size_text(
            sm.total_size,
            c.bytes,
        ) + "\n"@,
{
}

/// A listing without sections prints nothing as a table or as plain text
/// unless totals are asked for.
pub proof fn empty_listing_prints_nothing(l: Listing, c: Config, zone: Seq<Seq<int>>)
    requires
        l.sections@.len() == 0,
        c.output == OutputMode::Table || c.output == OutputMode::Plain,
        !c.summary,
    ensures
        listing_text(l, c, zone) == Seq::<char>::empty(),
{
    let e = Seq::<Seq<char>>::empty();
    assert(Seq::new(0, |i: int| table_section_rows(l.sections@[i], 0, c, zone[i])) =~= Seq::<
        Seq<Seq<char>>,
    >::empty());
    assert(Seq::new(0, |i: int| plain_section_rows(l.sections@[i], 0, c)) =~= Seq::<
        Seq<Seq<char>>,
    >::empty());
    assert(rows_concat(Seq::<Seq<Seq<char>>>::empty()) =~= e);
    assert(e.map_values(|r: Seq<char>| r.push('\n')) =~= Seq::<Seq<char>>::empty());
    assert(lines_text(e) =~= Seq::<char>::empty());
    assert(Seq::<char>::empty() + Seq::<char>::empty() =~= Seq::<char>::empty());
}

} // verus!
