//! Command-line options and their parsing.
use vstd::prelude::*;
use crate::text::{chars_of, push_str, same_chars, split_first, split_once, starts_with, views};

verus! {

#[derive(Debug, Clone, PartialEq, Eq)]
pub struct Config {
    pub paths: Vec<String>,
    pub include_hidden: bool,
    pub include_ignored: bool,
    pub long: bool,
    pub sort_key: SortKey,
    pub reverse: bool,
    pub recursive: bool,
    pub max_depth: Option<usize>,
    pub time_format: TimeFormat,
    pub bytes: bool,
    pub type_filter: Option<TypeFilter>,
    pub output: OutputMode,
    pub icon: bool,
    pub summary: bool,
    pub sensitive: bool,
    pub color_spec: Option<String>,
}

#[derive(Debug, Clone, Copy, PartialEq, Eq, Structural)]
pub enum SortKey {
    Name,
    Size,
    Time,
    Extension,
}

#[derive(Debug, Clone, Copy, PartialEq, Eq, Structural)]
pub enum TimeFormat {
    Local,
    Iso,
}

#[derive(Debug, Clone, Copy, PartialEq, Eq, Structural)]
pub enum TypeFilter {
    File,
    Directory,
    Link,
}

#[derive(Debug, Clone, Copy, PartialEq, Eq, Structural)]
pub enum OutputMode {
    Table,
    Plain,
    Csv,
    Json,
    Yaml,
}

#[derive(Debug, Clone, PartialEq, Eq)]
pub enum CliError {
    Help(String),
    Version(String),
    Message(String),
}

/// A configuration as plain values.
pub struct ConfigView {
    pub paths: Seq<Seq<char>>,
    pub include_hidden: bool,
    pub include_ignored: bool,
    pub long: bool,
    pub sort_key: SortKey,
    pub reverse: bool,
    pub recursive: bool,
    pub max_depth: Option<usize>,
    pub time_format: TimeFormat,
    pub bytes: bool,
    pub type_filter: Option<TypeFilter>,
    pub output: OutputMode,
    pub icon: bool,
    pub summary: bool,
    pub sensitive: bool,
    pub color_spec: Option<Seq<char>>,
}

/// An argument error as plain values.
pub enum CliErrorView {
    Help(Seq<char>),
    Version(Seq<char>),
    Message(Seq<char>),
}

impl View for Config {
    type V = ConfigView;

    open spec fn view(&self) -> ConfigView {
        ConfigView {
            paths: views(self.paths@),
            include_hidden: self.include_hidden,
            include_ignored: self.include_ignored,
            long: self.long,
            sort_key: self.sort_key,
            reverse: self.reverse,
            recursive: self.recursive,
            max_depth: self.max_depth,
            time_format: self.time_format,
            bytes: self.bytes,
            type_filter: self.type_filter,
            output: self.output,
            icon: self.icon,
            summary: self.summary,
            sensitive: self.sensitive,
            color_spec: match self.color_spec {
                Some(s) => Some(s@),
                None => None,
            },
        }
    }
}

impl View for CliError {
    type V = CliErrorView;

    open spec fn view(&self) -> CliErrorView {
        match self {
            CliError::Help(s) => CliErrorView::Help(s@),
            CliError::Version(s) => CliErrorView::Version(s@),
            CliError::Message(s) => CliErrorView::Message(s@),
        }
    }
}

/// The settings when no option is given: no paths yet, names sorted by
/// name, local times, table output, everything else off.
pub open spec fn default_view() -> ConfigView {
    ConfigView {
        paths: Seq::empty(),
        include_hidden: false,
        include_ignored: false,
        long: false,
        sort_key: SortKey::Name,
        reverse: false,
        recursive: false,
        max_depth: None,
        time_format: TimeFormat::Local,
        bytes: false,
        type_filter: None,
        output: OutputMode::Table,
        icon: false,
        summary: false,
        sensitive: false,
        color_spec: None,
    }
}

impl Default for Config {
    /// The settings when no option is given.
    fn default() -> (c: Self)
        ensures
            c@ == default_view(),
    {
        let c = Config {
            paths: Vec::new(),
            include_hidden: false,
            include_ignored: false,
            long: false,
            sort_key: SortKey::Name,
            reverse: false,
            recursive: false,
            max_depth: None,
            time_format: TimeFormat::Local,
            bytes: false,
            type_filter: None,
            output: OutputMode::Table,
            icon: false,
            summary: false,
            sensitive: false,
            color_spec: None,
        };
        assert(c@.paths =~= Seq::<Seq<char>>::empty());
        c
    }
}

pub const HELP_TEXT: &'static str = "lsef [OPTIONS] [PATH ...]

Options:
  -a, --all                 include hidden files
  -A, --whole-all           include hidden and ignored files
  -l, --long                show extended table columns
  -S, --sort size           sort by size
  -t, --sort time           sort by modification time
  -r, --reverse             reverse primary sort order
  -R, --recursive           walk subdirectories
      --max-depth <N>       limit recursive depth
      --time-format <MODE>  local or iso
      --bytes               show raw byte sizes
      --type <KIND>         file, dir, or link
      --output <MODE>       table, plain, csv, json, or yaml
      --format <MODE>       alias for --output
      --icon                prefix names with icons
      --summary             append totals
      --sensitive           mark likely sensitive files
      --version             show the version
";

/// The line shown for `--version`: the program's name and the package
/// version.
pub const VERSION_TEXT: &'static str = "lsef 0.1.0\n";

// ---------------------------------------------------------------------------
// The parsing rules
// ---------------------------------------------------------------------------

/// A token names a path unless it starts with `-`; a lone `-` is a path.
pub open spec fn is_path_text(t: Seq<char>) -> bool {
    !(t.len() > 0 && t[0] == '-') || t == seq!['-']
}

pub open spec fn with_path(c: ConfigView, p: Seq<char>) -> ConfigView {
    ConfigView { paths: c.paths.push(p), ..c }
}

/// The value of a decimal digit character.
pub open spec fn is_digit(c: char) -> bool {
    '0' <= c <= '9'
}

pub open spec fn all_digits(d: Seq<char>) -> bool {
    forall|i: int| 0 <= i < d.len() ==> is_digit(#[trigger] d[i])
}

pub open spec fn digits_value(d: Seq<char>) -> nat
    decreases d.len(),
{
    if d.len() == 0 {
        0
    } else {
        digits_value(d.drop_last()) * 10 + ((d.last() as int) - 48) as nat
    }
}

/// `usize` parsing: an optional `+`, then one or more ASCII digits whose
/// value fits in `usize`.
pub open spec fn parse_usize_text(v: Seq<char>) -> Option<usize> {
    let d = if v.len() > 0 && v[0] == '+' {
        v.drop_first()
    } else {
        v
    };
    if d.len() == 0 || !all_digits(d) {
        None
    } else if digits_value(d) > usize::MAX {
        None
    } else {
        Some(digits_value(d) as usize)
    }
}

pub open spec fn invalid_value_text(name: Seq<char>, value: Seq<char>) -> CliErrorView {
    CliErrorView::Message("invalid "@ + name + " value: "@ + value)
}

/// Which value-taking option is being set.
#[derive(Clone, Copy, PartialEq, Eq, Structural)]
pub enum ValueOption {
    Sort,
    MaxDepth,
    TimeFormat,
    Type,
    Output,
}

/// Applying the value of a value-taking option.
pub open spec fn apply_value(opt: ValueOption, v: Seq<char>, c: ConfigView) -> Result<
    ConfigView,
    CliErrorView,
> {
    match opt {
        ValueOption::Sort => if v == "name"@ {
            Ok(ConfigView { sort_key: SortKey::Name, ..c })
        } else if v == "size"@ {
            Ok(ConfigView { sort_key: SortKey::Size, ..c })
        } else if v == "time"@ {
            Ok(ConfigView { sort_key: SortKey::Time, ..c })
        } else if v == "extension"@ || v == "ext"@ {
            Ok(ConfigView { sort_key: SortKey::Extension, ..c })
        } else {
            Err(invalid_value_text("--sort"@, v))
        },
        ValueOption::MaxDepth => match parse_usize_text(v) {
            Some(n) => Ok(ConfigView { max_depth: Some(n), ..c }),
            None => Err(invalid_value_text("--max-depth"@, v)),
        },
        ValueOption::TimeFormat => if v == "local"@ {
            Ok(ConfigView { time_format: TimeFormat::Local, ..c })
        } else if v == "iso"@ {
            Ok(ConfigView { time_format: TimeFormat::Iso, ..c })
        } else {
            Err(invalid_value_text("--time-format"@, v))
        },
        ValueOption::Type => if v == "file"@ {
            Ok(ConfigView { type_filter: Some(TypeFilter::File), ..c })
        } else if v == "dir"@ || v == "directory"@ {
            Ok(ConfigView { type_filter: Some(TypeFilter::Directory), ..c })
        } else if v == "link"@ {
            Ok(ConfigView { type_filter: Some(TypeFilter::Link), ..c })
        } else {
            Err(invalid_value_text("--type"@, v))
        },
        ValueOption::Output => if v == "table"@ {
            Ok(ConfigView { output: OutputMode::Table, ..c })
        } else if v == "plain"@ {
            Ok(ConfigView { output: OutputMode::Plain, ..c })
        } else if v == "csv"@ {
            Ok(ConfigView { output: OutputMode::Csv, ..c })
        } else if v == "json"@ {
            Ok(ConfigView { output: OutputMode::Json, ..c })
        } else if v == "yaml"@ {
            Ok(ConfigView { output: OutputMode::Yaml, ..c })
        } else {
            Err(invalid_value_text("--output"@, v))
        },
    }
}

/// A value-taking option: the inline `=value`, or else the next token
/// (consuming it); an error when neither exists.
pub open spec fn value_option_step(
    toks: Seq<Seq<char>>,
    i: int,
    inline: Option<Seq<char>>,
    opt: ValueOption,
    c: ConfigView,
) -> Result<(nat, ConfigView), CliErrorView> {
    let value: Option<(Seq<char>, nat)> = match inline {
        Some(v) => Some((v, 1nat)),
        None => if i + 1 < toks.len() {
            Some((toks[i + 1], 2nat))
        } else {
            None
        },
    };
    match value {
        None => Err(CliErrorView::Message("missing option value"@)),
        Some((v, used)) => match apply_value(opt, v, c) {
            Ok(c2) => Ok((used, c2)),
            Err(e) => Err(e),
        },
    }
}

/// What a long option name stands for.
#[derive(Clone, Copy, PartialEq, Eq, Structural)]
pub enum LongOption {
    Help,
    Version,
    All,
    WholeAll,
    Long,
    Reverse,
    Recursive,
    Bytes,
    Icon,
    Summary,
    Sensitive,
    Value(ValueOption),
    Unknown,
}

pub open spec fn long_option(name: Seq<char>) -> LongOption {
    if name == "help"@ {
        LongOption::Help
    } else if name == "version"@ {
        LongOption::Version
    } else if name == "all"@ {
        LongOption::All
    } else if name == "whole-all"@ {
        LongOption::WholeAll
    } else if name == "long"@ {
        LongOption::Long
    } else if name == "reverse"@ {
        LongOption::Reverse
    } else if name == "recursive"@ {
        LongOption::Recursive
    } else if name == "bytes"@ {
        LongOption::Bytes
    } else if name == "icon"@ {
        LongOption::Icon
    } else if name == "summary"@ {
        LongOption::Summary
    } else if name == "sensitive"@ {
        LongOption::Sensitive
    } else if name == "sort"@ {
        LongOption::Value(ValueOption::Sort)
    } else if name == "max-depth"@ {
        LongOption::Value(ValueOption::MaxDepth)
    } else if name == "time-format"@ {
        LongOption::Value(ValueOption::TimeFormat)
    } else if name == "type"@ {
        LongOption::Value(ValueOption::Type)
    } else if name == "output"@ || name == "format"@ {
        LongOption::Value(ValueOption::Output)
    } else {
        LongOption::Unknown
    }
}

/// The option named by the text after `--` (and before any `=`).
pub open spec fn long_step(body: Seq<char>, toks: Seq<Seq<char>>, i: int, c: ConfigView) -> Result<
    (nat, ConfigView),
    CliErrorView,
> {
    let (name, inline) = match split_first(body, '=') {
        Some((n, v)) => (n, Some(v)),
        None => (body, None),
    };
    match long_option(name) {
        LongOption::Help => Err(CliErrorView::Help(HELP_TEXT@)),
        LongOption::Version => Err(CliErrorView::Version(VERSION_TEXT@)),
        LongOption::Value(opt) => value_option_step(toks, i, inline, opt, c),
        LongOption::Unknown => Err(CliErrorView::Message("unknown option: --"@ + name)),
        k => Ok((1, long_flag(k, c))),
    }
}

/// A flag option's effect on the settings: `--all` shows hidden files but
/// keeps the ignore files, `--whole-all` shows both.
pub open spec fn long_flag(k: LongOption, c: ConfigView) -> ConfigView {
    match k {
        LongOption::All => ConfigView { include_hidden: true, include_ignored: false, ..c },
        LongOption::WholeAll => ConfigView { include_hidden: true, include_ignored: true, ..c },
        LongOption::Long => ConfigView { long: true, ..c },
        LongOption::Reverse => ConfigView { reverse: true, ..c },
        LongOption::Recursive => ConfigView { recursive: true, ..c },
        LongOption::Bytes => ConfigView { bytes: true, ..c },
        LongOption::Icon => ConfigView { icon: true, ..c },
        LongOption::Summary => ConfigView { summary: true, ..c },
        LongOption::Sensitive => ConfigView { sensitive: true, ..c },
        _ => c,
    }
}

/// One short flag.
pub open spec fn short_flag(flag: char, c: ConfigView) -> Result<ConfigView, CliErrorView> {
    if flag == 'a' {
        Ok(ConfigView { include_hidden: true, ..c })
    } else if flag == 'A' {
        Ok(ConfigView { include_hidden: true, include_ignored: true, ..c })
    } else if flag == 'l' {
        Ok(ConfigView { long: true, ..c })
    } else if flag == 'r' {
        Ok(ConfigView { reverse: true, ..c })
    } else if flag == 'R' {
        Ok(ConfigView { recursive: true, ..c })
    } else if flag == 'S' {
        Ok(ConfigView { sort_key: SortKey::Size, ..c })
    } else if flag == 't' {
        Ok(ConfigView { sort_key: SortKey::Time, ..c })
    } else {
        Err(CliErrorView::Message("unknown option: -"@.push(flag)))
    }
}

/// Short flags applied left to right, stopping at the first unknown one.
pub open spec fn short_flags(flags: Seq<char>, c: ConfigView) -> Result<ConfigView, CliErrorView>
    decreases flags.len(),
{
    if flags.len() == 0 {
        Ok(c)
    } else {
        match short_flag(flags[0], c) {
            Ok(c2) => short_flags(flags.drop_first(), c2),
            Err(e) => Err(e),
        }
    }
}

/// `t` without its leading dashes.
pub open spec fn strip_dashes(t: Seq<char>) -> Seq<char>
    decreases t.len(),
{
    if t.len() > 0 && t[0] == '-' {
        strip_dashes(t.drop_first())
    } else {
        t
    }
}

/// One token (and possibly the next): how many were consumed and the
/// updated settings.
pub open spec fn consume_step(toks: Seq<Seq<char>>, i: int, c: ConfigView) -> Result<
    (nat, ConfigView),
    CliErrorView,
> {
    let t = toks[i];
    if is_path_text(t) {
        Ok((1, with_path(c, t)))
    } else if seq!['-', '-'].is_prefix_of(t) {
        long_step(t.subrange(2, t.len() as int), toks, i, c)
    } else {
        match short_flags(strip_dashes(t), c) {
            Ok(c2) => Ok((1, c2)),
            Err(e) => Err(e),
        }
    }
}

/// The final touch: `.` when no path was given.
pub open spec fn finished(c: ConfigView) -> ConfigView {
    if c.paths.len() == 0 {
        with_path(c, seq!['.'])
    } else {
        c
    }
}

/// Parsing from token `i` on, with the settings gathered so far.
pub open spec fn parse_from(toks: Seq<Seq<char>>, i: int, c: ConfigView) -> Result<
    ConfigView,
    CliErrorView,
>
    decreases toks.len() - i,
{
    if i < 0 || i >= toks.len() {
        Ok(finished(c))
    } else if toks[i] == seq!['-', '-'] {
        Ok(finished(ConfigView { paths: c.paths + toks.subrange(i + 1, toks.len() as int), ..c }))
    } else {
        match consume_step(toks, i, c) {
            Ok((n, c2)) => if n >= 1 {
                parse_from(toks, i + n, c2)
            } else {
                Ok(finished(c2))
            },
            Err(e) => Err(e),
        }
    }
}

/// The settings the tokens after the program name describe.
pub open spec fn parse_spec(toks: Seq<Seq<char>>) -> Result<ConfigView, CliErrorView> {
    parse_from(toks, 0, default_view())
}

pub open spec fn config_result_view(r: Result<Config, CliError>) -> Result<
    ConfigView,
    CliErrorView,
> {
    match r {
        Ok(c) => Ok(c@),
        Err(e) => Err(e@),
    }
}

// ---------------------------------------------------------------------------
// The parser
// ---------------------------------------------------------------------------

/// The command line without the program name.
pub open spec fn program_args(a: Seq<Seq<char>>) -> Seq<Seq<char>> {
    if a.len() == 0 {
        a
    } else {
        a.drop_first()
    }
}

/// Turns the command line (program name first) into a configuration.
pub fn parse_args(args: &Vec<String>) -> (r: Result<Config, CliError>)
    ensures
        config_result_view(r) == parse_spec(program_args(views(args@))),
{
    let mut tokens: Vec<String> = Vec::new();
    if args.len() == 0 {
        assert(views(tokens@) =~= program_args(views(args@)));
        return parse_tokens(&tokens);
    }
    let mut i: usize = 1;
    while i < args.len()
        invariant
            1 <= i <= args.len(),
            views(tokens@) == views(args@).subrange(1, i as int),
        decreases args.len() - i,
    {
        let ghost before = views(tokens@);
        tokens.push(args[i].clone());
        assert(views(tokens@) =~= before.push(views(args@)[i as int]));
        assert(views(tokens@) =~= views(args@).subrange(1, i + 1));
        i = i + 1;
    }
    assert(views(tokens@) =~= program_args(views(args@)));
    parse_tokens(&tokens)
}

/// Reads the tokens left to right; everything after `--` is a path.
#[verifier::spinoff_prover]
fn parse_tokens(args: &Vec<String>) -> (r: Result<Config, CliError>)
    ensures
        config_result_view(r) == parse_spec(views(args@)),
{
    let ghost toks = views(args@);
    let mut config = Config::default();
    let mut index: usize = 0;
    while index < args.len()
        invariant
            toks == views(args@),
            index <= args.len(),
            parse_spec(toks) == parse_from(toks, index as int, config@),
        decreases args.len() - index,
    {
        if is_double_dash(&args[index]) {
            add_remaining_paths(args, index + 1, &mut config);
            proof {
                assert(toks[index as int] == seq!['-', '-']);
            }
            return finish_config(config);
        }
        match consume_arg(args, index, &mut config) {
            Ok(n) => {
                index = index + n;
            },
            Err(e) => {
                return Err(e);
            },
        }
    }
    finish_config(config)
}

fn is_double_dash(t: &String) -> (b: bool)
    ensures
        b == (t@ == seq!['-', '-']),
{
    let v = chars_of(t.as_str());
    let r = v.len() == 2 && v[0] == '-' && v[1] == '-';
    assert(r ==> v@ =~= seq!['-', '-']);
    r
}

/// Handles the token at `index`; returns how many tokens it used.
#[verifier::spinoff_prover]
fn consume_arg(args: &Vec<String>, index: usize, config: &mut Config) -> (r: Result<
    usize,
    CliError,
>)
    requires
        index < args.len(),
        views(args@)[index as int] != seq!['-', '-'],
    ensures
        match consume_step(views(args@), index as int, old(config)@) {
            Ok((n, c)) => r == Ok::<usize, CliError>(n as usize) && final(config)@ == c && 1 <= n
                <= 2 && index + n <= args.len(),
            Err(e) => r is Err && r->Err_0@ == e,
        },
{
    let text = chars_of(args[index].as_str());
    if is_path_token(&text) {
        config.paths.push(args[index].clone());
        proof {
            assert(views(config.paths@) =~= views(old(config).paths@).push(text@));
        }
        return Ok(1);
    }
    if text.len() >= 2 && text[0] == '-' && text[1] == '-' {
        let long = crate::text::slice_chars(&text, 2, text.len());
        proof {
            assert(seq!['-', '-'].is_prefix_of(text@)) by {
                assert(text@.subrange(0, 2) =~= seq!['-', '-']);
            }
        }
        return consume_long(&long, args, index, config);
    }
    proof {
        if seq!['-', '-'].is_prefix_of(text@) {
            assert(text@[0] == seq!['-', '-'][0]);
            assert(text@[1] == seq!['-', '-'][1]);
        }
    }
    consume_short(&text, config)
}

fn is_path_token(text: &Vec<char>) -> (b: bool)
    ensures
        b == is_path_text(text@),
{
    let r = !(text.len() > 0 && text[0] == '-') || (text.len() == 1 && text[0] == '-');
    assert(text.len() == 1 && text[0] == '-' ==> text@ =~= seq!['-']);
    r
}

fn literal_is(v: &Vec<char>, lit: &str) -> (b: bool)
    ensures
        b == (v@ == lit@),
{
    same_chars(v, &chars_of(lit))
}

/// Tells which option a long name stands for.
fn classify_long(name: &Vec<char>) -> (k: LongOption)
    ensures
        k == long_option(name@),
{
    if literal_is(name, "help") {
        LongOption::Help
    } else if literal_is(name, "version") {
        LongOption::Version
    } else if literal_is(name, "all") {
        LongOption::All
    } else if literal_is(name, "whole-all") {
        LongOption::WholeAll
    } else if literal_is(name, "long") {
        LongOption::Long
    } else if literal_is(name, "reverse") {
        LongOption::Reverse
    } else if literal_is(name, "recursive") {
        LongOption::Recursive
    } else if literal_is(name, "bytes") {
        LongOption::Bytes
    } else if literal_is(name, "icon") {
        LongOption::Icon
    } else if literal_is(name, "summary") {
        LongOption::Summary
    } else if literal_is(name, "sensitive") {
        LongOption::Sensitive
    } else if literal_is(name, "sort") {
        LongOption::Value(ValueOption::Sort)
    } else if literal_is(name, "max-depth") {
        LongOption::Value(ValueOption::MaxDepth)
    } else if literal_is(name, "time-format") {
        LongOption::Value(ValueOption::TimeFormat)
    } else if literal_is(name, "type") {
        LongOption::Value(ValueOption::Type)
    } else if literal_is(name, "output") || literal_is(name, "format") {
        LongOption::Value(ValueOption::Output)
    } else {
        LongOption::Unknown
    }
}

/// Handles `--name` and `--name=value`.
#[verifier::spinoff_prover]
fn consume_long(token: &Vec<char>, args: &Vec<String>, index: usize, config: &mut Config) -> (r:
    Result<usize, CliError>)
    requires
        index < args.len(),
    ensures
        match long_step(token@, views(args@), index as int, old(config)@) {
            Ok((n, c)) => r == Ok::<usize, CliError>(n as usize) && final(config)@ == c && 1 <= n
                <= 2 && index + n <= args.len(),
            Err(e) => r is Err && r->Err_0@ == e,
        },
{
    let (name, inline) = split_long(token);
    let kind = classify_long(&name);
    match kind {
        LongOption::Help => Err(CliError::Help(help_text())),
        LongOption::Version => Err(CliError::Version(String::from_str(VERSION_TEXT))),
        LongOption::Value(opt) => value_option(args, index, inline, opt, config),
        LongOption::Unknown => {
            let mut message = String::new();
            push_str(&mut message, "unknown option: --");
            crate::text::push_chars(&mut message, &name);
            Err(CliError::Message(message))
        },
        _ => set_long_flag(config, kind),
    }
}

/// Applies a flag option; it uses one token.
#[verifier::spinoff_prover]
fn set_long_flag(config: &mut Config, kind: LongOption) -> (r: Result<usize, CliError>)
    ensures
        r == Ok::<usize, CliError>(1),
        final(config)@ == long_flag(kind, old(config)@),
{
    match kind {
        LongOption::All => set_all(config, false),
        LongOption::WholeAll => set_all(config, true),
        LongOption::Long => set_flag(&mut config.long),
        LongOption::Reverse => set_flag(&mut config.reverse),
        LongOption::Recursive => set_flag(&mut config.recursive),
        LongOption::Bytes => set_flag(&mut config.bytes),
        LongOption::Icon => set_flag(&mut config.icon),
        LongOption::Summary => set_flag(&mut config.summary),
        LongOption::Sensitive => set_flag(&mut config.sensitive),
        _ => Ok(1),
    }
}

/// Applies concatenated short flags such as `-alr`.
#[verifier::spinoff_prover]
fn consume_short(token: &Vec<char>, config: &mut Config) -> (r: Result<usize, CliError>)
    ensures
        match short_flags(strip_dashes(token@), old(config)@) {
            Ok(c) => r == Ok::<usize, CliError>(1) && final(config)@ == c,
            Err(e) => r is Err && r->Err_0@ == e,
        },
{
    let mut start: usize = 0;
    assert(token@.subrange(0, token.len() as int) =~= token@);
    while start < token.len() && token[start] == '-'
        invariant
            start <= token.len(),
            strip_dashes(token@) == strip_dashes(token@.subrange(start as int, token.len() as int)),
        decreases token.len() - start,
    {
        proof {
            assert(token@.subrange(start as int, token.len() as int).drop_first() =~= token@.subrange(
                start + 1,
                token.len() as int,
            ));
        }
        start = start + 1;
    }
    let ghost flags = token@.subrange(start as int, token.len() as int);
    assert(strip_dashes(flags) == flags);
    let mut i = start;
    while i < token.len()
        invariant
            start <= i <= token.len(),
            flags == token@.subrange(start as int, token.len() as int),
            strip_dashes(token@) == flags,
            short_flags(flags, old(config)@) == short_flags(
                token@.subrange(i as int, token.len() as int),
                config@,
            ),
        decreases token.len() - i,
    {
        let ghost rest = token@.subrange(i as int, token.len() as int);
        assert(rest[0] == token@[i as int]);
        assert(rest.drop_first() =~= token@.subrange(i + 1, token.len() as int));
        let ghost pre = config@;
        match apply_short(token[i], config) {
            Ok(()) => {},
            Err(e) => {
                assert(short_flags(rest, pre) == Err::<ConfigView, CliErrorView>(e@));
                return Err(e);
            },
        }
        i = i + 1;
    }
    assert(token@.subrange(i as int, token.len() as int) =~= Seq::<char>::empty());
    Ok(1)
}

/// Applies one short flag.
#[verifier::spinoff_prover]
fn apply_short(flag: char, config: &mut Config) -> (r: Result<(), CliError>)
    ensures
        match short_flag(flag, old(config)@) {
            Ok(c) => r is Ok && final(config)@ == c,
            Err(e) => r is Err && r->Err_0@ == e,
        },
{
    match flag {
        'a' => {
            config.include_hidden = true;
            Ok(())
        },
        'A' => {
            config.include_hidden = true;
            config.include_ignored = true;
            Ok(())
        },
        'l' => set_bool(&mut config.long),
        'r' => set_bool(&mut config.reverse),
        'R' => set_bool(&mut config.recursive),
        'S' => set_sort(config, SortKey::Size),
        't' => set_sort(config, SortKey::Time),
        _ => {
            let mut message = String::new();
            push_str(&mut message, "unknown option: -");
            crate::text::push_char(&mut message, flag);
            Err(CliError::Message(message))
        },
    }
}

/// Splits `name=value` at the first `=`.
fn split_long(token: &Vec<char>) -> (r: (Vec<char>, Option<Vec<char>>))
    ensures
        match split_first(token@, '=') {
            Some((n, v)) => r.0@ == n && r.1 is Some && r.1->Some_0@ == v,
            None => r.0@ == token@ && r.1 is None,
        },
{
    match split_once(token, '=') {
        Some((name, value)) => (name, Some(value)),
        None => (token.clone(), None),
    }
}

/// Takes the option's value and applies it.
fn value_option(
    args: &Vec<String>,
    index: usize,
    inline: Option<Vec<char>>,
    opt: ValueOption,
    config: &mut Config,
) -> (r: Result<usize, CliError>)
    requires
        index < args.len(),
    ensures
        match value_option_step(
            views(args@),
            index as int,
            match inline {
                Some(v) => Some(v@),
                None => None,
            },
            opt,
            old(config)@,
        ) {
            Ok((n, c)) => r == Ok::<usize, CliError>(n as usize) && final(config)@ == c && 1 <= n
                <= 2 && index + n <= args.len(),
            Err(e) => r is Err && r->Err_0@ == e,
        },
{
    let (value, used) = option_value(args, index, inline)?;
    match opt {
        ValueOption::Sort => parse_sort(&value, config)?,
        ValueOption::MaxDepth => parse_depth(&value, config)?,
        ValueOption::TimeFormat => parse_time(&value, config)?,
        ValueOption::Type => parse_type(&value, config)?,
        ValueOption::Output => parse_output(&value, config)?,
    }
    Ok(used)
}

/// The inline value, or else the next token.
fn option_value(args: &Vec<String>, index: usize, inline: Option<Vec<char>>) -> (r: Result<
    (Vec<char>, usize),
    CliError,
>)
    requires
        index < args.len(),
    ensures
        match inline {
            Some(v) => r is Ok && r->Ok_0.0@ == v@ && r->Ok_0.1 == 1,
            None => if index + 1 < args.len() {
                r is Ok && r->Ok_0.0@ == views(args@)[index + 1] && r->Ok_0.1 == 2
            } else {
                r is Err && r->Err_0@ == CliErrorView::Message("missing option value"@)
            },
        },
{
    if let Some(value) = inline {
        return Ok((value, 1));
    }
    if index + 1 >= args.len() {
        return Err(CliError::Message(String::from_str("missing option value")));
    }
    Ok((chars_of(args[index + 1].as_str()), 2))
}

fn invalid_value(name: &str, value: &Vec<char>) -> (e: CliError)
    ensures
        e@ == invalid_value_text(name@, value@),
{
    let mut message = String::new();
    push_str(&mut message, "invalid ");
    push_str(&mut message, name);
    push_str(&mut message, " value: ");
    crate::text::push_chars(&mut message, value);
    let e = CliError::Message(message);
    assert(message@ =~= "invalid "@ + name@ + " value: "@ + value@);
    e
}

#[verifier::spinoff_prover]
fn parse_sort(value: &Vec<char>, config: &mut Config) -> (r: Result<(), CliError>)
    ensures
        match apply_value(ValueOption::Sort, value@, old(config)@) {
            Ok(c) => r is Ok && final(config)@ == c,
            Err(e) => r is Err && r->Err_0@ == e,
        },
{
    config.sort_key = if literal_is(value, "name") {
        SortKey::Name
    } else if literal_is(value, "size") {
        SortKey::Size
    } else if literal_is(value, "time") {
        SortKey::Time
    } else if literal_is(value, "extension") || literal_is(value, "ext") {
        SortKey::Extension
    } else {
        return Err(invalid_value("--sort", value));
    };
    Ok(())
}

/// The value of a run of ASCII digits, or `None` when a character is not a
/// digit or the value leaves `usize`.
fn digits_to_usize(d: &Vec<char>, from: usize) -> (r: Option<usize>)
    requires
        from <= d.len(),
    ensures
        match r {
            Some(n) => all_digits(d@.subrange(from as int, d.len() as int)) && n == digits_value(
                d@.subrange(from as int, d.len() as int),
            ),
            None => !all_digits(d@.subrange(from as int, d.len() as int)) || digits_value(
                d@.subrange(from as int, d.len() as int),
            ) > usize::MAX,
        },
{
    let ghost s = d@.subrange(from as int, d.len() as int);
    let mut value: usize = 0;
    let mut i = from;
    assert(s.take(0) =~= Seq::<char>::empty());
    while i < d.len()
        invariant
            from <= i <= d.len(),
            s == d@.subrange(from as int, d.len() as int),
            forall|k: int| 0 <= k < i - from ==> is_digit(#[trigger] s[k]),
            value == digits_value(s.take(i - from)),
        decreases d.len() - i,
    {
        let c = d[i];
        assert(s[i - from] == c);
        if !('0' <= c && c <= '9') {
            return None;
        }
        let digit = (c as u32 - 48) as usize;
        assert(s.take(i - from + 1).drop_last() =~= s.take(i - from));
        if value > (usize::MAX - digit) / 10 {
            proof {
                lemma_digits_value_grows(s, i - from + 1);
            }
            return None;
        }
        value = value * 10 + digit;
        i = i + 1;
    }
    assert(s.take(i - from) =~= s);
    Some(value)
}

/// Appending digits never lowers the value.
proof fn lemma_digits_value_grows(s: Seq<char>, k: int)
    requires
        0 <= k <= s.len(),
    ensures
        digits_value(s.take(k)) <= digits_value(s),
    decreases s.len() - k,
{
    if k < s.len() {
        lemma_digits_value_grows(s, k + 1);
        assert(s.take(k + 1).drop_last() =~= s.take(k));
    } else {
        assert(s.take(k) =~= s);
    }
}

/// `usize` parsing of an option value.
pub(crate) fn parse_usize(value: &Vec<char>) -> (r: Option<usize>)
    ensures
        r == parse_usize_text(value@),
{
    if value.len() > 0 && value[0] == '+' {
        if value.len() == 1 {
            return None;
        }
        assert(value@.subrange(1, value.len() as int) =~= value@.drop_first());
        digits_to_usize(value, 1)
    } else {
        if value.len() == 0 {
            return None;
        }
        assert(value@.subrange(0, value.len() as int) =~= value@);
        digits_to_usize(value, 0)
    }
}

#[verifier::spinoff_prover]
fn parse_depth(value: &Vec<char>, config: &mut Config) -> (r: Result<(), CliError>)
    ensures
        match apply_value(ValueOption::MaxDepth, value@, old(config)@) {
            Ok(c) => r is Ok && final(config)@ == c,
            Err(e) => r is Err && r->Err_0@ == e,
        },
{
    match parse_usize(value) {
        Some(depth) => {
            config.max_depth = Some(depth);
            Ok(())
        },
        None => Err(invalid_value("--max-depth", value)),
    }
}

#[verifier::spinoff_prover]
fn parse_time(value: &Vec<char>, config: &mut Config) -> (r: Result<(), CliError>)
    ensures
        match apply_value(ValueOption::TimeFormat, value@, old(config)@) {
            Ok(c) => r is Ok && final(config)@ == c,
            Err(e) => r is Err && r->Err_0@ == e,
        },
{
    config.time_format = if literal_is(value, "local") {
        TimeFormat::Local
    } else if literal_is(value, "iso") {
        TimeFormat::Iso
    } else {
        return Err(invalid_value("--time-format", value));
    };
    Ok(())
}

#[verifier::spinoff_prover]
fn parse_type(value: &Vec<char>, config: &mut Config) -> (r: Result<(), CliError>)
    ensures
        match apply_value(ValueOption::Type, value@, old(config)@) {
            Ok(c) => r is Ok && final(config)@ == c,
            Err(e) => r is Err && r->Err_0@ == e,
        },
{
    config.type_filter = Some(
        if literal_is(value, "file") {
            TypeFilter::File
        } else if literal_is(value, "dir") || literal_is(value, "directory") {
            TypeFilter::Directory
        } else if literal_is(value, "link") {
            TypeFilter::Link
        } else {
            return Err(invalid_value("--type", value));
        },
    );
    Ok(())
}

#[verifier::spinoff_prover]
fn parse_output(value: &Vec<char>, config: &mut Config) -> (r: Result<(), CliError>)
    ensures
        match apply_value(ValueOption::Output, value@, old(config)@) {
            Ok(c) => r is Ok && final(config)@ == c,
            Err(e) => r is Err && r->Err_0@ == e,
        },
{
    config.output = if literal_is(value, "table") {
        OutputMode::Table
    } else if literal_is(value, "plain") {
        OutputMode::Plain
    } else if literal_is(value, "csv") {
        OutputMode::Csv
    } else if literal_is(value, "json") {
        OutputMode::Json
    } else if literal_is(value, "yaml") {
        OutputMode::Yaml
    } else {
        return Err(invalid_value("--output", value));
    };
    Ok(())
}

#[verifier::spinoff_prover]
fn set_all(config: &mut Config, include_ignored: bool) -> (r: Result<usize, CliError>)
    ensures
        r == Ok::<usize, CliError>(1),
        final(config)@ == (ConfigView {
            include_hidden: true,
            include_ignored: include_ignored,
            ..old(config)@
        }),
{
    config.include_hidden = true;
    config.include_ignored = include_ignored;
    Ok(1)
}

fn set_flag(flag: &mut bool) -> (r: Result<usize, CliError>)
    ensures
        r == Ok::<usize, CliError>(1),
        *final(flag),
{
    *flag = true;
    Ok(1)
}

fn set_bool(flag: &mut bool) -> (r: Result<(), CliError>)
    ensures
        r == Ok::<(), CliError>(()),
        *final(flag),
{
    *flag = true;
    Ok(())
}

#[verifier::spinoff_prover]
fn set_sort(config: &mut Config, key: SortKey) -> (r: Result<(), CliError>)
    ensures
        r == Ok::<(), CliError>(()),
        final(config)@ == (ConfigView { sort_key: key, ..old(config)@ }),
{
    config.sort_key = key;
    Ok(())
}

/// Adds every token from `start` on as a path, dashes or not.
#[verifier::spinoff_prover]
fn add_remaining_paths(args: &Vec<String>, start: usize, config: &mut Config)
    requires
        start <= args.len(),
    ensures
        final(config)@ == (ConfigView {
            paths: old(config)@.paths + views(args@).subrange(start as int, args.len() as int),
            ..old(config)@
        }),
{
    let ghost before = config@;
    for i in start..args.len()
        invariant
            start <= args.len(),
            config@ == (ConfigView {
                paths: before.paths + views(args@).subrange(start as int, i as int),
                ..before
            }),
    {
        let ghost old_paths = views(config.paths@);
        config.paths.push(args[i].clone());
        proof {
            assert(views(config.paths@) =~= old_paths.push(views(args@)[i as int]));
            assert(config@.paths =~= before.paths + views(args@).subrange(start as int, i + 1));
        }
    }
}

/// `.` when no path was given.
fn finish_config(mut config: Config) -> (r: Result<Config, CliError>)
    ensures
        r is Ok && r->Ok_0@ == finished(config@),
{
    if config.paths.len() == 0 {
        let dot = String::from_str(".");
        proof {
            reveal_strlit(".");
        }
        assert(dot@ =~= seq!['.']);
        let ghost old_paths = views(config.paths@);
        config.paths.push(dot);
        assert(views(config.paths@) =~= old_paths.push(seq!['.']));
    }
    Ok(config)
}

/// The text shown for `--help`.
fn help_text() -> (s: String)
    ensures
        s@ == HELP_TEXT@,
{
    String::from_str(HELP_TEXT)
}

impl CliError {
    /// `--help` and `--version` become output with status 0; a message
    /// becomes an error line with status 2.
    pub fn into_result(self) -> (r: crate::AppResult)
        ensures
            match self@ {
                CliErrorView::Help(text) => r.stdout@ == text && r.stderr@ == Seq::<char>::empty()
                    && r.code == 0,
                CliErrorView::Version(text) => r.stdout@ == text && r.stderr@
                    == Seq::<char>::empty() && r.code == 0,
                CliErrorView::Message(text) => r.stdout@ == Seq::<char>::empty() && r.stderr@
                    == text.push('\n') && r.code == 2,
            },
    {
        match self {
            CliError::Help(stdout) => crate::AppResult { stdout, stderr: String::new(), code: 0 },
            CliError::Version(stdout) => crate::AppResult { stdout, stderr: String::new(), code: 0 },
            CliError::Message(text) => {
                let mut stderr = text;
                crate::text::push_char(&mut stderr, '\n');
                crate::AppResult { stdout: String::new(), stderr, code: 2 }
            },
        }
    }
}


// ---------------------------------------------------------------------------
// Laws
// ---------------------------------------------------------------------------

proof fn lemma_parse_from_has_a_path(toks: Seq<Seq<char>>, i: int, c: ConfigView)
    ensures
        parse_from(toks, i, c) is Ok ==> parse_from(toks, i, c)->Ok_0.paths.len() >= 1,
    decreases toks.len() - i,
{
    if 0 <= i < toks.len() && toks[i] != seq!['-', '-'] {
        match consume_step(toks, i, c) {
            Ok((n, c2)) => {
                if n >= 1 {
                    lemma_parse_from_has_a_path(toks, i + n, c2);
                }
            },
            Err(_) => {},
        }
    }
}

/// A successful parse always names at least one path (`.` when none was
/// given).
pub proof fn parsed_configs_have_a_path(toks: Seq<Seq<char>>)
    ensures
        parse_spec(toks) is Ok ==> parse_spec(toks)->Ok_0.paths.len() >= 1,
{
    lemma_parse_from_has_a_path(toks, 0, default_view());
}

proof fn lemma_plain_tokens(toks: Seq<Seq<char>>, i: int, c: ConfigView)
    requires
        0 <= i <= toks.len(),
        forall|k: int| 0 <= k < toks.len() ==> is_path_text(#[trigger] toks[k]),
    ensures
        parse_from(toks, i, c) == Ok::<ConfigView, CliErrorView>(
            finished(ConfigView { paths: c.paths + toks.subrange(i, toks.len() as int), ..c }),
        ),
    decreases toks.len() - i,
{
    if i < toks.len() {
        let t = toks[i];
        assert(is_path_text(t));
        assert(t != seq!['-', '-']) by {
            if t == seq!['-', '-'] {
                assert(t[0] == '-' && t.len() == 2);
                assert(t != seq!['-']);
            }
        }
        let c2 = with_path(c, t);
        assert(consume_step(toks, i, c) == Ok::<(nat, ConfigView), CliErrorView>((1, c2)));
        lemma_plain_tokens(toks, i + 1, c2);
        assert(c2.paths + toks.subrange(i + 1, toks.len() as int) =~= c.paths + toks.subrange(
            i,
            toks.len() as int,
        ));
    } else {
        assert(c.paths + toks.subrange(i, toks.len() as int) =~= c.paths);
        assert((ConfigView { paths: c.paths + toks.subrange(i, toks.len() as int), ..c }) == c);
    }
}

/// Arguments that are not options (a lone `-` included) are the paths, in
/// order, and leave every other setting at its default; with no argument
/// the path is `.`.
pub proof fn plain_arguments_are_paths(toks: Seq<Seq<char>>)
    requires
        forall|k: int| 0 <= k < toks.len() ==> is_path_text(#[trigger] toks[k]),
    ensures
        parse_spec(toks) == Ok::<ConfigView, CliErrorView>(
            finished(ConfigView { paths: toks, ..default_view() }),
        ),
{
    lemma_plain_tokens(toks, 0, default_view());
    assert(default_view().paths + toks.subrange(0, toks.len() as int) =~= toks);
}

/// `--format` is another name for `--output`.
pub proof fn format_is_another_name_for_output()
    ensures
        long_option("format"@) == long_option("output"@),
        long_option("output"@) == LongOption::Value(ValueOption::Output),
{
    let names = seq![
        "help"@, "version"@, "all"@, "whole-all"@, "long"@, "reverse"@, "recursive"@, "bytes"@, "icon"@,
        "summary"@, "sensitive"@, "sort"@, "max-depth"@, "time-format"@, "type"@,
    ];
    reveal_strlit("format");
    reveal_strlit("output");
    reveal_strlit("help");
    reveal_strlit("version");
    reveal_strlit("all");
    reveal_strlit("whole-all");
    reveal_strlit("long");
    reveal_strlit("reverse");
    reveal_strlit("recursive");
    reveal_strlit("bytes");
    reveal_strlit("icon");
    reveal_strlit("summary");
    reveal_strlit("sensitive");
    reveal_strlit("sort");
    reveal_strlit("max-depth");
    reveal_strlit("time-format");
    reveal_strlit("type");
    assert forall|k: int| 0 <= k < names.len() implies #[trigger] names[k] != "format"@
        && names[k] != "output"@ by {
        assert(names[k].len() != 6 || names[k][0] != "format"@[0] && names[k][0] != "output"@[0]);
    }
    assert("output"@ != "format"@) by {
        assert("output"@[0] != "format"@[0]);
    }
}

} // verus!
