//! Options of the stand-alone lister and their parsing.
use vstd::prelude::*;
use crate::text::{chars_of, push_chars, push_str, same_chars, split_first, split_once, views};

verus! {

#[derive(Debug, Clone, Copy, PartialEq, Eq, Structural)]
pub enum SortKey {
    Name,
    Size,
    Time,
    Extension,
}

#[derive(Debug, Clone, Copy, PartialEq, Eq, Structural)]
pub enum TimeFormat {
    Local,
    Iso,
}

#[derive(Debug, Clone, Copy, PartialEq, Eq, Structural)]
pub enum TypeFilter {
    File,
    Dir,
    Link,
}

#[derive(Debug, Clone, Copy, PartialEq, Eq, Structural)]
pub enum OutputMode {
    Table,
    Plain,
    Csv,
    Json,
    Yaml,
}

/// Why parsing stopped: help or the version was asked for, or the command
/// line is wrong.
#[derive(Debug, Clone, PartialEq, Eq)]
pub enum CliError {
    Help,
    Usage(String),
    Version,
}

pub enum CliErrorView {
    Help,
    Usage(Seq<char>),
    Version,
}

impl View for CliError {
    type V = CliErrorView;

    open spec fn view(&self) -> CliErrorView {
        match self {
            CliError::Help => CliErrorView::Help,
            CliError::Usage(m) => CliErrorView::Usage(m@),
            CliError::Version => CliErrorView::Version,
        }
    }
}

#[derive(Debug, Clone)]
pub struct Config {
    pub paths: Vec<String>,
    pub show_all: bool,
    pub whole_all: bool,
    pub long: bool,
    pub sort: SortKey,
    pub reverse: bool,
    pub recursive: bool,
    pub max_depth: Option<usize>,
    pub time_format: TimeFormat,
    pub bytes: bool,
    pub type_filter: Option<TypeFilter>,
    pub output: OutputMode,
    pub icon: bool,
    pub summary: bool,
    pub sensitive: bool,
    pub debug: bool,
    pub color: bool,
}

/// The options as plain values.
pub struct ConfigView {
    pub paths: Seq<Seq<char>>,
    pub show_all: bool,
    pub whole_all: bool,
    pub long: bool,
    pub sort: SortKey,
    pub reverse: bool,
    pub recursive: bool,
    pub max_depth: Option<usize>,
    pub time_format: TimeFormat,
    pub bytes: bool,
    pub type_filter: Option<TypeFilter>,
    pub output: OutputMode,
    pub icon: bool,
    pub summary: bool,
    pub sensitive: bool,
    pub debug: bool,
    pub color: bool,
}

impl View for Config {
    type V = ConfigView;

    open spec fn view(&self) -> ConfigView {
        ConfigView {
            paths: views(self.paths@),
            show_all: self.show_all,
            whole_all: self.whole_all,
            long: self.long,
            sort: self.sort,
            reverse: self.reverse,
            recursive: self.recursive,
            max_depth: self.max_depth,
            time_format: self.time_format,
            bytes: self.bytes,
            type_filter: self.type_filter,
            output: self.output,
            icon: self.icon,
            summary: self.summary,
            sensitive: self.sensitive,
            debug: self.debug,
            color: self.color,
        }
    }
}

/// The default output: a table on a terminal, plain lines otherwise.
pub open spec fn default_output_mode(stdout_is_terminal: bool) -> OutputMode {
    if stdout_is_terminal {
        OutputMode::Table
    } else {
        OutputMode::Plain
    }
}

/// The settings before any option: colors on a terminal unless `NO_COLOR`
/// is set.
pub open spec fn default_view(stdout_is_terminal: bool, no_color: bool) -> ConfigView {
    ConfigView {
        paths: Seq::empty(),
        show_all: false,
        whole_all: false,
        long: false,
        sort: SortKey::Name,
        reverse: false,
        recursive: false,
        max_depth: None,
        time_format: TimeFormat::Local,
        bytes: false,
        type_filter: None,
        output: default_output_mode(stdout_is_terminal),
        icon: false,
        summary: false,
        sensitive: false,
        debug: false,
        color: stdout_is_terminal && !no_color,
    }
}

pub fn default_output(stdout_is_terminal: bool) -> (m: OutputMode)
    ensures
        m == default_output_mode(stdout_is_terminal),
{
    if stdout_is_terminal {
        OutputMode::Table
    } else {
        OutputMode::Plain
    }
}

// ---------------------------------------------------------------------------
// Values of options
// ---------------------------------------------------------------------------

pub open spec fn usage(text: Seq<char>) -> CliErrorView {
    CliErrorView::Usage(text)
}

pub open spec fn sort_key_text(v: Seq<char>) -> Result<SortKey, CliErrorView> {
    if v == "name"@ {
        Ok(SortKey::Name)
    } else if v == "size"@ {
        Ok(SortKey::Size)
    } else if v == "time"@ || v == "modified"@ || v == "mtime"@ {
        Ok(SortKey::Time)
    } else if v == "extension"@ || v == "ext"@ {
        Ok(SortKey::Extension)
    } else {
        Err(
            usage(
                "unsupported sort key '"@ + v + "' (expected name, size, time, or extension)"@,
            ),
        )
    }
}

pub open spec fn time_format_text(v: Seq<char>) -> Result<TimeFormat, CliErrorView> {
    if v == "local"@ {
        Ok(TimeFormat::Local)
    } else if v == "iso"@ || v == "iso8601"@ {
        Ok(TimeFormat::Iso)
    } else {
        Err(usage("unsupported time format '"@ + v + "' (expected local or iso)"@))
    }
}

pub open spec fn type_filter_text(v: Seq<char>) -> Result<TypeFilter, CliErrorView> {
    if v == "file"@ {
        Ok(TypeFilter::File)
    } else if v == "dir"@ || v == "directory"@ {
        Ok(TypeFilter::Dir)
    } else if v == "link"@ || v == "symlink"@ {
        Ok(TypeFilter::Link)
    } else {
        Err(usage("unsupported type '"@ + v + "' (expected file, dir, or link)"@))
    }
}

pub open spec fn output_mode_of(v: Seq<char>) -> Option<OutputMode> {
    if v == "table"@ {
        Some(OutputMode::Table)
    } else if v == "plain"@ {
        Some(OutputMode::Plain)
    } else if v == "csv"@ {
        Some(OutputMode::Csv)
    } else if v == "json"@ {
        Some(OutputMode::Json)
    } else if v == "yaml"@ {
        Some(OutputMode::Yaml)
    } else {
        None
    }
}

/// `--output`: the five modes.
pub open spec fn output_text(v: Seq<char>) -> Result<OutputMode, CliErrorView> {
    match output_mode_of(v) {
        Some(m) => Ok(m),
        None => Err(
            usage(
                "unsupported output mode '"@ + v
                    + "' (expected plain, table, csv, json, or yaml)"@,
            ),
        ),
    }
}

/// `--format`: the same modes, with its own message.
pub open spec fn format_text(v: Seq<char>) -> Result<OutputMode, CliErrorView> {
    match output_mode_of(v) {
        Some(m) => Ok(m),
        None => Err(
            usage("unsupported format '"@ + v + "' (expected plain, table, csv, json, or yaml)"@),
        ),
    }
}

fn literal_is(v: &Vec<char>, lit: &str) -> (b: bool)
    ensures
        b == (v@ == lit@),
{
    same_chars(v, &chars_of(lit))
}

/// `prefix`, the value and `suffix` as a usage error.
fn usage_error(prefix: &str, value: &Vec<char>, suffix: &str) -> (e: CliError)
    ensures
        e@ == usage(prefix@ + value@ + suffix@),
{
    let mut text = String::new();
    push_str(&mut text, prefix);
    push_chars(&mut text, value);
    push_str(&mut text, suffix);
    CliError::Usage(text)
}

impl SortKey {
    #[verifier::spinoff_prover]
    pub fn parse(value: &str) -> (r: Result<SortKey, CliError>)
        ensures
            match sort_key_text(value@) {
                Ok(k) => r == Ok::<SortKey, CliError>(k),
                Err(e) => r is Err && r->Err_0@ == e,
            },
    {
        let v = chars_of(value);
        if literal_is(&v, "name") {
            Ok(SortKey::Name)
        } else if literal_is(&v, "size") {
            Ok(SortKey::Size)
        } else if literal_is(&v, "time") || literal_is(&v, "modified") || literal_is(&v, "mtime") {
            Ok(SortKey::Time)
        } else if literal_is(&v, "extension") || literal_is(&v, "ext") {
            Ok(SortKey::Extension)
        } else {
            Err(
                usage_error(
                    "unsupported sort key '",
                    &v,
                    "' (expected name, size, time, or extension)",
                ),
            )
        }
    }
}

impl TimeFormat {
    #[verifier::spinoff_prover]
    pub fn parse(value: &str) -> (r: Result<TimeFormat, CliError>)
        ensures
            match time_format_text(value@) {
                Ok(k) => r == Ok::<TimeFormat, CliError>(k),
                Err(e) => r is Err && r->Err_0@ == e,
            },
    {
        let v = chars_of(value);
        if literal_is(&v, "local") {
            Ok(TimeFormat::Local)
        } else if literal_is(&v, "iso") || literal_is(&v, "iso8601") {
            Ok(TimeFormat::Iso)
        } else {
            Err(usage_error("unsupported time format '", &v, "' (expected local or iso)"))
        }
    }
}

impl TypeFilter {
    #[verifier::spinoff_prover]
    pub fn parse(value: &str) -> (r: Result<TypeFilter, CliError>)
        ensures
            match type_filter_text(value@) {
                Ok(k) => r == Ok::<TypeFilter, CliError>(k),
                Err(e) => r is Err && r->Err_0@ == e,
            },
    {
        let v = chars_of(value);
        if literal_is(&v, "file") {
            Ok(TypeFilter::File)
        } else if literal_is(&v, "dir") || literal_is(&v, "directory") {
            Ok(TypeFilter::Dir)
        } else if literal_is(&v, "link") || literal_is(&v, "symlink") {
            Ok(TypeFilter::Link)
        } else {
            Err(usage_error("unsupported type '", &v, "' (expected file, dir, or link)"))
        }
    }
}

fn output_mode(v: &Vec<char>) -> (r: Option<OutputMode>)
    ensures
        r == output_mode_of(v@),
{
    if literal_is(v, "table") {
        Some(OutputMode::Table)
    } else if literal_is(v, "plain") {
        Some(OutputMode::Plain)
    } else if literal_is(v, "csv") {
        Some(OutputMode::Csv)
    } else if literal_is(v, "json") {
        Some(OutputMode::Json)
    } else if literal_is(v, "yaml") {
        Some(OutputMode::Yaml)
    } else {
        None
    }
}

impl OutputMode {
    /// The modes `--output` accepts.
    #[verifier::spinoff_prover]
    pub fn parse(value: &str) -> (r: Result<OutputMode, CliError>)
        ensures
            match output_text(value@) {
                Ok(k) => r == Ok::<OutputMode, CliError>(k),
                Err(e) => r is Err && r->Err_0@ == e,
            },
    {
        let v = chars_of(value);
        match output_mode(&v) {
            Some(m) => Ok(m),
            None => Err(
                usage_error(
                    "unsupported output mode '",
                    &v,
                    "' (expected plain, table, csv, json, or yaml)",
                ),
            ),
        }
    }

    /// The modes `--format` accepts.
    pub fn parse_format(value: &str) -> (r: Result<OutputMode, CliError>)
        ensures
            match format_text(value@) {
                Ok(k) => r == Ok::<OutputMode, CliError>(k),
                Err(e) => r is Err && r->Err_0@ == e,
            },
    {
        let v = chars_of(value);
        match output_mode(&v) {
            Some(m) => Ok(m),
            None => Err(
                usage_error(
                    "unsupported format '",
                    &v,
                    "' (expected plain, table, csv, json, or yaml)",
                ),
            ),
        }
    }
}

// ---------------------------------------------------------------------------
// The parsing rules
// ---------------------------------------------------------------------------

/// The value of a decimal digit run, as `usize` parsing reads it: an
/// optional `+`, then at least one ASCII digit, within `usize`.
pub open spec fn usize_text(v: Seq<char>) -> Option<usize> {
    crate::args::parse_usize_text(v)
}

/// Which option takes a value.
#[derive(Clone, Copy, PartialEq, Eq, Structural)]
pub enum ValueOption {
    Sort,
    MaxDepth,
    TimeFormat,
    Type,
    Output,
    Format,
}

pub open spec fn apply_value(opt: ValueOption, name: Seq<char>, v: Seq<char>, c: ConfigView) -> Result<
    ConfigView,
    CliErrorView,
> {
    match opt {
        ValueOption::Sort => match sort_key_text(v) {
            Ok(k) => Ok(ConfigView { sort: k, ..c }),
            Err(e) => Err(e),
        },
        ValueOption::MaxDepth => match usize_text(v) {
            Some(n) => Ok(ConfigView { max_depth: Some(n), ..c }),
            None => Err(usage("option '--"@ + name + "' expects a non-negative integer"@)),
        },
        ValueOption::TimeFormat => match time_format_text(v) {
            Ok(k) => Ok(ConfigView { time_format: k, ..c }),
            Err(e) => Err(e),
        },
        ValueOption::Type => match type_filter_text(v) {
            Ok(k) => Ok(ConfigView { type_filter: Some(k), ..c }),
            Err(e) => Err(e),
        },
        ValueOption::Output => match output_text(v) {
            Ok(k) => Ok(ConfigView { output: k, ..c }),
            Err(e) => Err(e),
        },
        ValueOption::Format => match format_text(v) {
            Ok(k) => Ok(ConfigView { output: k, ..c }),
            Err(e) => Err(e),
        },
    }
}

/// A value option: the inline `=value`, else the next token (consumed);
/// an error naming the option when neither exists.
pub open spec fn value_step(
    toks: Seq<Seq<char>>,
    i: int,
    name: Seq<char>,
    inline: Option<Seq<char>>,
    opt: ValueOption,
    c: ConfigView,
) -> Result<(nat, ConfigView), CliErrorView> {
    let value: Option<(Seq<char>, nat)> = match inline {
        Some(v) => Some((v, 1nat)),
        None => if i + 1 < toks.len() {
            Some((toks[i + 1], 2nat))
        } else {
            None
        },
    };
    match value {
        None => Err(usage("option '--"@ + name + "' requires a value"@)),
        Some((v, used)) => match apply_value(opt, name, v, c) {
            Ok(c2) => Ok((used, c2)),
            Err(e) => Err(e),
        },
    }
}

/// What a long option name stands for.
#[derive(Clone, Copy, PartialEq, Eq, Structural)]
pub enum LongOption {
    Help,
    Version,
    All,
    WholeAll,
    Long,
    Reverse,
    Recursive,
    Bytes,
    Icon,
    Summary,
    Sensitive,
    Debug,
    Color,
    NoColor,
    Value(ValueOption),
    Unknown,
}

pub open spec fn long_option(name: Seq<char>) -> LongOption {
    if name == "help"@ {
        LongOption::Help
    } else if name == "version"@ {
        LongOption::Version
    } else if name == "all"@ {
        LongOption::All
    } else if name == "whole-all"@ {
        LongOption::WholeAll
    } else if name == "long"@ {
        LongOption::Long
    } else if name == "sort"@ {
        LongOption::Value(ValueOption::Sort)
    } else if name == "reverse"@ {
        LongOption::Reverse
    } else if name == "recursive"@ {
        LongOption::Recursive
    } else if name == "max-depth"@ {
        LongOption::Value(ValueOption::MaxDepth)
    } else if name == "time-format"@ {
        LongOption::Value(ValueOption::TimeFormat)
    } else if name == "bytes"@ {
        LongOption::Bytes
    } else if name == "type"@ {
        LongOption::Value(ValueOption::Type)
    } else if name == "output"@ {
        LongOption::Value(ValueOption::Output)
    } else if name == "format"@ {
        LongOption::Value(ValueOption::Format)
    } else if name == "icon"@ {
        LongOption::Icon
    } else if name == "summary"@ {
        LongOption::Summary
    } else if name == "sensitive"@ {
        LongOption::Sensitive
    } else if name == "debug"@ {
        LongOption::Debug
    } else if name == "color"@ {
        LongOption::Color
    } else if name == "no-color"@ {
        LongOption::NoColor
    } else {
        LongOption::Unknown
    }
}

/// A flag option's effect on the settings.
pub open spec fn long_flag(k: LongOption, c: ConfigView) -> ConfigView {
    match k {
        LongOption::All => ConfigView { show_all: true, ..c },
        LongOption::WholeAll => ConfigView { show_all: true, whole_all: true, ..c },
        LongOption::Long => ConfigView { long: true, ..c },
        LongOption::Reverse => ConfigView { reverse: true, ..c },
        LongOption::Recursive => ConfigView { recursive: true, ..c },
        LongOption::Bytes => ConfigView { bytes: true, ..c },
        LongOption::Icon => ConfigView { icon: true, ..c },
        LongOption::Summary => ConfigView { summary: true, ..c },
        LongOption::Sensitive => ConfigView { sensitive: true, ..c },
        LongOption::Debug => ConfigView { debug: true, ..c },
        LongOption::Color => ConfigView { color: true, ..c },
        LongOption::NoColor => ConfigView { color: false, ..c },
        _ => c,
    }
}

/// The option after `--` (the text before any `=` names it).
pub open spec fn long_step(body: Seq<char>, toks: Seq<Seq<char>>, i: int, c: ConfigView) -> Result<
    (nat, ConfigView),
    CliErrorView,
> {
    if body.len() == 0 {
        Err(usage("empty option '--' is not valid"@))
    } else {
        let (name, inline) = match split_first(body, '=') {
            Some((n, v)) => (n, Some(v)),
            None => (body, None),
        };
        match long_option(name) {
            LongOption::Help => Err(CliErrorView::Help),
            LongOption::Version => Err(CliErrorView::Version),
            LongOption::Value(opt) => value_step(toks, i, name, inline, opt, c),
            LongOption::Unknown => Err(usage("unknown option '--"@ + name + "'"@)),
            k => Ok((1, long_flag(k, c))),
        }
    }
}

/// One short flag.
pub open spec fn short_flag(flag: char, c: ConfigView) -> Result<ConfigView, CliErrorView> {
    if flag == 'a' {
        Ok(ConfigView { show_all: true, ..c })
    } else if flag == 'A' {
        Ok(ConfigView { show_all: true, whole_all: true, ..c })
    } else if flag == 'l' {
        Ok(ConfigView { long: true, ..c })
    } else if flag == 'S' {
        Ok(ConfigView { sort: SortKey::Size, ..c })
    } else if flag == 't' {
        Ok(ConfigView { sort: SortKey::Time, ..c })
    } else if flag == 'r' {
        Ok(ConfigView { reverse: true, ..c })
    } else if flag == 'R' {
        Ok(ConfigView { recursive: true, ..c })
    } else if flag == 'h' {
        Err(CliErrorView::Help)
    } else {
        Err(usage("unknown option '-"@.push(flag) + "'"@))
    }
}

/// Short flags left to right, stopping at the first that ends parsing.
pub open spec fn short_flags(flags: Seq<char>, c: ConfigView) -> Result<ConfigView, CliErrorView>
    decreases flags.len(),
{
    if flags.len() == 0 {
        Ok(c)
    } else {
        match short_flag(flags[0], c) {
            Ok(c2) => short_flags(flags.drop_first(), c2),
            Err(e) => Err(e),
        }
    }
}

/// `.` when no path was given.
pub open spec fn with_default_path(c: ConfigView) -> ConfigView {
    if c.paths.len() == 0 {
        ConfigView { paths: seq![seq!['.']], ..c }
    } else {
        c
    }
}

/// One token other than `--` (and possibly the next): `--name` is a long
/// option, `-xyz` (more than a lone dash) are short flags, anything else a
/// path.
#[verifier::opaque]
pub open spec fn consume_step(toks: Seq<Seq<char>>, i: int, c: ConfigView) -> Result<
    (nat, ConfigView),
    CliErrorView,
> {
    let t = toks[i];
    if seq!['-', '-'].is_prefix_of(t) {
        long_step(t.subrange(2, t.len() as int), toks, i, c)
    } else if t.len() > 1 && t[0] == '-' {
        match short_flags(t.drop_first(), c) {
            Ok(c2) => Ok((1, c2)),
            Err(e) => Err(e),
        }
    } else {
        Ok((1, ConfigView { paths: c.paths.push(t), ..c }))
    }
}

/// Parsing from token `i` on; `--` makes the rest paths.
pub open spec fn parse_from(toks: Seq<Seq<char>>, i: int, c: ConfigView) -> Result<
    ConfigView,
    CliErrorView,
>
    decreases toks.len() - i,
{
    if i < 0 || i >= toks.len() {
        Ok(with_default_path(c))
    } else if toks[i] == seq!['-', '-'] {
        Ok(
            with_default_path(
                ConfigView { paths: c.paths + toks.subrange(i + 1, toks.len() as int), ..c },
            ),
        )
    } else {
        match consume_step(toks, i, c) {
            Ok((n, c2)) => if n >= 1 && i + n <= toks.len() {
                parse_from(toks, i + n, c2)
            } else {
                Ok(with_default_path(c2))
            },
            Err(e) => Err(e),
        }
    }
}

pub open spec fn parse_spec(toks: Seq<Seq<char>>, stdout_is_terminal: bool, no_color: bool) -> Result<
    ConfigView,
    CliErrorView,
> {
    parse_from(toks, 0, default_view(stdout_is_terminal, no_color))
}

pub open spec fn config_result_view(r: Result<Config, CliError>) -> Result<
    ConfigView,
    CliErrorView,
> {
    match r {
        Ok(c) => Ok(c@),
        Err(e) => Err(e@),
    }
}

// ---------------------------------------------------------------------------
// The parser
// ---------------------------------------------------------------------------

fn classify_long(name: &Vec<char>) -> (k: LongOption)
    ensures
        k == long_option(name@),
{
    if literal_is(name, "help") {
        LongOption::Help
    } else if literal_is(name, "version") {
        LongOption::Version
    } else if literal_is(name, "all") {
        LongOption::All
    } else if literal_is(name, "whole-all") {
        LongOption::WholeAll
    } else if literal_is(name, "long") {
        LongOption::Long
    } else if literal_is(name, "sort") {
        LongOption::Value(ValueOption::Sort)
    } else if literal_is(name, "reverse") {
        LongOption::Reverse
    } else if literal_is(name, "recursive") {
        LongOption::Recursive
    } else if literal_is(name, "max-depth") {
        LongOption::Value(ValueOption::MaxDepth)
    } else if literal_is(name, "time-format") {
        LongOption::Value(ValueOption::TimeFormat)
    } else if literal_is(name, "bytes") {
        LongOption::Bytes
    } else if literal_is(name, "type") {
        LongOption::Value(ValueOption::Type)
    } else if literal_is(name, "output") {
        LongOption::Value(ValueOption::Output)
    } else if literal_is(name, "format") {
        LongOption::Value(ValueOption::Format)
    } else if literal_is(name, "icon") {
        LongOption::Icon
    } else if literal_is(name, "summary") {
        LongOption::Summary
    } else if literal_is(name, "sensitive") {
        LongOption::Sensitive
    } else if literal_is(name, "debug") {
        LongOption::Debug
    } else if literal_is(name, "color") {
        LongOption::Color
    } else if literal_is(name, "no-color") {
        LongOption::NoColor
    } else {
        LongOption::Unknown
    }
}

/// Splits `name=value` at the first `=`.
pub fn split_long_option(option: &Vec<char>) -> (r: (Vec<char>, Option<Vec<char>>))
    ensures
        match split_first(option@, '=') {
            Some((n, v)) => r.0@ == n && r.1 is Some && r.1->Some_0@ == v,
            None => r.0@ == option@ && r.1 is None,
        },
{
    match split_once(option, '=') {
        Some((name, value)) => (name, Some(value)),
        None => (option.clone(), None),
    }
}

/// The inline value, else the next token; an error naming the option when
/// there is neither.
pub fn value_for(name: &Vec<char>, inline: Option<Vec<char>>, args: &Vec<String>, index: usize) -> (r:
    Result<(Vec<char>, usize), CliError>)
    requires
        index < args.len(),
    ensures
        match inline {
            Some(v) => r is Ok && r->Ok_0.0@ == v@ && r->Ok_0.1 == 1,
            None => if index + 1 < args.len() {
                r is Ok && r->Ok_0.0@ == views(args@)[index + 1] && r->Ok_0.1 == 2
            } else {
                r is Err && r->Err_0@ == usage("option '--"@ + name@ + "' requires a value"@)
            },
        },
{
    if let Some(value) = inline {
        return Ok((value, 1));
    }
    if index + 1 >= args.len() {
        return Err(usage_error("option '--", name, "' requires a value"));
    }
    Ok((chars_of(args[index + 1].as_str()), 2))
}

/// A non-negative integer option value.
pub fn parse_usize(name: &Vec<char>, value: &Vec<char>) -> (r: Result<usize, CliError>)
    ensures
        match usize_text(value@) {
            Some(n) => r == Ok::<usize, CliError>(n),
            None => r is Err && r->Err_0@ == usage(
                "option '--"@ + name@ + "' expects a non-negative integer"@,
            ),
        },
{
    match crate::args::parse_usize(value) {
        Some(n) => Ok(n),
        None => Err(usage_error("option '--", name, "' expects a non-negative integer")),
    }
}

impl Config {
    /// The settings before any option is read.
    pub fn default_for_stdout(stdout_is_terminal: bool, no_color: bool) -> (c: Config)
        ensures
            c@ == default_view(stdout_is_terminal, no_color),
    {
        let c = Config {
            paths: Vec::new(),
            show_all: false,
            whole_all: false,
            long: false,
            sort: SortKey::Name,
            reverse: false,
            recursive: false,
            max_depth: None,
            time_format: TimeFormat::Local,
            bytes: false,
            type_filter: None,
            output: default_output(stdout_is_terminal),
            icon: false,
            summary: false,
            sensitive: false,
            debug: false,
            color: stdout_is_terminal && !no_color,
        };
        assert(c@.paths =~= Seq::<Seq<char>>::empty());
        c
    }

    /// Reads the command line (without the program name). Whether standard
    /// output is a terminal and whether `NO_COLOR` is set decide the
    /// defaults.
    #[verifier::spinoff_prover]
    #[verifier::rlimit(30)]
    pub fn parse(args: &Vec<String>, stdout_is_terminal: bool, no_color: bool) -> (r: Result<
        Config,
        CliError,
    >)
        ensures
            config_result_view(r) == parse_spec(views(args@), stdout_is_terminal, no_color),
    {
        let ghost toks = views(args@);
        let mut config = Config::default_for_stdout(stdout_is_terminal, no_color);
        let mut index: usize = 0;
        while index < args.len()
            invariant
                toks == views(args@),
                index <= args.len(),
                parse_spec(toks, stdout_is_terminal, no_color) == parse_from(
                    toks,
                    index as int,
                    config@,
                ),
            decreases args.len() - index,
        {
            let arg = chars_of(args[index].as_str());
            assert(arg@ == toks[index as int]);
            if arg.len() == 2 && arg[0] == '-' && arg[1] == '-' {
                assert(arg@ =~= seq!['-', '-']);
                config.add_remaining_paths(args, index + 1);
                config.ensure_default_path();
                return Ok(config);
            }
            assert(toks[index as int] != seq!['-', '-']) by {
                if toks[index as int] == seq!['-', '-'] {
                    assert(arg@.len() == 2 && arg@[0] == '-' && arg@[1] == '-');
                }
            }
            match config.consume_arg(&arg, args, index) {
                Ok(n) => {
                    index = index + n;
                },
                Err(e) => {
                    return Err(e);
                },
            }
        }
        config.ensure_default_path();
        Ok(config)
    }

    /// Adds every token from `start` on as a path.
    #[verifier::spinoff_prover]
    fn add_remaining_paths(&mut self, args: &Vec<String>, start: usize)
        requires
            start <= args.len(),
        ensures
            final(self)@ == (ConfigView {
                paths: old(self)@.paths + views(args@).subrange(start as int, args.len() as int),
                ..old(self)@
            }),
    {
        let ghost before = self@;
        let ghost toks = views(args@);
        for k in start..args.len()
            invariant
                toks == views(args@),
                start <= args.len(),
                self@ == (ConfigView {
                    paths: before.paths + toks.subrange(start as int, k as int),
                    ..before
                }),
        {
            let ghost old_paths = self@.paths;
            self.paths.push(crate::text::clone_string(&args[k]));
            assert(self@.paths =~= old_paths.push(toks[k as int]));
            assert(self@.paths =~= before.paths + toks.subrange(start as int, k + 1));
        }
    }

    /// Handles token `index` (whose characters are `arg`); returns how many
    /// tokens it used.
    #[verifier::spinoff_prover]
    fn consume_arg(&mut self, arg: &Vec<char>, args: &Vec<String>, index: usize) -> (r: Result<
        usize,
        CliError,
    >)
        requires
            index < args.len(),
            arg@ == views(args@)[index as int],
        ensures
            match consume_step(views(args@), index as int, old(self)@) {
                Ok((n, c)) => r == Ok::<usize, CliError>(n as usize) && final(self)@ == c && 1 <= n
                    <= 2 && index + n <= args.len(),
                Err(e) => r is Err && r->Err_0@ == e,
            },
    {
        reveal(consume_step);
        if arg.len() >= 2 && arg[0] == '-' && arg[1] == '-' {
            assert(seq!['-', '-'].is_prefix_of(arg@)) by {
                assert(arg@.subrange(0, 2) =~= seq!['-', '-']);
            }
            let option = crate::text::slice_chars(arg, 2, arg.len());
            return self.apply_long_option(&option, args, index);
        }
        proof {
            if seq!['-', '-'].is_prefix_of(arg@) {
                assert(arg@[0] == seq!['-', '-'][0]);
                assert(arg@[1] == seq!['-', '-'][1]);
            }
        }
        if arg.len() > 1 && arg[0] == '-' {
            match self.apply_short_flags(arg) {
                Ok(()) => Ok(1),
                Err(e) => Err(e),
            }
        } else {
            let ghost before = self@;
            self.paths.push(crate::text::clone_string(&args[index]));
            assert(self@.paths =~= before.paths.push(arg@));
            Ok(1)
        }
    }

    /// Applies a long option (the text after `--`); returns how many tokens
    /// it used.
    #[verifier::spinoff_prover]
    pub fn apply_long_option(&mut self, option: &Vec<char>, args: &Vec<String>, index: usize) -> (r:
        Result<usize, CliError>)
        requires
            index < args.len(),
        ensures
            match long_step(option@, views(args@), index as int, old(self)@) {
                Ok((n, c)) => r == Ok::<usize, CliError>(n as usize) && final(self)@ == c && 1 <= n
                    <= 2 && index + n <= args.len(),
                Err(e) => r is Err && r->Err_0@ == e && final(self)@ == old(self)@,
            },
    {
        if option.len() == 0 {
            return Err(CliError::Usage(String::from_str("empty option '--' is not valid")));
        }
        let (name, inline) = split_long_option(option);
        let kind = classify_long(&name);
        match kind {
            LongOption::Help => Err(CliError::Help),
            LongOption::Version => Err(CliError::Version),
            LongOption::Value(opt) => self.set_value(opt, &name, inline, args, index),
            LongOption::Unknown => Err(usage_error("unknown option '--", &name, "'")),
            _ => {
                self.set_long_flag(kind);
                Ok(1)
            },
        }
    }

    #[verifier::spinoff_prover]
    #[verifier::rlimit(30)]
    fn set_long_flag(&mut self, kind: LongOption)
        ensures
            final(self)@ == long_flag(kind, old(self)@),
    {
        let ghost paths = views(self.paths@);
        match kind {
            LongOption::All => self.show_all = true,
            LongOption::WholeAll => self.enable_whole_all(),
            LongOption::Long => self.long = true,
            LongOption::Reverse => self.reverse = true,
            LongOption::Recursive => self.recursive = true,
            LongOption::Bytes => self.bytes = true,
            LongOption::Icon => self.icon = true,
            LongOption::Summary => self.summary = true,
            LongOption::Sensitive => self.sensitive = true,
            LongOption::Debug => self.debug = true,
            LongOption::Color => self.color = true,
            LongOption::NoColor => self.color = false,
            _ => {},
        }
        assert(views(self.paths@) == paths);
    }

    /// Reads a value option's value and stores it.
    #[verifier::rlimit(80)]
    fn set_value(
        &mut self,
        opt: ValueOption,
        name: &Vec<char>,
        inline: Option<Vec<char>>,
        args: &Vec<String>,
        index: usize,
    ) -> (r: Result<usize, CliError>)
        requires
            index < args.len(),
        ensures
            match value_step(
                views(args@),
                index as int,
                name@,
                match inline {
                    Some(v) => Some(v@),
                    None => None,
                },
                opt,
                old(self)@,
            ) {
                Ok((n, c)) => r == Ok::<usize, CliError>(n as usize) && final(self)@ == c && 1 <= n
                    <= 2 && index + n <= args.len(),
                Err(e) => r is Err && r->Err_0@ == e && final(self)@ == old(self)@,
            },
    {
        let (value, used) = match value_for(name, inline, args, index) {
            Ok(v) => v,
            Err(e) => {
                return Err(e);
            },
        };
        match self.apply_value_text(opt, name, &value) {
            Ok(()) => Ok(used),
            Err(e) => Err(e),
        }
    }

    /// Stores the value of a value option.
    #[verifier::spinoff_prover]
    fn apply_value_text(&mut self, opt: ValueOption, name: &Vec<char>, value: &Vec<char>) -> (r:
        Result<(), CliError>)
        ensures
            match apply_value(opt, name@, value@, old(self)@) {
                Ok(c) => r is Ok && final(self)@ == c,
                Err(e) => r is Err && r->Err_0@ == e && final(self)@ == old(self)@,
            },
    {
        match opt {
            ValueOption::Sort => self.set_sort(value),
            ValueOption::MaxDepth => self.set_max_depth(name, value),
            ValueOption::TimeFormat => self.set_time_format(value),
            ValueOption::Type => self.set_type_filter(value),
            ValueOption::Output => self.set_output(value, false),
            ValueOption::Format => self.set_output(value, true),
        }
    }

    /// `--sort`.
    #[verifier::spinoff_prover]
    fn set_sort(&mut self, value: &Vec<char>) -> (r: Result<(), CliError>)
        ensures
            match sort_key_text(value@) {
                Ok(k) => r is Ok && final(self)@ == (ConfigView { sort: k, ..old(self)@ }),
                Err(e) => r is Err && r->Err_0@ == e && final(self)@ == old(self)@,
            },
    {
        let text = crate::text::string_of(value);
        self.sort = SortKey::parse(text.as_str())?;
        Ok(())
    }

    /// `--max-depth`.
    #[verifier::spinoff_prover]
    fn set_max_depth(&mut self, name: &Vec<char>, value: &Vec<char>) -> (r: Result<(), CliError>)
        ensures
            match usize_text(value@) {
                Some(n) => r is Ok && final(self)@ == (ConfigView {
                    max_depth: Some(n),
                    ..old(self)@
                }),
                None => r is Err && r->Err_0@ == usage(
                    "option '--"@ + name@ + "' expects a non-negative integer"@,
                ) && final(self)@ == old(self)@,
            },
    {
        self.max_depth = Some(parse_usize(name, value)?);
        Ok(())
    }

    /// `--time-format`.
    #[verifier::spinoff_prover]
    fn set_time_format(&mut self, value: &Vec<char>) -> (r: Result<(), CliError>)
        ensures
            match time_format_text(value@) {
                Ok(k) => r is Ok && final(self)@ == (ConfigView { time_format: k, ..old(self)@ }),
                Err(e) => r is Err && r->Err_0@ == e && final(self)@ == old(self)@,
            },
    {
        let text = crate::text::string_of(value);
        self.time_format = TimeFormat::parse(text.as_str())?;
        Ok(())
    }

    /// `--type`.
    #[verifier::spinoff_prover]
    fn set_type_filter(&mut self, value: &Vec<char>) -> (r: Result<(), CliError>)
        ensures
            match type_filter_text(value@) {
                Ok(k) => r is Ok && final(self)@ == (ConfigView {
                    type_filter: Some(k),
                    ..old(self)@
                }),
                Err(e) => r is Err && r->Err_0@ == e && final(self)@ == old(self)@,
            },
    {
        let text = crate::text::string_of(value);
        self.type_filter = Some(TypeFilter::parse(text.as_str())?);
        Ok(())
    }

    /// `--output`, or `--format` with its own message.
    #[verifier::spinoff_prover]
    fn set_output(&mut self, value: &Vec<char>, as_format: bool) -> (r: Result<(), CliError>)
        ensures
            match if as_format {
                format_text(value@)
            } else {
                output_text(value@)
            } {
                Ok(k) => r is Ok && final(self)@ == (ConfigView { output: k, ..old(self)@ }),
                Err(e) => r is Err && r->Err_0@ == e && final(self)@ == old(self)@,
            },
    {
        let text = crate::text::string_of(value);
        self.output = if as_format {
            OutputMode::parse_format(text.as_str())?
        } else {
            OutputMode::parse(text.as_str())?
        };
        Ok(())
    }

    /// Applies the flags of a `-xyz` token (after its dash).
    #[verifier::spinoff_prover]
    #[verifier::rlimit(30)]
    pub fn apply_short_flags(&mut self, arg: &Vec<char>) -> (r: Result<(), CliError>)
        requires
            arg@.len() > 0,
        ensures
            match short_flags(arg@.drop_first(), old(self)@) {
                Ok(c) => r is Ok && final(self)@ == c,
                Err(e) => r is Err && r->Err_0@ == e,
            },
    {
        let ghost flags = arg@.drop_first();
        let mut i: usize = 1;
        assert(arg@.subrange(1, arg.len() as int) =~= flags);
        while i < arg.len()
            invariant
                1 <= i <= arg.len(),
                flags == arg@.drop_first(),
                short_flags(flags, old(self)@) == short_flags(
                    arg@.subrange(i as int, arg.len() as int),
                    self@,
                ),
            decreases arg.len() - i,
        {
            let ghost rest = arg@.subrange(i as int, arg.len() as int);
            let ghost pre = self@;
            assert(rest[0] == arg@[i as int]);
            assert(rest.drop_first() =~= arg@.subrange(i + 1, arg.len() as int));
            let flag = arg[i];
            match flag {
                'a' => self.show_all = true,
                'A' => self.enable_whole_all(),
                'l' => self.long = true,
                'S' => self.sort = SortKey::Size,
                't' => self.sort = SortKey::Time,
                'r' => self.reverse = true,
                'R' => self.recursive = true,
                'h' => {
                    assert(short_flags(rest, pre) == Err::<ConfigView, CliErrorView>(
                        CliErrorView::Help,
                    ));
                    return Err(CliError::Help);
                },
                _ => {
                    let mut text = String::from_str("unknown option '-");
                    proof {
                        reveal_strlit("unknown option '-");
                    }
                    crate::text::push_char(&mut text, flag);
                    push_str(&mut text, "'");
                    let e = CliError::Usage(text);
                    assert(short_flags(rest, pre) == Err::<ConfigView, CliErrorView>(e@));
                    return Err(e);
                },
            }
            i = i + 1;
        }
        assert(arg@.subrange(i as int, arg.len() as int) =~= Seq::<char>::empty());
        Ok(())
    }

    /// `-A` and `--whole-all`: hidden files, without ignore filtering.
    #[verifier::spinoff_prover]
    pub fn enable_whole_all(&mut self)
        ensures
            final(self)@ == (ConfigView { show_all: true, whole_all: true, ..old(self)@ }),
    {
        self.show_all = true;
        self.whole_all = true;
    }

    /// `.` when no path was given.
    #[verifier::spinoff_prover]
    pub fn ensure_default_path(&mut self)
        ensures
            final(self)@ == with_default_path(old(self)@),
    {
        if self.paths.len() == 0 {
            let dot = String::from_str(".");
            proof {
                reveal_strlit(".");
            }
            assert(dot@ =~= seq!['.']);
            self.paths.push(dot);
            assert(self@.paths =~= seq![seq!['.']]);
        }
    }
}


/// The usage text printed for `--help` (it ends with an empty line).
pub const HELP_TEXT: &'static str = "lsef - list files with readable metadata

Usage:
  lsef [OPTIONS] [PATH ...]

Options:
  -a, --all                 Show hidden files
  -A, --whole-all           Show hidden files without .gitignore filtering
  -l, --long                Show permissions, owner, group, links, Git state, and name
  -S                        Sort by size
  -t                        Sort by modification time
      --sort <KEY>          Sort by name, size, time, or extension
  -r, --reverse             Reverse the selected sort order
  -R, --recursive           Recursively list subdirectories
      --max-depth <N>       Limit recursion depth
      --time-format <FMT>   Use local or iso time format
      --bytes               Show raw byte sizes
      --type <TYPE>         Filter by file, dir, or link
      --output <FORMAT>     Use plain, table, csv, json, or yaml output
      --format <FORMAT>     Use plain, table, csv, json, or yaml output
      --icon                Prefix entries with compact type icons
      --summary             Print total counts and size
      --sensitive           Highlight likely secrets and credential files
      --color, --no-color   Force enable or disable ANSI colors
  -h, --help                Show this help
      --version             Show version

";

/// The usage text printed for `--help`.
pub fn help_text() -> (s: String)
    ensures
        s@ == HELP_TEXT@,
{
    String::from_str(HELP_TEXT)
}

/// The line printed for `--version`.
pub open spec fn version_text(version: Seq<char>) -> Seq<char> {
    "lsef "@ + version + "\n"@
}

pub fn version_line(version: &str) -> (s: String)
    ensures
        s@ == version_text(version@),
{
    let mut s = String::from_str("lsef ");
    push_str(&mut s, version);
    push_str(&mut s, "\n");
    s
}

/// The standard-error lines of a usage error.
pub open spec fn usage_error_text(message: Seq<char>) -> Seq<char> {
    "lsef: "@ + message + "\nTry 'lsef --help' for more information.\n"@
}

/// What a parse error means for the process: the text for standard output,
/// the text for standard error and the exit status (0 for help and
/// version, 2 for a usage error).
pub fn error_outcome(error: &CliError, version: &str) -> (r: (String, String, i32))
    ensures
        match error@ {
            CliErrorView::Help => r.0@ == HELP_TEXT@ && r.1@ == Seq::<char>::empty() && r.2 == 0,
            CliErrorView::Version => r.0@ == version_text(version@) && r.1@ == Seq::<char>::empty()
                && r.2 == 0,
            CliErrorView::Usage(m) => r.0@ == Seq::<char>::empty() && r.1@ == usage_error_text(m)
                && r.2 == 2,
        },
{
    match error {
        CliError::Help => (help_text(), String::new(), 0),
        CliError::Version => (version_line(version), String::new(), 0),
        CliError::Usage(message) => {
            let mut text = String::from_str("lsef: ");
            push_str(&mut text, message.as_str());
            push_str(&mut text, "\nTry 'lsef --help' for more information.\n");
            (String::new(), text, 2)
        },
    }
}

proof fn lemma_parse_from_has_a_path(toks: Seq<Seq<char>>, i: int, c: ConfigView)
    ensures
        parse_from(toks, i, c) is Ok ==> parse_from(toks, i, c)->Ok_0.paths.len() >= 1,
    decreases toks.len() - i,
{
    if 0 <= i < toks.len() && toks[i] != seq!['-', '-'] {
        match consume_step(toks, i, c) {
            Ok((n, c2)) => {
                if n >= 1 && i + n <= toks.len() {
                    lemma_parse_from_has_a_path(toks, i + n, c2);
                }
            },
            Err(_) => {},
        }
    }
}

/// A successful parse always names at least one path (`.` when none was
/// given).
pub proof fn parsed_configs_have_a_path(toks: Seq<Seq<char>>, stdout_is_terminal: bool, no_color: bool)
    ensures
        parse_spec(toks, stdout_is_terminal, no_color) is Ok ==> parse_spec(
            toks,
            stdout_is_terminal,
            no_color,
        )->Ok_0.paths.len() >= 1,
{
    lemma_parse_from_has_a_path(toks, 0, default_view(stdout_is_terminal, no_color));
}

/// `--format` takes the same mode names as `--output` and picks the same
/// mode; only the message for a name it does not know differs.
pub proof fn format_is_another_name_for_output(value: Seq<char>)
    ensures
        format_text(value) is Ok <==> output_text(value) is Ok,
        format_text(value) is Ok ==> format_text(value) == output_text(value),
{
}

} // verus!
