use lsef::lister::git::{git_search_start, git_search_step, git_state_text, GitStep};
use lsef::lister::entries::{
    compare_entries, entry_kind, is_hidden_name, is_sensitive_name, should_skip_entry, sort_entries, Entry,
    EntryKind, Section, Summary, TimeParts,
};
use lsef::lister::entries::sort_paths_by_name;
use lsef::lister::ignore::{parse_ignore_rule, rules_from_gitignore, wildcard_match};
use lsef::lister::options::{CliError, Config, OutputMode, SortKey, TimeFormat, TypeFilter};
use lsef::lister::render::{
    format_offset, format_size, format_time, json_escape, permissions, render, render_summary,
    ColorConfig,
};
use lsef::lister::walk::{IgnoreFacts, ItemFacts, PathFacts, Step, Walk};
use lsef::model::Timestamp;

#[test]
fn formats_sizes() {
    assert_eq!(format_size(Some(0), false), "0 B");
    assert_eq!(format_size(Some(1023), false), "1023 B");
    assert_eq!(format_size(Some(1024), false), "1.0 KB");
    assert_eq!(format_size(Some(10 * 1024), false), "10 KB");
    assert_eq!(format_size(Some(1536), true), "1536");
    assert_eq!(format_size(None, false), "N/A");
}

#[test]
fn parses_sort_keys() {
    assert_eq!(SortKey::parse("name").unwrap(), SortKey::Name);
    assert_eq!(SortKey::parse("size").unwrap(), SortKey::Size);
    assert_eq!(SortKey::parse("time").unwrap(), SortKey::Time);
    assert_eq!(SortKey::parse("ext").unwrap(), SortKey::Extension);
    assert!(SortKey::parse("other").is_err());
}

#[test]
fn matches_wildcards() {
    assert!(wildcard_match("*.rs", "main.rs"));
    assert!(wildcard_match("target?", "target1"));
    assert!(!wildcard_match("target?", "target12"));
}

#[test]
fn detects_sensitive_names() {
    assert!(is_sensitive_name(".env"));
    assert!(is_sensitive_name("private.key"));
    assert!(is_sensitive_name("service-token.txt"));
    assert!(!is_sensitive_name("main.rs"));
}

fn parse(list: &[&str]) -> Result<Config, CliError> {
    let args: Vec<String> = list.iter().map(|s| s.to_string()).collect();
    Config::parse(&args, false, false)
}

#[test]
fn option_parsing_covers_aliases_and_messages() {
    let config = parse(&["-lR", "--sort=mtime", "--type", "symlink", "--format", "json", "a"])
        .expect("parse");
    assert!(config.long && config.recursive);
    assert_eq!(config.sort, SortKey::Time);
    assert_eq!(config.type_filter, Some(TypeFilter::Link));
    assert_eq!(config.output, OutputMode::Json);
    assert_eq!(config.paths, vec!["a".to_string()]);
    assert!(matches!(parse(&["-h"]), Err(CliError::Help)));
    assert!(matches!(parse(&["--version"]), Err(CliError::Version)));
    assert!(matches!(parse(&["--bogus"]), Err(CliError::Usage(m)) if m == "unknown option '--bogus'"));
    assert!(matches!(parse(&["-q"]), Err(CliError::Usage(m)) if m == "unknown option '-q'"));
    assert!(matches!(parse(&["--sort"]), Err(CliError::Usage(m)) if m == "option '--sort' requires a value"));
    assert!(matches!(parse(&["--max-depth", "x"]),
        Err(CliError::Usage(m)) if m == "option '--max-depth' expects a non-negative integer"));
    assert!(matches!(parse(&["--format", "xml"]),
        Err(CliError::Usage(m)) if m == "unsupported format 'xml' (expected plain, table, csv, json, or yaml)"));
    assert!(matches!(parse(&["--time-format", "iso8601"]), Ok(c) if c.time_format == TimeFormat::Iso));
    let defaults = parse(&[]).expect("defaults");
    assert_eq!(defaults.paths, vec![".".to_string()]);
    assert_eq!(defaults.output, OutputMode::Plain);
    assert!(!defaults.color);
    let on_terminal = Config::parse(&Vec::new(), true, false).expect("terminal");
    assert_eq!(on_terminal.output, OutputMode::Table);
    assert!(on_terminal.color);
    let no_color = Config::parse(&vec!["--color".to_string()], true, true).expect("forced");
    assert!(no_color.color);
}

#[test]
fn wildcards_work_on_bytes() {
    assert!(wildcard_match("*", ""));
    assert!(wildcard_match("a*b*c", "aXXbYc"));
    assert!(!wildcard_match("a*b*c", "aXXbY"));
    assert!(wildcard_match("?", "é") == false);
    assert!(wildcard_match("??", "é"));
}

#[test]
fn ignore_rules_parse_negation_and_directories() {
    let base = "/repo".to_string();
    let rule = parse_ignore_rule(&base, &"! build/ ".chars().collect()).expect("rule");
    assert!(rule.negated && rule.dir_only && !rule.has_slash);
    assert_eq!(rule.pattern, "build");
    assert!(parse_ignore_rule(&base, &"# note".chars().collect()).is_none());
    assert!(parse_ignore_rule(&base, &"///".chars().collect()).is_none());
    let rules = rules_from_gitignore(&base, "target\r\n\n*.log\ndocs/api\n");
    assert_eq!(rules.len(), 3);
    assert!(rules[2].has_slash);
}

#[test]
fn hidden_names_exclude_dot_entries() {
    assert!(is_hidden_name(".git"));
    assert!(!is_hidden_name("."));
    assert!(!is_hidden_name(".."));
    assert!(!is_hidden_name("visible"));
}

#[test]
fn kinds_and_permissions() {
    assert_eq!(entry_kind(true, false, false, false, None), EntryKind::BrokenLink);
    assert_eq!(entry_kind(false, false, false, true, Some(0o755)), EntryKind::Executable);
    assert_eq!(entry_kind(false, false, false, true, Some(0o644)), EntryKind::File);
    assert_eq!(entry_kind(false, false, false, true, None), EntryKind::File);
    let mut e = entry("x", EntryKind::Dir, 0);
    e.mode = Some(0o751);
    assert_eq!(permissions(&e), "drwxr-x--x");
    e.mode = None;
    assert_eq!(permissions(&e), "N/A");
}

#[test]
fn times_and_offsets() {
    assert_eq!(format_offset(None), "Z");
    assert_eq!(format_offset(Some(-19800)), "-05:30");
    assert_eq!(format_offset(Some(3600)), "+01:00");
    let parts = TimeParts {
        year: 2024,
        month: 3,
        day: 9,
        hour: 7,
        minute: 5,
        second: 1,
        utc_offset_seconds: Some(0),
    };
    let t = Some(Timestamp { secs: 10, nanos: 0 });
    assert_eq!(format_time(t, Some(parts), TimeFormat::Local), "2024-03-09 07:05");
    assert_eq!(format_time(t, Some(parts), TimeFormat::Iso), "2024-03-09T07:05:01+00:00");
    assert_eq!(format_time(Some(Timestamp { secs: -2, nanos: 500_000_000 }), None, TimeFormat::Iso), "-1");
    assert_eq!(format_time(None, None, TimeFormat::Iso), "N/A");
}

#[test]
fn sizes_match_binary64_formatting() {
    let units = ["B", "KB", "MB", "GB", "TB"];
    let mut samples: Vec<u64> = vec![1, 1023, 1024, 10239, 10240, 10752, 1_048_575, u64::MAX];
    let mut x: u64 = 0x2545_F491_4F6C_DD1D;
    for _ in 0..2000 {
        x ^= x << 13;
        x ^= x >> 7;
        x ^= x << 17;
        samples.push(x >> (x % 64));
    }
    for size in samples {
        let mut value = size as f64;
        let mut unit = 0;
        while value >= 1024.0 && unit < units.len() - 1 {
            value /= 1024.0;
            unit += 1;
        }
        let expected = if unit == 0 {
            format!("{size} B")
        } else if value >= 10.0 {
            format!("{value:.0} {}", units[unit])
        } else {
            format!("{value:.1} {}", units[unit])
        };
        assert_eq!(format_size(Some(size), false), expected, "size {size}");
    }
}

#[test]
fn json_escape_writes_control_characters_as_unicode() {
    assert_eq!(json_escape("a\"b\\\n\u{1}\u{7f}é"), "a\\\"b\\\\\\n\\u0001\\u007fé");
}

fn entry(name: &str, kind: EntryKind, size: u64) -> Entry {
    Entry {
        path: format!("dir/{name}"),
        name: name.to_string(),
        kind,
        size: Some(size),
        modified: None,
        local_time: None,
        mode: None,
        links: None,
        owner: None,
        group: None,
        sensitive: false,
        git_state: None,
    }
}

#[test]
fn sorting_by_size_breaks_ties_by_name_and_reverses_only_the_key() {
    let mut config = parse(&["-S", "-r"]).expect("parse");
    let mut entries = vec![entry("b", EntryKind::File, 5), entry("a", EntryKind::File, 5), entry("c", EntryKind::File, 9)];
    sort_entries(&mut entries, &config);
    let names: Vec<&str> = entries.iter().map(|e| e.name.as_str()).collect();
    assert_eq!(names, vec!["c", "a", "b"]);
    config.sort = SortKey::Extension;
    config.reverse = false;
    assert!(compare_entries(&entry("x.RS", EntryKind::File, 0), &entry("a.txt", EntryKind::File, 0), &config) < 0);
}

#[test]
fn summary_counts_kinds_and_saturates_bytes() {
    let mut summary = Summary::default();
    summary.add(&entry("f", EntryKind::File, u64::MAX));
    summary.add(&entry("g", EntryKind::Executable, 3));
    summary.add(&entry("d", EntryKind::Dir, 100));
    summary.add(&entry("l", EntryKind::BrokenLink, 1));
    assert_eq!(summary.files, 2);
    assert_eq!(summary.dirs, 1);
    assert_eq!(summary.links, 1);
    assert_eq!(summary.bytes, u64::MAX);
    let config = parse(&["--bytes"]).expect("parse");
    assert_eq!(
        render_summary(&summary, &config),
        format!("\nsummary: files=2 dirs=1 links=1 others=0 size={}\n", u64::MAX)
    );
}

#[test]
fn renders_tables_and_structured_outputs() {
    let sections = vec![Section {
        title: Some("dir".to_string()),
        entries: vec![entry("a.rs", EntryKind::File, 2048), entry("sub", EntryKind::Dir, 0)],
    }];
    let colors = ColorConfig::from_env(false, None);
    let table = render(&sections, &parse(&[]).map(|mut c| { c.output = OutputMode::Table; c }).unwrap(), &colors);
    assert_eq!(
        table,
        "T  NAME  SIZE    MODIFIED\nF  a.rs  2.0 KB  N/A     \nD  sub   0 B     N/A     \n"
    );
    let json = render(&sections, &parse(&["--output", "json"]).unwrap(), &colors);
    assert!(json.starts_with("[\n  {\"path\":\"dir/a.rs\",\"type\":\"file\""));
    assert!(json.ends_with("\"git_status\":\"-\"}\n]\n"));
    let empty = render(&Vec::new(), &parse(&["--output", "json"]).unwrap(), &colors);
    assert_eq!(empty, "[\n]\n");
    let csv = render(&sections, &parse(&["--output", "csv"]).unwrap(), &colors);
    assert_eq!(
        csv,
        "path,type,name,size,modified,sensitive,git_status\ndir/a.rs,file,a.rs,2048,N/A,false,-\ndir/sub,dir,sub,0,N/A,false,-\n"
    );
    let plain = render(&sections, &parse(&["-R"]).unwrap(), &colors);
    assert_eq!(plain, "dir/a.rs\ndir/sub\n");
}

#[test]
fn colors_come_from_ls_colors_with_later_keys_winning() {
    let colors = ColorConfig::from_env(true, Some("di=34:*.rs=31:bad::di=35:=1".to_string()));
    let config = parse(&["--icon"]).unwrap();
    let sections = vec![Section {
        title: None,
        entries: vec![entry("main.rs", EntryKind::File, 1), entry("src", EntryKind::Dir, 1)],
    }];
    let plain = render(&sections, &config, &colors);
    assert_eq!(
        plain,
        "\u{1b}[31m🦀 main.rs\u{1b}[0m\n\u{1b}[35m📁 src\u{1b}[0m\n"
    );
}

fn facts(is_dir: bool, len: u64) -> lsef::lister::walk::EntryFacts {
    lsef::lister::walk::EntryFacts {
        is_symlink: false,
        target_exists: true,
        is_dir,
        is_file: !is_dir,
        mode: Some(0o644),
        len,
        modified: None,
        local_time: None,
        links: Some(1),
        owner: None,
        group: None,
        git_state: None,
    }
}

fn item(dir: &str, name: &str, is_dir: bool) -> Result<ItemFacts, String> {
    Ok(ItemFacts {
        path: format!("{dir}/{name}"),
        name: name.to_string(),
        ignore: None,
        entry: Some(facts(is_dir, 4)),
    })
}

#[test]
fn walk_visits_subdirectories_by_name_and_reports_failures() {
    let config = parse(&["-R", "top", "missing"]).expect("parse");
    let mut walk = Walk::new(config);
    assert_eq!(walk.step(), Step::Inspect("top".to_string()));
    walk.inspect(Ok(PathFacts { is_dir: true, entry: None }));
    assert_eq!(walk.step(), Step::ReadDirectory { path: "top".to_string(), depth: 0 });
    walk.read_directory(Ok(vec![
        item("top", "zz", true),
        item("top", ".hidden", false),
        item("top", "aa", true),
        item("top", "f.txt", false),
        Err("interrupted".to_string()),
        Ok(ItemFacts { path: "top/gone".to_string(), name: "gone".to_string(), ignore: None, entry: None }),
    ]));
    assert_eq!(walk.step(), Step::ReadDirectory { path: "top/aa".to_string(), depth: 1 });
    walk.read_directory(Ok(Vec::new()));
    assert_eq!(walk.step(), Step::ReadDirectory { path: "top/zz".to_string(), depth: 1 });
    walk.read_directory(Err("permission denied".to_string()));
    assert_eq!(walk.step(), Step::Inspect("missing".to_string()));
    walk.inspect(Err("not found".to_string()));
    assert_eq!(walk.step(), Step::Finished);
    let (sections, summary, had_error, messages) = walk.finish();
    let titles: Vec<Option<String>> = sections.iter().map(|s| s.title.clone()).collect();
    assert_eq!(
        titles,
        vec![Some("top".to_string()), Some("top/aa".to_string()), Some("top/zz".to_string())]
    );
    let names: Vec<&str> = sections[0].entries.iter().map(|e| e.name.as_str()).collect();
    assert_eq!(names, vec!["zz", "aa", "f.txt"]);
    assert_eq!(summary.dirs, 2);
    assert_eq!(summary.files, 1);
    assert_eq!(summary.bytes, 4);
    assert!(had_error);
    assert_eq!(
        messages,
        vec![
            "lsef: top: interrupted".to_string(),
            "lsef: top/gone: could not read metadata".to_string(),
            "lsef: top/zz: permission denied".to_string(),
            "lsef: missing: not found".to_string(),
        ]
    );
}

#[test]
fn walk_consults_ignore_files_only_with_all() {
    let ignored_item = |name: &str| {
        Ok(ItemFacts {
            path: format!("/r/{name}"),
            name: name.to_string(),
            ignore: Some(IgnoreFacts {
                is_dir: false,
                dirs: vec!["/".to_string(), "/r".to_string()],
                contents: vec![None, Some("*.log\n".to_string())],
                read_errors: vec!["/.gitignore: denied".to_string()],
            }),
            entry: Some(facts(false, 1)),
        })
    };
    let config = parse(&["-a", "--debug", "/r"]).expect("parse");
    let mut walk = Walk::new(config);
    walk.inspect(Ok(PathFacts { is_dir: true, entry: None }));
    walk.read_directory(Ok(vec![ignored_item("x.log"), ignored_item("x.txt")]));
    let (sections, _, had_error, messages) = walk.finish();
    let names: Vec<&str> = sections[0].entries.iter().map(|e| e.name.as_str()).collect();
    assert_eq!(names, vec!["x.txt"]);
    assert!(!had_error);
    assert_eq!(
        messages,
        vec![
            "lsef: /.gitignore: denied".to_string(),
            "lsef debug: gitignore *.log matched /r/x.log".to_string(),
            "lsef: /.gitignore: denied".to_string(),
        ]
    );

    let config = parse(&["/r"]).expect("parse");
    let mut walk = Walk::new(config);
    walk.inspect(Ok(PathFacts { is_dir: true, entry: None }));
    walk.read_directory(Ok(vec![ignored_item("x.log")]));
    let (sections, _, _, messages) = walk.finish();
    assert_eq!(sections[0].entries.len(), 1);
    assert!(messages.is_empty());
}

#[test]
fn format_and_output_choose_the_same_modes() {
    for mode in ["table", "plain", "csv", "json", "yaml"] {
        let by_format = parse(&["--format", mode]).expect("format");
        let by_output = parse(&["--output", mode]).expect("output");
        assert_eq!(by_format.output, by_output.output);
    }
    assert!(matches!(parse(&["--output", "xml"]),
        Err(CliError::Usage(m)) if m == "unsupported output mode 'xml' (expected plain, table, csv, json, or yaml)"));
}

#[test]
fn every_parse_names_a_path() {
    assert_eq!(parse(&["-l"]).expect("flags").paths, vec![".".to_string()]);
    assert_eq!(parse(&["--"]).expect("separator").paths, vec![".".to_string()]);
    assert_eq!(parse(&["--", "-x"]).expect("dash path").paths, vec!["-x".to_string()]);
}

#[test]
fn secret_names_are_found_in_any_case() {
    assert!(is_sensitive_name("ID_RSA"));
    assert!(is_sensitive_name("Server.PEM"));
    assert!(is_sensitive_name("MyPassWord.txt"));
    assert_eq!(is_sensitive_name("README.md"), is_sensitive_name("readme.md"));
}

#[test]
fn whole_all_shows_hidden_and_ignored_names() {
    let plain = parse(&[]).expect("defaults");
    assert!(should_skip_entry(".git", &plain, false));
    let all = parse(&["-a"]).expect("all");
    assert!(!should_skip_entry(".git", &all, false));
    assert!(should_skip_entry("build.log", &all, true));
    let whole = parse(&["-A"]).expect("whole");
    assert!(!should_skip_entry(".git", &whole, true));
    assert!(!should_skip_entry("build.log", &whole, true));
}

#[test]
fn walk_stops_descending_at_the_depth_limit() {
    let config = parse(&["-R", "--max-depth", "1", "top"]).expect("parse");
    let mut walk = Walk::new(config);
    walk.inspect(Ok(PathFacts { is_dir: true, entry: None }));
    walk.read_directory(Ok(vec![item("top", "a", true)]));
    assert_eq!(walk.step(), Step::ReadDirectory { path: "top/a".to_string(), depth: 1 });
    walk.read_directory(Ok(vec![item("top/a", "b", true)]));
    assert_eq!(walk.step(), Step::Finished);
    let (sections, _, _, _) = walk.finish();
    assert_eq!(sections.len(), 2);
    assert_eq!(sections[1].entries.len(), 1);
    let flat = parse(&["top"]).expect("flat");
    let mut walk = Walk::new(flat);
    walk.inspect(Ok(PathFacts { is_dir: true, entry: None }));
    walk.read_directory(Ok(vec![item("top", "a", true)]));
    assert_eq!(walk.step(), Step::Finished);
}

#[test]
fn sorts_keep_tied_items_in_their_order() {
    let config = parse(&["-S"]).expect("parse");
    let mut first = entry("same", EntryKind::File, 5);
    first.path = "one/same".to_string();
    let mut second = entry("same", EntryKind::File, 5);
    second.path = "two/same".to_string();
    let mut entries = vec![first, entry("big", EntryKind::File, 9), second];
    sort_entries(&mut entries, &config);
    let paths: Vec<&str> = entries.iter().map(|e| e.path.as_str()).collect();
    assert_eq!(paths, vec!["one/same", "two/same", "dir/big"]);
    let mut dirs = vec!["y/n".to_string(), "b".to_string(), "x/n".to_string(), "a".to_string()];
    sort_paths_by_name(&mut dirs);
    assert_eq!(dirs, vec!["a", "b", "y/n", "x/n"]);
}

#[test]
fn clock_fields_become_time_parts() {
    let parts = lsef::lister::entries::parts_from_clock(124, 0, 31, 23, 59, 58, 32_400);
    assert_eq!((parts.year, parts.month, parts.day), (2024, 1, 31));
    assert_eq!((parts.hour, parts.minute, parts.second), (23, 59, 58));
    assert_eq!(parts.utc_offset_seconds, Some(32_400));
}

#[test]
fn git_search_walks_up_to_the_repository() {
    assert_eq!(git_search_start(&"repo/src/main.rs".to_string(), false), Some("repo/src".to_string()));
    assert_eq!(git_search_start(&"repo/src".to_string(), true), Some("repo/src".to_string()));
    assert_eq!(git_search_step(&"repo/src".to_string(), false), GitStep::Next("repo".to_string()));
    assert_eq!(git_search_step(&"repo".to_string(), true), GitStep::Found("repo".to_string()));
    assert_eq!(git_search_step(&"/".to_string(), false), GitStep::NotFound);
    assert_eq!(git_state_text(true), Some("-".to_string()));
    assert_eq!(git_state_text(false), None);
}
