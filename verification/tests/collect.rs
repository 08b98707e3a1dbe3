use lsef::args::{parse_args, Config};
use lsef::collect::{
    is_sensitive_name, parse_ignore_patterns, wildcard_matches, Collector, DirectoryRead,
    RawItem, RawMeta, Request,
};
use lsef::format_errors;
use lsef::model::{totals_fit, FileKind};
use lsef::run;

fn config(list: &[&str]) -> Config {
    let args: Vec<String> = list.iter().map(|s| s.to_string()).collect();
    parse_args(&args).expect("parse")
}

fn file(len: u64) -> RawMeta {
    RawMeta {
        is_symlink: false,
        target_exists: false,
        is_dir: false,
        is_file: true,
        mode: 0o644,
        len,
        modified: None,
    }
}

fn dir() -> RawMeta {
    RawMeta {
        is_dir: true,
        is_file: false,
        ..file(0)
    }
}

fn item(parent: &str, name: &str, meta: RawMeta) -> Result<RawItem, String> {
    Ok(RawItem {
        name: name.to_string(),
        path: format!("{parent}/{name}"),
        meta: Some(meta),
    })
}

#[test]
fn successful_run_returns_stdout_without_stderr() {
    let config = config(&["lsef", "--output", "plain", "Cargo.toml"]);
    let mut collector = Collector::new(config.clone());
    assert_eq!(collector.request(), Request::Inspect("Cargo.toml".to_string()));
    collector.collect_path(Ok(file(10)));
    assert_eq!(collector.request(), Request::Finished);
    let listing = collector.finish();
    let result = run(&listing, &config);
    assert_eq!(result.code, 0);
    assert_eq!(result.stderr, "");
    assert_eq!(result.stdout, "Cargo.toml\n");
}

#[test]
fn missing_paths_are_reported_without_panic() {
    let config = config(&["lsef", "definitely-missing-lsef-path"]);
    let mut collector = Collector::new(config.clone());
    collector.collect_path(Err("No such file or directory (os error 2)".to_string()));
    let listing = collector.finish();
    let result = run(&listing, &config);
    assert_eq!(result.code, 1);
    assert!(result.stderr.contains("definitely-missing-lsef-path"));
    assert_eq!(
        result.stderr,
        "definitely-missing-lsef-path: No such file or directory (os error 2)\n"
    );
}

#[test]
fn directories_are_filtered_sorted_and_walked_depth_first() {
    let config = config(&["lsef", "-R", "--max-depth", "1", "--all", "top"]);
    let mut collector = Collector::new(config.clone());
    collector.collect_path(Ok(dir()));
    assert_eq!(
        collector.request(),
        Request::ReadDirectory { path: "top".to_string(), with_ignore_file: true, depth: 0 }
    );
    collector.collect_directory(DirectoryRead {
        ignore_text: "*.log\n# comment\nbuild/\n".to_string(),
        items: Some(vec![
            item("top", "zeta", dir()),
            item("top", "b.txt", file(3)),
            item("top", ".hidden", file(1)),
            item("top", "run.log", file(1)),
            item("top", "build", dir()),
            item("top", "alpha", dir()),
            Err("permission denied".to_string()),
            Ok(RawItem { name: "gone".to_string(), path: "top/gone".to_string(), meta: None }),
        ]),
    });
    assert_eq!(
        collector.request(),
        Request::ReadDirectory { path: "top/alpha".to_string(), with_ignore_file: true, depth: 1 }
    );
    collector.collect_directory(DirectoryRead {
        ignore_text: String::new(),
        items: Some(vec![item("top/alpha", "inner", dir())]),
    });
    assert_eq!(
        collector.request(),
        Request::ReadDirectory { path: "top/zeta".to_string(), with_ignore_file: true, depth: 1 }
    );
    collector.collect_directory(DirectoryRead { ignore_text: String::new(), items: None });
    assert_eq!(collector.request(), Request::Finished);
    let listing = collector.finish();
    let names: Vec<Vec<&str>> = listing
        .sections
        .iter()
        .map(|s| s.entries.iter().map(|e| e.name.as_str()).collect())
        .collect();
    assert_eq!(names, vec![vec![".hidden", "alpha", "b.txt", "zeta"], vec!["inner"], vec![]]);
    assert_eq!(listing.sections[2].path, "top/zeta");
    assert_eq!(
        listing.errors,
        vec!["permission denied".to_string(), "cannot read directory: top/zeta".to_string()]
    );
    assert_eq!(listing.summary.directories, 3);
    assert_eq!(listing.summary.files, 2);
    assert_eq!(listing.summary.total_size, 4);
    let result = run(&listing, &config);
    assert_eq!(result.code, 1);
}

#[test]
fn whole_all_keeps_ignored_entries_and_hidden_needs_all() {
    let config = config(&["lsef", "-A", "d"]);
    let mut collector = Collector::new(config);
    collector.collect_path(Ok(dir()));
    assert_eq!(
        collector.request(),
        Request::ReadDirectory { path: "d".to_string(), with_ignore_file: false, depth: 0 }
    );
    collector.collect_directory(DirectoryRead {
        ignore_text: "*".to_string(),
        items: Some(vec![item("d", "x", file(1)), item("d", ".y", file(1))]),
    });
    let listing = collector.finish();
    assert_eq!(listing.sections[0].entries.len(), 2);

    let plain = self::config(&["lsef", "d"]);
    let mut collector = Collector::new(plain);
    collector.collect_path(Ok(dir()));
    collector.collect_directory(DirectoryRead {
        ignore_text: String::new(),
        items: Some(vec![item("d", "x", file(1)), item("d", ".y", file(1)), item("d", "sub", dir())]),
    });
    assert_eq!(collector.request(), Request::Finished);
    let listing = collector.finish();
    assert_eq!(listing.sections.len(), 1);
    assert_eq!(listing.sections[0].entries.len(), 2);
}

#[test]
fn single_files_are_listed_under_their_parent_and_filtered_by_type() {
    let config = config(&["lsef", "--type", "dir", "a/b.txt", "c"]);
    let mut collector = Collector::new(config);
    collector.collect_path(Ok(file(5)));
    assert_eq!(collector.request(), Request::Inspect("c".to_string()));
    let link = RawMeta { is_symlink: true, target_exists: false, ..file(0) };
    collector.collect_path(Ok(link));
    let listing = collector.finish();
    assert!(listing.sections.is_empty());

    let config = self::config(&["lsef", "a/b.txt", "secret.env"]);
    let mut collector = Collector::new(config);
    collector.collect_path(Ok(file(5)));
    collector.collect_path(Ok(RawMeta { mode: 0o755, ..file(1) }));
    let listing = collector.finish();
    assert_eq!(listing.sections[0].path, "a");
    assert_eq!(listing.sections[0].entries[0].name, "b.txt");
    assert_eq!(listing.sections[1].path, "");
    assert_eq!(listing.sections[1].entries[0].kind, FileKind::Executable);
    assert!(listing.sections[1].entries[0].sensitive);
    assert!(totals_fit(&listing.sections));
}

#[test]
fn sensitive_names_ignore_ascii_case() {
    assert!(is_sensitive_name(".ENV"));
    assert!(is_sensitive_name("my_Password.txt"));
    assert!(is_sensitive_name("Id_Ed25519"));
    assert!(!is_sensitive_name("id_rsa.pub"));
    assert!(!is_sensitive_name("notes.md"));
}

#[test]
fn wildcard_patterns_with_one_star() {
    let w = |p: &str, n: &str| wildcard_matches(&p.chars().collect(), &n.chars().collect());
    assert!(w("*", "anything"));
    assert!(w("*.log", "a.log"));
    assert!(w("a*a", "a"));
    assert!(w("pre*", "prefix"));
    assert!(!w("*.log", "a.txt"));
    assert!(w("exact", "exact"));
    assert!(!w("exact", "exact2"));
}

#[test]
fn ignore_patterns_skip_comments_negations_and_blank_lines() {
    let patterns = parse_ignore_patterns("  target/  \r\n!keep\n#c\n\n/docs/\n*.tmp");
    let texts: Vec<(&str, bool)> = patterns.iter().map(|p| (p.text.as_str(), p.dir_only)).collect();
    assert_eq!(texts, vec![("target", true), ("docs", true), ("*.tmp", false)]);
}

#[test]
fn errors_are_joined_one_per_line() {
    assert_eq!(format_errors(&Vec::new()), "");
    assert_eq!(format_errors(&vec!["a".to_string(), "b".to_string()]), "a\nb\n");
}

#[test]
fn help_exits_successfully() {
    let args: Vec<String> = vec!["lsef".to_string(), "--help".to_string()];
    let result = parse_args(&args).expect_err("help").into_result();
    assert_eq!(result.code, 0);
    assert!(result.stdout.contains("lsef [OPTIONS] [PATH ...]"));
    assert!(result.stderr.is_empty());
}

#[test]
fn plain_output_lists_directory_entries() {
    let config = config(&["lsef", "--output", "plain", "plain-cli"]);
    let mut collector = Collector::new(config.clone());
    collector.collect_path(Ok(dir()));
    collector.collect_directory(DirectoryRead {
        ignore_text: String::new(),
        items: Some(vec![item("plain-cli", "visible.txt", file(7))]),
    });
    assert_eq!(collector.request(), Request::Finished);
    let result = run(&collector.finish(), &config);
    assert_eq!(result.code, 0);
    assert_eq!(result.stdout, "visible.txt\n");
    assert!(result.stderr.is_empty());
}

#[test]
fn missing_path_exits_with_error() {
    let config = config(&["lsef", "definitely-missing-lsef-cli-path"]);
    let mut collector = Collector::new(config.clone());
    collector.collect_path(Err("No such file or directory (os error 2)".to_string()));
    let result = run(&collector.finish(), &config);
    assert_eq!(result.code, 1);
    assert!(result.stdout.is_empty());
    assert!(result.stderr.contains("definitely-missing-lsef-cli-path"));
}

#[test]
fn sorting_keeps_tied_entries_in_their_order() {
    let config = config(&["lsef", "--sort", "size", "d"]);
    let make = |path: &str, size: u64| lsef::model::Entry {
        path: path.to_string(),
        name: "same".to_string(),
        kind: FileKind::File,
        size,
        modified: None,
        sensitive: false,
    };
    let mut entries = vec![make("p/same", 4), make("q/same", 2), make("r/same", 4)];
    lsef::collect::sort_entries(&mut entries, &config);
    let paths: Vec<&str> = entries.iter().map(|e| e.path.as_str()).collect();
    assert_eq!(paths, vec!["q/same", "p/same", "r/same"]);
}
