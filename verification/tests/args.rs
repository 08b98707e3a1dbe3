use lsef::args::{parse_args, CliError, Config, OutputMode, SortKey, TimeFormat, TypeFilter};

fn parse(list: &[&str]) -> Result<Config, CliError> {
    let args: Vec<String> = list.iter().map(|s| s.to_string()).collect();
    parse_args(&args)
}

#[test]
fn defaults_to_current_directory() {
    let config = parse(&["lsef"]).expect("parse defaults");
    assert_eq!(config.paths, vec![".".to_string()]);
}

#[test]
fn parses_short_flags_and_paths() {
    let config = parse(&["lsef", "-alr", "src"]).expect("parse short flags");
    assert!(config.include_hidden);
    assert!(config.long);
    assert!(config.reverse);
    assert_eq!(config.paths, vec!["src".to_string()]);
}

#[test]
fn parses_value_options() {
    let config = parse(&[
        "lsef",
        "--sort=size",
        "--max-depth",
        "2",
        "--time-format",
        "iso",
        "--output",
        "json",
    ])
    .expect("parse value options");
    assert_eq!(config.sort_key, SortKey::Size);
    assert_eq!(config.max_depth, Some(2));
    assert_eq!(config.time_format, TimeFormat::Iso);
    assert_eq!(config.output, OutputMode::Json);
}

#[test]
fn treats_arguments_after_double_dash_as_paths() {
    let config = parse(&["lsef", "--", "-looks-like-option"]).expect("parse paths");
    assert_eq!(config.paths, vec!["-looks-like-option".to_string()]);
}

#[test]
fn parses_long_flags() {
    let config = parse(&[
        "lsef",
        "--whole-all",
        "--long",
        "--reverse",
        "--recursive",
        "--bytes",
        "--icon",
        "--summary",
        "--sensitive",
    ])
    .expect("parse long flags");
    assert!(config.include_hidden);
    assert!(config.include_ignored);
    assert!(config.long);
    assert!(config.reverse);
    assert!(config.recursive);
    assert!(config.bytes);
    assert!(config.icon);
    assert!(config.summary);
    assert!(config.sensitive);
}

#[test]
fn parses_all_without_ignored_files() {
    let config = parse(&["lsef", "--all"]).expect("parse all");
    assert!(config.include_hidden);
    assert!(!config.include_ignored);
}

#[test]
fn parses_remaining_short_flags() {
    let config = parse(&["lsef", "-ARSt"]).expect("parse remaining short flags");
    assert!(config.include_hidden);
    assert!(config.include_ignored);
    assert!(config.recursive);
    assert_eq!(config.sort_key, SortKey::Time);
}

#[test]
fn parses_type_filter_values() {
    let file = parse(&["lsef", "--type", "file"]).expect("parse file type");
    let dir = parse(&["lsef", "--type", "dir"]).expect("parse dir type");
    let link = parse(&["lsef", "--type", "link"]).expect("parse link type");
    assert_eq!(file.type_filter, Some(TypeFilter::File));
    assert_eq!(dir.type_filter, Some(TypeFilter::Directory));
    assert_eq!(link.type_filter, Some(TypeFilter::Link));
}

#[test]
fn parses_format_alias_for_yaml() {
    let config = parse(&["lsef", "--format", "yaml"]).expect("parse yaml format");
    assert_eq!(config.output, OutputMode::Yaml);
}

#[test]
fn reports_invalid_sort_value() {
    let error = parse(&["lsef", "--sort", "unknown"]).expect_err("invalid sort");
    assert!(matches!(error, CliError::Message(_)));
}

#[test]
fn reports_missing_option_value() {
    let error = parse(&["lsef", "--sort"]).expect_err("missing value");
    assert!(matches!(error, CliError::Message(message) if message == "missing option value"));
}

#[test]
fn reports_unknown_long_option() {
    let error = parse(&["lsef", "--mystery"]).expect_err("unknown long option");
    assert!(matches!(error, CliError::Message(message) if message == "unknown option: --mystery"));
}

#[test]
fn reports_unknown_short_option() {
    let error = parse(&["lsef", "-z"]).expect_err("unknown short option");
    assert!(matches!(error, CliError::Message(message) if message == "unknown option: -z"));
}

#[test]
fn reports_invalid_time_format() {
    let error = parse(&["lsef", "--time-format", "clock"]).expect_err("invalid time");
    assert!(
        matches!(error, CliError::Message(message) if message == "invalid --time-format value: clock")
    );
}

#[test]
fn reports_invalid_output_format() {
    let error = parse(&["lsef", "--output", "xml"]).expect_err("invalid output");
    assert!(matches!(error, CliError::Message(message) if message == "invalid --output value: xml"));
}

#[test]
fn reports_invalid_type_filter() {
    let error = parse(&["lsef", "--type", "socket"]).expect_err("invalid type");
    assert!(matches!(error, CliError::Message(message) if message == "invalid --type value: socket"));
}

#[test]
fn reports_invalid_max_depth() {
    let error = parse(&["lsef", "--max-depth", "deep"]).expect_err("invalid depth");
    assert!(
        matches!(error, CliError::Message(message) if message == "invalid --max-depth value: deep")
    );
}

#[test]
fn help_returns_success_result() {
    let error = parse(&["lsef", "--help"]).expect_err("help");
    assert_eq!(error.into_result().code, 0);
}

#[test]
fn help_is_returned_as_stdout() {
    let result = parse(&["lsef", "--help"]).expect_err("help").into_result();
    assert_eq!(result.code, 0);
    assert!(result.stdout.contains("lsef [OPTIONS]"));
    assert!(result.stderr.is_empty());
}

#[test]
fn cli_argument_errors_use_code_two() {
    let result = parse(&["lsef", "--sort", "bad"]).expect_err("bad sort").into_result();
    assert_eq!(result.code, 2);
    assert!(result.stderr.contains("invalid --sort value"));
}

#[test]
fn message_errors_end_with_a_newline() {
    let result = parse(&["lsef", "-q"]).expect_err("unknown flag").into_result();
    assert_eq!(result.stderr, "unknown option: -q\n");
    assert_eq!(result.stdout, "");
}

#[test]
fn lone_dash_is_a_path_and_extra_dashes_name_long_options() {
    let config = parse(&["lsef", "-", "a"]).expect("dash path");
    assert_eq!(config.paths, vec!["-".to_string(), "a".to_string()]);
    let error = parse(&["lsef", "---x"]).expect_err("three dashes");
    assert!(matches!(error, CliError::Message(message) if message == "unknown option: ---x"));
}

#[test]
fn max_depth_accepts_plus_sign_and_rejects_overflow() {
    let config = parse(&["lsef", "--max-depth=+7"]).expect("plus sign");
    assert_eq!(config.max_depth, Some(7));
    let error = parse(&["lsef", "--max-depth", "99999999999999999999999"]).expect_err("overflow");
    assert!(matches!(error, CliError::Message(message)
        if message == "invalid --max-depth value: 99999999999999999999999"));
    assert!(parse(&["lsef", "--max-depth", "+"]).is_err());
    assert!(parse(&["lsef", "--max-depth", ""]).is_err());
}

#[test]
fn later_options_override_earlier_ones_and_inline_values_win() {
    let config = parse(&["lsef", "-S", "--sort=ext", "--output=csv", "x"]).expect("parse");
    assert_eq!(config.sort_key, SortKey::Extension);
    assert_eq!(config.output, OutputMode::Csv);
    assert_eq!(config.paths, vec!["x".to_string()]);
    let config = parse(&["lsef", "-A", "--all"]).expect("all after whole-all");
    assert!(config.include_hidden);
    assert!(!config.include_ignored);
}

#[test]
fn value_option_consumes_the_next_token_even_if_dashed() {
    let error = parse(&["lsef", "--sort", "--reverse"]).expect_err("dash value");
    assert!(matches!(error, CliError::Message(message) if message == "invalid --sort value: --reverse"));
}

#[test]
fn version_is_printed_with_success() {
    let result = parse(&["lsef", "--version"]).expect_err("version").into_result();
    assert_eq!(result.code, 0);
    assert_eq!(result.stdout, "lsef 0.1.0\n");
    assert!(result.stderr.is_empty());
    let help = parse(&["lsef", "--help"]).expect_err("help").into_result();
    assert!(help.stdout.contains("--version"));
}
