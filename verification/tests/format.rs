use lsef::args::{Config, OutputMode, TimeFormat};
use lsef::format::{csv_escape, format_listing, json_escape, yaml_scalar};
use lsef::model::{Entry, FileKind, Listing, Section, Summary, Timestamp};
use lsef::size::human_size;

#[test]
fn formats_human_size_boundaries() {
    assert_eq!(human_size(1023), "1023B");
    assert_eq!(human_size(1024), "1.0KB");
}

#[test]
fn escapes_csv_fields_with_commas() {
    assert_eq!(csv_escape("a,b"), "\"a,b\"");
}

#[test]
fn formats_json_listing() {
    let config = Config {
        output: OutputMode::Json,
        ..Config::default()
    };
    assert!(format_listing(&listing(), &config).contains("\"sections\""));
    assert!(!format_listing(&listing(), &config).contains("\"summary\""));
}

#[test]
fn formats_plain_listing() {
    let config = Config {
        output: OutputMode::Plain,
        ..Config::default()
    };
    assert_eq!(format_listing(&listing(), &config), "note.txt\n");
}

#[test]
fn formats_csv_listing() {
    let config = Config {
        output: OutputMode::Csv,
        ..Config::default()
    };
    let output = format_listing(&listing(), &config);
    assert!(output.starts_with("path,type,name,size,modified,sensitive\n"));
    assert!(output.contains(".,file,note.txt,7,N/A,false\n"));
}

#[test]
fn formats_yaml_listing() {
    let config = Config {
        output: OutputMode::Yaml,
        ..Config::default()
    };
    let output = format_listing(&listing(), &config);
    assert!(output.contains("sections:\n- path: .\n  entries:\n"));
    assert!(!output.contains("summary:\n"));
}

#[test]
fn formats_long_table_rows() {
    let config = Config {
        long: true,
        ..Config::default()
    };
    assert!(format_listing(&listing(), &config).starts_with("file"));
}

#[test]
fn formats_section_headings_for_multiple_sections() {
    let output = format_listing(&two_section_listing(), &Config::default());
    assert!(output.contains("left:\n"));
    assert!(output.contains("right:\n"));
}

#[test]
fn appends_plain_summary_when_requested() {
    let config = Config {
        summary: true,
        ..Config::default()
    };
    assert!(format_listing(&listing(), &config).contains("summary: files=1"));
}

#[test]
fn does_not_append_text_summary_to_csv() {
    let config = Config {
        output: OutputMode::Csv,
        summary: true,
        ..Config::default()
    };
    let output = format_listing(&listing(), &config);
    assert!(!output.contains("summary:"));
    assert_eq!(output.lines().count(), 2);
}

#[test]
fn includes_structured_summary_when_requested() {
    let json = format_listing(
        &listing(),
        &Config {
            output: OutputMode::Json,
            summary: true,
            ..Config::default()
        },
    );
    assert!(json.contains("\"summary\""));

    let yaml = format_listing(
        &listing(),
        &Config {
            output: OutputMode::Yaml,
            summary: true,
            ..Config::default()
        },
    );
    assert!(yaml.contains("summary:\n  files: 1\n"));
}

#[test]
fn formats_raw_byte_sizes() {
    let config = Config {
        bytes: true,
        ..Config::default()
    };
    assert!(format_listing(&listing(), &config).contains("7  N/A"));
}

#[test]
fn marks_sensitive_entries_only_when_requested() {
    let config = Config {
        sensitive: true,
        ..Config::default()
    };
    let output = format_listing(&sensitive_listing(), &config);
    assert!(output.contains(".env !"));
}

#[test]
fn applies_extension_color_from_ls_colors() {
    let config = Config {
        color_spec: Some("*.txt=32".to_string()),
        ..Config::default()
    };
    let output = format_listing(&listing(), &config);
    assert!(output.contains("\x1b[32mnote.txt\x1b[0m"));
}

#[test]
fn applies_icons_by_file_kind() {
    let config = Config {
        icon: true,
        ..Config::default()
    };
    let output = format_listing(&kind_listing(), &config);
    assert!(output.contains("[D] dir"));
    assert!(output.contains("[L] link"));
    assert!(output.contains("[X] run"));
    assert!(output.contains("[F] note.txt"));
}

#[test]
fn applies_kind_colors_from_ls_colors() {
    let config = Config {
        color_spec: Some("di=34:ln=36:ex=31".to_string()),
        ..Config::default()
    };
    let output = format_listing(&kind_listing(), &config);
    assert!(output.contains("\x1b[34mdir\x1b[0m"));
    assert!(output.contains("\x1b[36mlink\x1b[0m"));
    assert!(output.contains("\x1b[31mrun\x1b[0m"));
}

#[test]
fn leaves_simple_csv_fields_unquoted() {
    assert_eq!(csv_escape("plain"), "plain");
}

#[test]
fn escapes_json_string_characters() {
    assert_eq!(json_escape("\"\\\n\r\t"), "\\\"\\\\\\n\\r\\t");
}

#[test]
fn formats_yaml_scalars() {
    assert_eq!(yaml_scalar("src/main.rs"), "src/main.rs");
    assert_eq!(yaml_scalar("two words"), "\"two words\"");
    assert_eq!(yaml_scalar("say\"hi"), "\"say\\\"hi\"");
}

#[test]
fn formats_empty_listing_without_newline() {
    let output = format_listing(&empty_listing(), &Config::default());
    assert!(output.is_empty());
}

#[test]
fn human_size_matches_binary64_formatting() {
    let units = ["B", "KB", "MB", "GB", "TB"];
    let mut samples: Vec<u64> = vec![
        0,
        1,
        1023,
        1024,
        1075,
        1126,
        1280,
        1536,
        10 * 1024 - 1,
        1024 * 1024 - 1,
        1024 * 1024,
        5 * 1024 * 1024 + 512 * 1024 + 51,
        u64::MAX,
        u64::MAX / 3,
        (1u64 << 53) + 1,
        (1u64 << 60) + 12345,
    ];
    let mut x: u64 = 0x9E37_79B9_7F4A_7C15;
    for _ in 0..2000 {
        x ^= x << 13;
        x ^= x >> 7;
        x ^= x << 17;
        samples.push(x >> (x % 64));
    }
    for size in samples {
        let mut amount = size as f64;
        let mut index = 0;
        while amount >= 1024.0 && index < units.len() - 1 {
            amount /= 1024.0;
            index += 1;
        }
        let expected = if index == 0 {
            format!("{}B", amount as u64)
        } else {
            format!("{amount:.1}{}", units[index])
        };
        assert_eq!(human_size(size), expected, "size {size}");
    }
}

#[test]
fn csv_rows_follow_the_header_one_per_entry() {
    let config = Config {
        output: OutputMode::Csv,
        ..Config::default()
    };
    let output = format_listing(&kind_listing(), &config);
    assert_eq!(output.lines().count(), 5);
    assert!(output.contains(".,dir,dir,7,N/A,false\n"));
}

#[test]
fn plain_output_heads_each_of_several_sections() {
    let config = Config {
        output: OutputMode::Plain,
        ..Config::default()
    };
    let output = format_listing(&two_section_listing(), &config);
    assert_eq!(output, "left:\nnote.txt\nright:\nother.txt\n");
}

#[test]
fn iso_times_appear_in_structured_output() {
    let mut listing = listing();
    listing.sections[0].entries[0].modified = Some(Timestamp { secs: 3661, nanos: 0 });
    let config = Config {
        output: OutputMode::Csv,
        time_format: TimeFormat::Iso,
        ..Config::default()
    };
    let output = format_listing(&listing, &config);
    assert!(output.contains(".,file,note.txt,7,1970-01-01T01:01:01Z,false\n"));
}

fn listing() -> Listing {
    Listing {
        sections: vec![Section {
            path: ".".to_string(),
            entries: vec![entry()],
        }],
        summary: Summary {
            files: 1,
            directories: 0,
            total_size: 7,
        },
        errors: Vec::new(),
    }
}

fn two_section_listing() -> Listing {
    Listing {
        sections: vec![
            Section {
                path: "left".to_string(),
                entries: vec![entry()],
            },
            Section {
                path: "right".to_string(),
                entries: vec![entry_with("other.txt", FileKind::File)],
            },
        ],
        summary: Summary {
            files: 2,
            directories: 0,
            total_size: 14,
        },
        errors: Vec::new(),
    }
}

fn kind_listing() -> Listing {
    Listing {
        sections: vec![Section {
            path: ".".to_string(),
            entries: vec![
                entry_with("dir", FileKind::Directory),
                entry_with("link", FileKind::Symlink),
                entry_with("run", FileKind::Executable),
                entry(),
            ],
        }],
        summary: Summary {
            files: 3,
            directories: 1,
            total_size: 28,
        },
        errors: Vec::new(),
    }
}

fn empty_listing() -> Listing {
    Listing {
        sections: Vec::new(),
        summary: Summary::default(),
        errors: Vec::new(),
    }
}

fn entry() -> Entry {
    entry_with("note.txt", FileKind::File)
}

fn entry_with(name: &str, kind: FileKind) -> Entry {
    Entry {
        path: name.to_string(),
        name: name.to_string(),
        kind,
        size: 7,
        modified: None,
        sensitive: false,
    }
}

fn sensitive_listing() -> Listing {
    let mut listing = listing();
    listing.sections[0].entries[0].name = ".env".to_string();
    listing.sections[0].entries[0].sensitive = true;
    listing
}

#[test]
fn json_escape_writes_other_control_characters_as_unicode() {
    assert_eq!(json_escape("a\u{1}b"), "a\\u0001b");
    assert_eq!(json_escape("\u{0}\u{1f}\u{7f}"), "\\u0000\\u001f\u{7f}");
    assert_eq!(json_escape("tab\there\n"), "tab\\there\\n");
}

#[test]
fn local_times_follow_the_given_zone() {
    let mut listing = listing();
    listing.sections[0].entries[0].modified = Some(Timestamp { secs: 0, nanos: 0 });
    let config = Config {
        output: OutputMode::Csv,
        time_format: TimeFormat::Local,
        ..Config::default()
    };
    let tokyo = lsef::format::format_listing_in_zone(&listing, &config, &vec![vec![32_400]]);
    assert!(tokyo.contains(".,file,note.txt,7,1970-01-01 09:00,false\n"));
    let west = lsef::format::format_listing_in_zone(&listing, &config, &vec![vec![-3_600]]);
    assert!(west.contains(".,file,note.txt,7,1969-12-31 23:00,false\n"));
    let result = lsef::run_in_zone(&listing, &config, &vec![vec![32_400]]);
    assert_eq!(result.stdout, tokyo);
    assert_eq!(result.code, 0);
}

#[test]
fn summary_line_goes_only_after_text_outputs() {
    let summary = Summary { files: 2, directories: 1, total_size: 2048 };
    let plain = Config { output: OutputMode::Plain, summary: true, ..Config::default() };
    let mut text = "a\n".to_string();
    lsef::format::append_summary(&mut text, summary.clone(), &plain);
    assert_eq!(text, "a\nsummary: files=2 directories=1 size=2.0KB\n");
    for output in [OutputMode::Csv, OutputMode::Json, OutputMode::Yaml] {
        let config = Config { output, summary: true, ..Config::default() };
        let mut text = "a\n".to_string();
        lsef::format::append_summary(&mut text, summary.clone(), &config);
        assert_eq!(text, "a\n");
    }
}
