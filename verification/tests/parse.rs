use adsys_mount::{parse_entries, MountEntry};

fn entry(path: &str, anonymous: bool) -> MountEntry {
    MountEntry { mount_path: path.to_string(), is_anonymous: anonymous }
}

/// What the standard line iterator and prefix stripping make of `content`.
fn reference(content: &str) -> Vec<MountEntry> {
    let mut entries = Vec::new();
    for line in content.lines() {
        if line.is_empty() {
            continue;
        }
        entries.push(match line.strip_prefix("[anonymous]") {
            Some(rest) => entry(rest, true),
            None => entry(line, false),
        });
    }
    entries
}

#[test]
fn parses_plain_and_anonymous_lines() {
    let entries = parse_entries("smb://h/a\n[anonymous]smb://h/b\n\n");
    assert_eq!(entries, vec![entry("smb://h/a", false), entry("smb://h/b", true)]);
}

#[test]
fn empty_content_has_no_entries() {
    assert_eq!(parse_entries(""), Vec::<MountEntry>::new());
}

#[test]
fn blank_content_has_no_entries() {
    assert_eq!(parse_entries("\n"), Vec::<MountEntry>::new());
    assert_eq!(parse_entries("\n\n\n"), Vec::<MountEntry>::new());
    assert_eq!(parse_entries("\r\n\r\n"), Vec::<MountEntry>::new());
}

#[test]
fn last_line_needs_no_line_feed() {
    let entries = parse_entries("nfs://server/share\nsmb://server/other");
    assert_eq!(
        entries,
        vec![entry("nfs://server/share", false), entry("smb://server/other", false)]
    );
}

#[test]
fn single_line_without_line_feed() {
    assert_eq!(parse_entries("smb://h/a"), vec![entry("smb://h/a", false)]);
    assert_eq!(parse_entries("[anonymous]smb://h/a"), vec![entry("smb://h/a", true)]);
}

#[test]
fn blank_lines_between_entries_are_skipped() {
    let entries = parse_entries("\n\nsmb://h/a\n\n\n[anonymous]ftp://h/b\n\nsmb://h/c\n");
    assert_eq!(
        entries,
        vec![entry("smb://h/a", false), entry("ftp://h/b", true), entry("smb://h/c", false)]
    );
}

#[test]
fn carriage_return_before_line_feed_ends_the_line() {
    let entries = parse_entries("smb://h/a\r\n[anonymous]smb://h/b\r\n");
    assert_eq!(entries, vec![entry("smb://h/a", false), entry("smb://h/b", true)]);
}

#[test]
fn only_one_carriage_return_is_dropped() {
    assert_eq!(parse_entries("smb://h/a\r\r\n"), vec![entry("smb://h/a\r", false)]);
}

#[test]
fn carriage_return_alone_is_kept() {
    assert_eq!(parse_entries("smb://h/a\rsmb://h/b\n"), vec![entry("smb://h/a\rsmb://h/b", false)]);
    assert_eq!(parse_entries("smb://h/a\r"), vec![entry("smb://h/a\r", false)]);
    assert_eq!(parse_entries("\r"), vec![entry("\r", false)]);
}

#[test]
fn marker_counts_only_at_the_start() {
    assert_eq!(
        parse_entries("smb://h/[anonymous]a\n"),
        vec![entry("smb://h/[anonymous]a", false)]
    );
    assert_eq!(
        parse_entries(" [anonymous]smb://h/a\n"),
        vec![entry(" [anonymous]smb://h/a", false)]
    );
}

#[test]
fn marker_is_stripped_once() {
    assert_eq!(
        parse_entries("[anonymous][anonymous]smb://h/a\n"),
        vec![entry("[anonymous]smb://h/a", true)]
    );
}

#[test]
fn marker_must_be_complete_and_exact() {
    assert_eq!(parse_entries("[anonymous\n"), vec![entry("[anonymous", false)]);
    assert_eq!(parse_entries("[anonymou]s\n"), vec![entry("[anonymou]s", false)]);
    assert_eq!(parse_entries("[Anonymous]smb://h\n"), vec![entry("[Anonymous]smb://h", false)]);
    assert_eq!(parse_entries("[anonymous"), vec![entry("[anonymous", false)]);
}

#[test]
fn marker_alone_is_an_anonymous_entry_without_path() {
    assert_eq!(parse_entries("[anonymous]\n"), vec![entry("", true)]);
    assert_eq!(parse_entries("[anonymous]"), vec![entry("", true)]);
    assert_eq!(parse_entries("[anonymous]\r\n"), vec![entry("", true)]);
}

#[test]
fn lines_are_not_trimmed_or_validated() {
    assert_eq!(
        parse_entries("  not a uri  \n\t\n# note\n"),
        vec![entry("  not a uri  ", false), entry("\t", false), entry("# note", false)]
    );
}

#[test]
fn characters_outside_ascii_are_kept() {
    assert_eq!(
        parse_entries("smb://hôte/partagé\n[anonymous]smb://服务器/共享\r\n€"),
        vec![
            entry("smb://hôte/partagé", false),
            entry("smb://服务器/共享", true),
            entry("€", false)
        ]
    );
}

#[test]
fn entries_keep_the_order_of_the_lines() {
    let mut content = String::new();
    let mut expected = Vec::new();
    for i in 0..50 {
        if i % 3 == 0 {
            content.push_str(&format!("[anonymous]smb://host/{}\n", i));
            expected.push(entry(&format!("smb://host/{}", i), true));
        } else {
            content.push_str(&format!("smb://host/{}\n\n", i));
            expected.push(entry(&format!("smb://host/{}", i), false));
        }
    }
    assert_eq!(parse_entries(&content), expected);
}

#[test]
fn agrees_with_the_standard_line_iterator() {
    let samples = [
        "",
        "\n",
        "\r",
        "\r\n",
        "\n\r",
        "a",
        "a\n",
        "a\r\n",
        "a\r",
        "a\n\nb",
        "a\r\n\r\nb\r\n",
        "\r\r\n",
        "a\r\rb\r\n\rc",
        "[anonymous]",
        "[anonymous]\r",
        "[anonymous]\r\n[anonymous]x\n",
        "x[anonymous]\n[anonymous]\n\n[anonymous]y",
        "smb://h/a\n[anonymous]smb://h/b\n\n",
        "é\r\nü\n[anonymous]ß",
    ];
    for content in samples {
        assert_eq!(parse_entries(content), reference(content), "content {:?}", content);
    }
}
