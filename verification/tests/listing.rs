use prompt_assembler::overrides::plan_overrides;
use prompt_assembler::path::resolve_path;
use prompt_assembler::text::sort_texts;
use prompt_assembler::text::text_precedes;
use prompt_assembler::ConfigIssueCode;
use prompt_assembler::DirectoryEntry;
use prompt_assembler::HomeDirectory;
use prompt_assembler::ResolutionError;

fn texts(values: &[&str]) -> Vec<String> {
    values.iter().map(|value| value.to_string()).collect()
}

#[test]
fn override_files_apply_in_the_order_of_their_paths() {
    let entries = vec![
        DirectoryEntry::named("/c/conf.d/20-b.toml".to_string()),
        DirectoryEntry::named("/c/conf.d/notes.txt".to_string()),
        DirectoryEntry::named("/c/conf.d/10-a.toml".to_string()),
        DirectoryEntry::named("/c/conf.d/toml".to_string()),
        DirectoryEntry::named("/c/conf.d/.toml".to_string()),
        DirectoryEntry::named("/c/conf.d/05-z.TOML".to_string()),
        DirectoryEntry::named("/c/conf.d/15.backup.toml".to_string()),
    ];

    let plan = plan_overrides("/c/conf.d", &entries);

    assert_eq!(
        plan.files,
        vec!["/c/conf.d/10-a.toml", "/c/conf.d/15.backup.toml", "/c/conf.d/20-b.toml"]
    );
    assert!(plan.issues.is_empty());
}

#[test]
fn the_listing_reports_what_it_could_not_read() {
    let entries = vec![
        DirectoryEntry::unreadable("stale file handle".to_string()),
        DirectoryEntry::undecodable("/c/conf.d/bad\u{fffd}name.toml".to_string()),
        DirectoryEntry::undecodable("/c/conf.d/bad\u{fffd}name.txt".to_string()),
        DirectoryEntry::named("/c/conf.d/ok.toml".to_string()),
    ];

    let plan = plan_overrides("/c/conf.d", &entries);

    assert_eq!(plan.files, vec!["/c/conf.d/ok.toml"]);
    let issues: Vec<(ConfigIssueCode, &str, &str, Option<u32>)> = plan
        .issues
        .iter()
        .map(|issue| (issue.code, issue.path.as_str(), issue.message.as_str(), issue.line))
        .collect();
    assert_eq!(
        issues,
        vec![
            (
                ConfigIssueCode::ParseError,
                "/c/conf.d",
                "failed to read entry in /c/conf.d: stale file handle",
                None
            ),
            (
                ConfigIssueCode::ParseError,
                "/c/conf.d",
                "configuration paths must be valid UTF-8",
                None
            ),
        ]
    );
}

#[test]
fn an_entry_knows_the_extension_of_its_path() {
    assert_eq!(
        DirectoryEntry::named("/c/conf.d/10-a.toml".to_string()),
        DirectoryEntry::Found {
            path: "/c/conf.d/10-a.toml".to_string(),
            extension: Some("toml".to_string()),
            utf8: true,
        }
    );
    assert_eq!(
        DirectoryEntry::named("/c/conf.d/README".to_string()),
        DirectoryEntry::Found { path: "/c/conf.d/README".to_string(), extension: None, utf8: true }
    );
}

#[test]
fn texts_sort_as_strings_compare() {
    let sorted = sort_texts(&texts(&["b", "a", "B", "ab", "", "é", "a", "z"]));
    assert_eq!(sorted, vec!["", "B", "a", "a", "ab", "b", "z", "é"]);

    let mut expected = texts(&["10", "9", "1", "é", "e", "Z", "zz", "z"]);
    let sorted = sort_texts(&expected);
    expected.sort();
    assert_eq!(sorted, expected);
}

#[test]
fn text_order_is_the_order_of_strings() {
    let samples = ["", "a", "ab", "b", "B", "é", "e\u{301}", "z", "10-a.toml", "2-b.toml"];
    for left in samples {
        for right in samples {
            assert_eq!(text_precedes(left, right), left <= right);
        }
    }
}

#[test]
fn paths_resolve_against_root_and_home() {
    let home = HomeDirectory::Found("/home/ada".to_string());
    assert_eq!(resolve_path("/etc/prompts", "library", &home), Ok("/etc/prompts/library".to_string()));
    assert_eq!(resolve_path("/etc/prompts", "/opt/shared", &home), Ok("/opt/shared".to_string()));
    assert_eq!(resolve_path("/etc/prompts", "~/prompts", &home), Ok("/home/ada/prompts".to_string()));
    assert_eq!(resolve_path("/etc/prompts", "~", &home), Ok("/etc/prompts/~".to_string()));
    assert_eq!(resolve_path("/etc/prompts", "~user/x", &home), Ok("/etc/prompts/~user/x".to_string()));
    assert_eq!(resolve_path("/etc/prompts", "~/", &home), Ok("/home/ada/".to_string()));
}

#[test]
fn a_home_relative_path_fails_without_a_home() {
    let unavailable = resolve_path("/etc/prompts", "~/prompts", &HomeDirectory::Unavailable);
    assert_eq!(unavailable, Err(ResolutionError::HomeUnavailable));
    assert_eq!(
        unavailable.unwrap_err().message(),
        "cannot resolve '~' without home directory"
    );
    let undecodable = resolve_path("/etc/prompts", "~/prompts", &HomeDirectory::NotUtf8);
    assert_eq!(undecodable, Err(ResolutionError::HomeNotUtf8));
    assert_eq!(undecodable.unwrap_err().message(), "home directory is not valid UTF-8");
    assert_eq!(
        resolve_path("/etc/prompts", "plain", &HomeDirectory::Unavailable),
        Ok("/etc/prompts/plain".to_string())
    );
}

#[test]
fn the_system_is_asked_for_the_home_directory() {
    match HomeDirectory::current() {
        HomeDirectory::Found(path) => assert!(!path.is_empty()),
        HomeDirectory::Unavailable | HomeDirectory::NotUtf8 => {}
    }
}
