//! Making rules, their health, and the paths that they are about.
use filesync_notes::backups::purge_expired_backups_for_rule;
use filesync_notes::models::{AppSettings, DeletePolicy, RuleDraft, RuleHealth, RuleKind, SyncRule};
use filesync_notes::paths::{
    file_name, is_same_path, lists_overlap, normalize_relative, normalized_components,
    order_of_paths, path_begins_with, paths_overlap, split_file_name, split_key, ParsedPath,
    PathComponent, PrefixKind,
};
use filesync_notes::rules::{
    build_rule, evaluate_rule_health, health_from_paths, normalize_source_path,
    normalize_target_path, sanitize_globs, PathState,
};
use filesync_notes::text::Order;

fn draft(kind: RuleKind, source: &str, target: &str, bidirectional: bool) -> RuleDraft {
    RuleDraft {
        name: "README".into(),
        enabled: true,
        kind,
        source_path: source.to_string(),
        target_path: target.to_string(),
        bidirectional,
        auto_sync: true,
        watch_enabled: true,
        poll_fallback_enabled: true,
        poll_interval_sec: 300,
        include_globs: Vec::new(),
        exclude_globs: Vec::new(),
    }
}

fn build(
    kind: RuleKind,
    source: &str,
    target: &str,
    bidirectional: bool,
    source_state: PathState,
    target_state: PathState,
) -> Result<SyncRule, String> {
    let settings = AppSettings::default();
    build_rule(None, draft(kind, source, target, bidirectional), &settings, source_state, target_state)
}

#[test]
fn create_rule_allows_missing_target() {
    let source = "/tmp/t/note.md";
    let target = "/tmp/t/project/README.md";
    let rule =
        build(RuleKind::File, source, target, false, PathState::File, PathState::Missing).unwrap();
    assert_eq!(rule.target_path, target);
    assert_eq!(rule.source_path, source);
    assert_eq!(rule.id.len(), 36);
    assert_eq!(rule.delete_policy, DeletePolicy::NoDelete);
}

#[test]
fn file_rule_rejects_existing_directory_target() {
    let error = build(
        RuleKind::File,
        "/tmp/t/note.md",
        "/tmp/t/project",
        false,
        PathState::File,
        PathState::Folder,
    )
    .unwrap_err();
    assert!(error.contains("目标路径不能是文件夹"));
}

#[test]
fn folder_rule_rejects_existing_file_target() {
    let error = build(
        RuleKind::Folder,
        "/tmp/t/notes",
        "/tmp/t/README.md",
        false,
        PathState::Folder,
        PathState::File,
    )
    .unwrap_err();
    assert!(error.contains("目标路径不能是文件"));
}

#[test]
fn every_fault_of_a_draft_has_its_message() {
    let f = PathState::File;
    let d = PathState::Folder;
    let none = PathState::Missing;
    let cases = [
        (build(RuleKind::File, " \" \" ", "/t", false, f, none), "请使用绝对路径。"),
        (build(RuleKind::File, "  \"\"  ", "/t", false, f, none), "路径不能为空。"),
        (build(RuleKind::File, "a/b", "/t", false, f, none), "请使用绝对路径。"),
        (build(RuleKind::File, "/s", "", false, f, none), "目标路径不能为空。"),
        (build(RuleKind::File, "/s", "t", false, f, none), "目标路径必须是绝对路径。"),
        (build(RuleKind::File, "/s", "/t", false, d, none), "文件规则要求源路径必须是文件。"),
        (build(RuleKind::Folder, "/s", "/t", false, f, none), "文件夹规则要求源路径必须是文件夹。"),
        (build(RuleKind::File, "/s", "/t", false, none, f), "源路径不存在。"),
        (
            build(RuleKind::File, "/s", "/t", true, none, none),
            "双向同步要求源路径和目标路径至少有一侧已存在。",
        ),
        (build(RuleKind::File, "/s/a", "/s//a/", false, f, f), "源路径和目标路径不能相同。"),
        (
            build(RuleKind::Folder, "/a/B", "/A/b/c", false, d, none),
            "文件夹规则中，源目录和目标目录不能互相包含。",
        ),
    ];
    for (result, expected) in cases {
        assert_eq!(result.unwrap_err(), expected);
    }
    assert!(build(RuleKind::File, "/s", "/t", true, none, f).is_ok());
    assert!(build(RuleKind::File, "/a", "/a/b", false, f, none).is_ok());
}

#[test]
fn draft_is_tidied() {
    let settings = AppSettings::default();
    let mut draft = draft(RuleKind::Folder, " \"/s\" ", "/t", false);
    draft.name = "  docs \n".into();
    draft.poll_interval_sec = 1;
    draft.include_globs = vec![" *.md ".into(), "  ".into()];
    let rule = build_rule(
        Some("given".to_string()),
        draft,
        &settings,
        PathState::Folder,
        PathState::Missing,
    )
    .unwrap();
    assert_eq!(rule.id, "given");
    assert_eq!(rule.name, "docs");
    assert_eq!(rule.source_path, "/s");
    assert_eq!(rule.poll_interval_sec, 5);
    assert_eq!(rule.include_globs, vec!["*.md".to_string()]);
    assert_eq!(rule.delete_policy, DeletePolicy::MoveToBackup);
    assert_eq!(rule.health, RuleHealth::Healthy);
}

#[test]
fn health_of_every_sort() {
    let f = PathState::File;
    let d = PathState::Folder;
    let other = PathState::Other;
    let none = PathState::Missing;
    let health = |kind, source: &str, target: &str, both, s, t| {
        let mut rule = SyncRule::default();
        rule.kind = kind;
        rule.source_path = source.to_string();
        rule.target_path = target.to_string();
        rule.bidirectional = both;
        evaluate_rule_health(&rule, s, t)
    };
    let file = RuleKind::File;
    let folder = RuleKind::Folder;
    assert_eq!(health(file, "/s", "/t", false, f, none), RuleHealth::Healthy);
    assert_eq!(health(file, "s", "/t", false, f, none), RuleHealth::InvalidTargetPath);
    assert_eq!(health(file, "/s", "t", false, f, none), RuleHealth::InvalidTargetPath);
    assert_eq!(health(file, "/s", "/s/", false, f, f), RuleHealth::InvalidTargetPath);
    assert_eq!(health(file, "/s", "/t", false, none, f), RuleHealth::MissingSource);
    assert_eq!(health(file, "/s", "/t", false, d, f), RuleHealth::InvalidSourceType);
    assert_eq!(health(file, "/s", "/t", false, other, f), RuleHealth::InvalidSourceType);
    assert_eq!(health(file, "/s", "/t", false, f, d), RuleHealth::InvalidTargetPath);
    assert_eq!(health(folder, "/s", "/t", false, d, f), RuleHealth::InvalidTargetPath);
    assert_eq!(health(folder, "/s", "/t", false, f, d), RuleHealth::InvalidSourceType);
    assert_eq!(health(folder, "/s", "/S/t", false, d, none), RuleHealth::OverlappingDirectories);
    assert_eq!(health(folder, "/s", "/s/t", true, d, none), RuleHealth::Healthy);
    assert_eq!(health(folder, "/s", "/s/t", true, d, d), RuleHealth::OverlappingDirectories);
    assert_eq!(health(folder, "/s", "/t", true, none, none), RuleHealth::MissingSource);
    assert_eq!(health(folder, "/s", "/t", true, none, d), RuleHealth::Healthy);
    assert_eq!(health(file, "/s", "/t", true, none, d), RuleHealth::InvalidTargetPath);
    assert_eq!(health(file, "/s", "/t", true, other, f), RuleHealth::InvalidSourceType);

    let mut rule = SyncRule::default();
    rule.config_error = Some("x".to_string());
    assert_eq!(evaluate_rule_health(&rule, f, f), RuleHealth::InvalidConfiguration);
}

/// The path of a folder on a drive, as a system with drives reads it.
fn on_drive(drive: &str, name: &str) -> ParsedPath {
    let letter = drive.as_bytes()[0].to_ascii_uppercase();
    ParsedPath {
        text: format!("{drive}\\{name}"),
        absolute: true,
        components: vec![
            PathComponent::Prefix { text: drive.to_string(), kind: PrefixKind::Disk(letter) },
            PathComponent::RootDir,
            PathComponent::Normal(name.to_string()),
        ],
        parent: Some(format!("{drive}\\")),
        separator: "\\".to_string(),
    }
}

#[test]
fn root_is_written_as_the_separator_of_the_system() {
    assert_eq!(normalized_components(&on_drive("C:", "Notes")), ["c:", "\\", "notes"]);
    let here = std::path::MAIN_SEPARATOR.to_string();
    assert_eq!(normalized_components(&ParsedPath::read("/A")), [here.clone(), "a".to_string()]);
    assert_eq!(ParsedPath::read("x").separator, here);
    let drive = ParsedPath::read("c:\\x");
    if here == "\\" {
        assert!(matches!(
            &drive.components[0],
            PathComponent::Prefix { text, kind: PrefixKind::Disk(67) } if text == "c:"
        ));
    } else {
        assert!(matches!(&drive.components[0], PathComponent::Normal(name) if name == "c:\\x"));
    }
}

#[test]
fn prefixes_are_ordered_by_what_they_mean() {
    let prefix = |kind: PrefixKind| vec![PathComponent::Prefix { text: String::new(), kind }];
    let text = |s: &str| s.to_string();
    let ascending = vec![
        prefix(PrefixKind::Verbatim(text("z"))),
        prefix(PrefixKind::VerbatimUNC(text("s"), text("a"))),
        prefix(PrefixKind::VerbatimUNC(text("s"), text("b"))),
        prefix(PrefixKind::VerbatimDisk(67)),
        prefix(PrefixKind::DeviceNS(text("COM1"))),
        prefix(PrefixKind::DeviceNS(text("COM2"))),
        prefix(PrefixKind::UNC(text("a"), text("z"))),
        prefix(PrefixKind::UNC(text("b"), text("a"))),
        prefix(PrefixKind::Disk(67)),
        prefix(PrefixKind::Disk(68)),
    ];
    for (i, a) in ascending.iter().enumerate() {
        for (j, b) in ascending.iter().enumerate() {
            let expected = if i < j {
                Order::Less
            } else if i > j {
                Order::Greater
            } else {
                Order::Equal
            };
            assert_eq!(order_of_paths(a, b), expected, "{i} {j}");
            assert_eq!(is_same_path(a, b), i == j);
        }
    }
    let (c, d) = (on_drive("c:", "x"), on_drive("D:", "x"));
    assert!("D:" < "c:");
    assert_eq!(order_of_paths(&c.components, &d.components), Order::Less);
    assert!(is_same_path(&c.components, &on_drive("C:", "x").components));
    let roots = purge_expired_backups_for_rule(true, &d, &c);
    assert_eq!(roots[0].parent, "c:\\");
    assert_eq!(roots[1].parent, "D:\\");
}

#[test]
fn health_of_paths_from_another_system() {
    let path = |name: &str| on_drive("C:", name);
    let mut rule = SyncRule::default();
    rule.kind = RuleKind::Folder;
    let (a, b) = (path("Notes"), path("notes"));
    assert_eq!(
        health_from_paths(&rule, &a, &b, PathState::Folder, PathState::Missing),
        RuleHealth::OverlappingDirectories
    );
    assert_eq!(
        health_from_paths(&rule, &a, &path("Docs"), PathState::Folder, PathState::Missing),
        RuleHealth::Healthy
    );
}

#[test]
fn typed_paths_are_freed_of_quotes() {
    assert_eq!(normalize_source_path(" \"/a b\" ").unwrap(), "/a b");
    assert_eq!(normalize_target_path("/x").unwrap(), "/x");
    assert_eq!(normalize_source_path("\u{3000}").unwrap_err(), "路径不能为空。");
    assert_eq!(normalize_target_path("x").unwrap_err(), "目标路径必须是绝对路径。");
}

#[test]
fn patterns_are_tidied() {
    let given = vec![" a ".to_string(), "".to_string(), "\t".to_string(), "b".to_string()];
    assert_eq!(sanitize_globs(&given), vec!["a".to_string(), "b".to_string()]);
}

#[test]
fn overlap_goes_both_ways_and_ignores_case() {
    let read = |text: &str| ParsedPath::read(text);
    assert!(paths_overlap(&read("/A/b"), &read("/a/B/c")));
    assert!(paths_overlap(&read("/a/B/c"), &read("/A/b")));
    assert!(paths_overlap(&read("/ÄÖ"), &read("/äö/x")));
    assert!(!paths_overlap(&read("/a/bc"), &read("/a/b")));
    assert!(!paths_overlap(&read("/a/b"), &read("/a/c")));
    assert_eq!(
        normalized_components(&read("/A/../B/./c")),
        vec!["/".to_string(), "a".to_string(), "b".to_string(), "c".to_string()]
    );
    let list = |names: &[&str]| -> Vec<String> { names.iter().map(|n| n.to_string()).collect() };
    assert!(lists_overlap(&list(&["/", "a"]), &list(&["/", "a", "b"])));
    assert!(lists_overlap(&list(&["/", "a", "b"]), &list(&["/", "a"])));
    assert!(lists_overlap(&list(&[]), &list(&["x"])));
    assert!(!lists_overlap(&list(&["/", "a"]), &list(&["\\", "a"])));
}

#[test]
fn paths_are_the_same_by_their_components() {
    let read = |text: &str| ParsedPath::read(text).components;
    assert!(is_same_path(&read("/a/b"), &read("/a//b/")));
    assert!(!is_same_path(&read("/a/b"), &read("/a/B")));
    assert!(path_begins_with(&read("/a/b/c"), &read("/a/b")));
    assert!(!path_begins_with(&read("/a/bc"), &read("/a/b")));
    assert_eq!(file_name(&read("/a/b.md")).as_deref(), Some("b.md"));
    assert_eq!(file_name(&read("/")), None);
    assert_eq!(file_name(&read("a/..")), None);
    assert_eq!(order_of_paths(&read("/a/b"), &read("/a/c")), Order::Less);
    assert_eq!(order_of_paths(&read("/a/b/c"), &read("/a/b")), Order::Greater);
    assert_eq!(order_of_paths(&read("/a"), &read("/a")), Order::Equal);
    assert_eq!(order_of_paths(&read("a"), &read("/a")), Order::Greater);
    let path = ParsedPath::read("/a/b");
    assert_eq!(path.parent.as_deref(), Some("/a"));
    assert!(path.absolute);
    assert_eq!(ParsedPath::read("/").parent, None);
    assert!(!ParsedPath::read("a").absolute);
}

#[test]
fn names_are_cut_as_the_system_cuts_them() {
    for name in ["a.md", ".bashrc", "a.", "a.b.c", "plain", ".a.b", "a..b"] {
        let path = std::path::Path::new(name);
        let (stem, extension) = split_file_name(name);
        assert_eq!(Some(stem.as_str()), path.file_stem().and_then(|s| s.to_str()), "{name}");
        assert_eq!(extension.as_deref(), path.extension().and_then(|s| s.to_str()), "{name}");
    }
    assert_eq!(split_file_name(".."), ("..".to_string(), None));
}

#[test]
fn relative_names_are_joined_and_split() {
    assert_eq!(normalize_relative(&ParsedPath::read("./a/b c/d.md").components), "a/b c/d.md");
    assert_eq!(normalize_relative(&ParsedPath::read("/a/../b").components), "a/b");
    assert_eq!(split_key("a/b c/d.md"), vec!["a", "b c", "d.md"]);
    assert_eq!(split_key("//a//"), vec!["a"]);
    assert!(split_key("").is_empty());
}

#[test]
fn plain_paths_are_read_alike_everywhere() {
    let shape = |text: &str| -> Vec<String> {
        ParsedPath::read(text)
            .components
            .iter()
            .map(|part| match part {
                PathComponent::Prefix { .. } => "prefix".to_string(),
                PathComponent::RootDir => "/".to_string(),
                PathComponent::CurDir => ".".to_string(),
                PathComponent::ParentDir => "..".to_string(),
                PathComponent::Normal(name) => format!("<{name}>"),
            })
            .collect()
    };
    assert_eq!(shape("/a//b/./c/"), ["/", "<a>", "<b>", "<c>"]);
    assert_eq!(shape("./a/../b"), [".", "<a>", "..", "<b>"]);
    assert_eq!(shape("././a"), [".", "<a>"]);
    assert_eq!(shape("/./a"), ["/", "<a>"]);
    assert_eq!(shape("."), ["."]);
    assert_eq!(shape("/"), ["/"]);
    assert!(shape("").is_empty());
    let parent = |text: &str| ParsedPath::read(text).parent;
    assert_eq!(parent("/a/b/").as_deref(), Some("/a"));
    assert_eq!(parent("a").as_deref(), Some(""));
    assert_eq!(parent("/a").as_deref(), Some("/"));
    assert_eq!(parent("a/..").as_deref(), Some("a"));
    assert_eq!(parent("."), Some(String::new()));
    assert_eq!(parent(""), None);
}
