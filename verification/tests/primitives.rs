use tycho::primitives::bytes::size;
use tycho::primitives::encode::{
    index_info_line, percent_component, percent_decode, stdin_paths_line, FileMode,
};
use tycho::primitives::names::{
    AliasError, BranchName, ProfileName, RefName, RefNameError, RemoteName, RootAlias, SlugError,
};
use tycho::primitives::oid::{Oid, OidError};
use tycho::primitives::path::{
    has_git_component, AbsPath, PathError, TreePath, TreePathError,
};
use tycho::primitives::refs::find_collisions;

const SAMPLE: &str = "8f2a10c1930b99aef686f41c8ee24e10f92aa7d4";

fn line(text: &[u8]) -> Vec<u8> {
    let mut out = text.to_vec();
    out.push(b'\n');
    out
}

#[test]
fn percent_leaves_the_unreserved_set_alone() {
    assert_eq!(percent_component(b"handbook"), "handbook");
    assert_eq!(percent_component(b"v1.0_beta"), "v1.0_beta");
}

#[test]
fn percent_encodes_the_documented_hostile_cases() {
    assert_eq!(percent_component(b"my docs"), "my%20docs");
    assert_eq!(percent_component(b"a/b"), "a%2Fb");
    assert_eq!(percent_component(b"100%"), "100%25");
    assert_eq!(percent_component(b"%"), "%25");
    assert_eq!(percent_component(b".config"), "%2Econfig");
    assert_eq!(percent_component(b"main.lock"), "main%2Elock");
    assert_eq!(percent_component(b".lock"), "%2Elock");
    assert_eq!(percent_component(b"caf\xc3\xa9"), "caf%C3%A9");
    assert_eq!(percent_component(b"a\nb"), "a%0Ab");
}

#[test]
fn percent_round_trips_every_single_byte() {
    for byte in 0..=u8::MAX {
        let raw = [byte];
        let encoded = percent_component(&raw);
        assert_eq!(
            percent_decode(&encoded).as_deref(),
            Some(&raw[..]),
            "byte {byte:#04x} encoded as {encoded}"
        );
    }
}

#[test]
fn percent_round_trips_every_byte_pair() {
    for high in 0..=u8::MAX {
        for low in 0..=u8::MAX {
            let raw = [high, low];
            let encoded = percent_component(&raw);
            assert_eq!(percent_decode(&encoded).as_deref(), Some(&raw[..]));
        }
    }
}

#[test]
fn percent_output_is_always_a_safe_refname_component() {
    for high in 0..=u8::MAX {
        for low in 0..=u8::MAX {
            let encoded = percent_component(&[high, low]);
            assert!(
                encoded
                    .bytes()
                    .all(|b| b.is_ascii_alphanumeric() || matches!(b, b'.' | b'_' | b'-' | b'%')),
                "{encoded}"
            );
            assert!(!encoded.starts_with('.'), "{encoded}");
            assert!(!encoded.ends_with(".lock"), "{encoded}");
        }
    }
}

#[test]
fn percent_decode_rejects_a_truncated_escape() {
    assert_eq!(percent_decode("%"), None);
    assert_eq!(percent_decode("%2"), None);
    assert_eq!(percent_decode("%zz"), None);
}

#[test]
fn a_plain_path_is_emitted_raw() {
    assert_eq!(stdin_paths_line(b"a/b.md"), b"a/b.md\n");
}

#[test]
fn a_hostile_path_is_c_quoted() {
    assert_eq!(stdin_paths_line(b"a\nb"), line(br#""a\nb""#));
    assert_eq!(stdin_paths_line(b"a\tb"), line(br#""a\tb""#));
    assert_eq!(stdin_paths_line(b"a\\b"), line(br#""a\\b""#));
    assert_eq!(stdin_paths_line(b"a\"b"), line(br#""a\"b""#));
    assert_eq!(stdin_paths_line(b"caf\xc3\xa9"), line(br#""caf\303\251""#));
    assert_eq!(stdin_paths_line(b"a\xffb"), line(br#""a\377b""#));
}

#[test]
fn a_quote_or_carriage_return_forces_quoting_even_though_both_are_printable() {
    assert_eq!(stdin_paths_line(b"\"a"), line(br#""\"a""#));
    assert_eq!(stdin_paths_line(b"a\r"), line(br#""a\r""#));
}

#[test]
fn index_info_uses_raw_bytes_and_a_nul() {
    let oid = Oid::parse(SAMPLE).expect("valid");
    let line = index_info_line(FileMode::Regular, oid, b"a\nb");
    assert_eq!(
        line,
        b"100644 8f2a10c1930b99aef686f41c8ee24e10f92aa7d4\ta\nb\0"
    );
}

#[test]
fn modes_are_the_three_git_stores() {
    assert_eq!(FileMode::Regular.as_str(), "100644");
    assert_eq!(FileMode::Executable.as_str(), "100755");
    assert_eq!(FileMode::Symlink.as_str(), "120000");
}

#[test]
fn profile_names_accept_the_documented_charset() {
    for name in ["coreenginex", "second-company", "a", "0", "a1-b2"] {
        assert!(ProfileName::parse(name).is_ok(), "{name}");
    }
}

#[test]
fn profile_names_reject_everything_else() {
    assert_eq!(ProfileName::parse(""), Err(SlugError::Empty));
    assert!(matches!(
        ProfileName::parse("-lead"),
        Err(SlugError::BadStart { .. })
    ));
    assert!(matches!(
        ProfileName::parse("Work"),
        Err(SlugError::BadStart { .. })
    ));
    for bad in ["my.profile", "my/profile", "my profile", "my_profile"] {
        assert!(
            matches!(ProfileName::parse(bad), Err(SlugError::BadChar { .. })),
            "{bad}"
        );
    }
    assert!(matches!(
        ProfileName::parse(&"a".repeat(65)),
        Err(SlugError::TooLong(_))
    ));
}

#[test]
fn catchup_is_reserved_for_the_shared_agent() {
    assert_eq!(
        ProfileName::parse("catchup"),
        Err(SlugError::Reserved("catchup".to_owned()))
    );
    assert!(ProfileName::parse("catchup-work").is_ok());
    assert!(RemoteName::parse("catchup").is_ok());
}

#[test]
fn aliases_encode_rather_than_reject_a_charset_violation() {
    assert_eq!(
        RootAlias::explicit("work-docs").expect("valid").as_str(),
        "work-docs"
    );
    assert_eq!(
        RootAlias::explicit("my docs").expect("valid").as_str(),
        "my%20docs"
    );
    let raw = RootAlias::from_component(b"caf\xc3\xa9").expect("valid");
    assert_eq!(raw.as_str(), "caf%C3%A9");
}

#[test]
fn aliases_reject_the_positional_cases_git_cannot_hold() {
    assert_eq!(RootAlias::explicit(""), Err(AliasError::Empty));
    assert_eq!(RootAlias::explicit("a/b"), Err(AliasError::Separator));
    assert_eq!(RootAlias::explicit(".tycho"), Err(AliasError::Reserved));
    assert_eq!(
        RootAlias::explicit(".ssh"),
        Err(AliasError::LeadingDot(".ssh".to_owned()))
    );
    assert_eq!(
        RootAlias::explicit("main.lock"),
        Err(AliasError::LockSuffix("main.lock".to_owned()))
    );
}

#[test]
fn refnames_must_live_under_refs() {
    assert!(RefName::parse("refs/heads/main").is_ok());
    assert!(matches!(
        RefName::parse("heads/main"),
        Err(RefNameError::NotUnderRefs(_))
    ));
    assert!(matches!(
        RefName::parse("HEAD"),
        Err(RefNameError::NotUnderRefs(_))
    ));
}

#[test]
fn refnames_reject_what_git_rejects() {
    let cases: [(&str, fn(&RefNameError) -> bool); 8] = [
        ("refs/heads//main", |e| {
            matches!(e, RefNameError::EmptyComponent(_))
        }),
        ("refs/heads/a..b", |e| {
            matches!(e, RefNameError::DoubleDot(_))
        }),
        ("refs/heads/a@{1}", |e| {
            matches!(e, RefNameError::AtBrace(_))
        }),
        ("refs/heads/main.", |e| {
            matches!(e, RefNameError::TrailingDot(_))
        }),
        ("refs/heads/a b", |e| {
            matches!(e, RefNameError::BadChar { .. })
        }),
        ("refs/heads/a~1", |e| {
            matches!(e, RefNameError::BadChar { .. })
        }),
        ("refs/heads/.hidden", |e| {
            matches!(e, RefNameError::ComponentLeadingDot(_))
        }),
        ("refs/heads/main.lock", |e| {
            matches!(e, RefNameError::ComponentLockSuffix(_))
        }),
    ];
    for (input, matches_expected) in cases {
        let error = RefName::parse(input).expect_err(input);
        assert!(matches_expected(&error), "{input} gave {}", error.text());
    }
}

#[test]
fn a_branch_name_may_contain_slashes() {
    assert_eq!(
        BranchName::parse("fix/parser-eof").expect("valid").as_str(),
        "fix/parser-eof"
    );
    assert!(BranchName::parse("a b").is_err());
}

#[test]
fn parses_and_renders_round_trip() {
    let oid = Oid::parse(SAMPLE).expect("sample is valid hex");
    assert_eq!(oid.text(), SAMPLE);
    assert_eq!(oid.short(), "8f2a10c");
}

#[test]
fn uppercase_parses_to_the_same_value() {
    let lower = Oid::parse(SAMPLE).expect("valid");
    let upper = Oid::parse(&SAMPLE.to_uppercase()).expect("valid");
    assert_eq!(lower, upper);
    assert_eq!(upper.text(), SAMPLE);
}

#[test]
fn every_byte_value_round_trips() {
    for value in 0..=u8::MAX {
        let oid = Oid::from_bytes([value; 20]);
        assert_eq!(Oid::parse(&oid.text()), Ok(oid));
    }
}

#[test]
fn wrong_length_is_rejected() {
    for text in ["", &SAMPLE[..39], &format!("{SAMPLE}0")] {
        assert_eq!(
            Oid::parse(text),
            Err(OidError::Length {
                expected: 40,
                actual: text.len()
            })
        );
    }
}

#[test]
fn non_hex_is_rejected_with_its_position() {
    let text = format!("{}z{}", &SAMPLE[..5], &SAMPLE[6..]);
    assert_eq!(Oid::parse(&text), Err(OidError::NotHex { at: 5 }));
}

fn env(name: &str) -> Option<String> {
    match name {
        "HOME" => Some(HOME.to_owned()),
        "USER" => Some("tester".to_owned()),
        _ => None,
    }
}

const HOME: &str = "/Users/tester";

const ROOT: &str = "/data";

fn joined(parts: &[&str]) -> String {
    let mut out = std::path::PathBuf::from(HOME);
    out.extend(parts);
    out.display().to_string()
}

fn parse(input: &str) -> Result<AbsPath, PathError> {
    AbsPath::parse_with(input, Some(HOME), env)
}

fn parsed(input: &str) -> String {
    parse(input).expect("valid path").text()
}

#[test]
fn expands_tilde() {
    assert_eq!(parsed("~/Books"), joined(&["Books"]));
    assert_eq!(parsed("~"), HOME);
    assert_eq!(parsed("~/"), HOME);
}

#[test]
fn expands_only_the_allowed_variables() {
    assert_eq!(parsed("$HOME/Books"), joined(&["Books"]));
    assert_eq!(parsed("${HOME}/Books"), joined(&["Books"]));
    assert_eq!(
        parsed(&format!("{ROOT}/${{USER}}/x")),
        std::path::PathBuf::from(ROOT)
            .join("tester")
            .join("x")
            .display()
            .to_string()
    );
}

#[test]
fn a_variable_outside_the_allow_list_is_an_error() {
    assert_eq!(
        parse("$WORKSPACE/code"),
        Err(PathError::VariableNotAllowed("WORKSPACE".to_owned()))
    );
}

#[test]
fn an_unset_or_empty_variable_never_becomes_an_empty_string() {
    assert_eq!(
        AbsPath::parse_with("$HOME/code", Some(HOME), |_: &str| Some(String::new())),
        Err(PathError::VariableUnset("HOME".to_owned()))
    );
    assert_eq!(
        AbsPath::parse_with("$HOME/code", Some(HOME), |_: &str| None),
        Err(PathError::VariableUnset("HOME".to_owned()))
    );
}

#[test]
fn rejects_what_cannot_be_resolved() {
    assert_eq!(parse(""), Err(PathError::Empty));
    assert_eq!(
        parse("Books/x"),
        Err(PathError::Relative("Books/x".to_owned()))
    );
    assert_eq!(
        parse("~/A/../B"),
        Err(PathError::ParentComponent("~/A/../B".to_owned()))
    );
    assert_eq!(
        parse("${HOME/x"),
        Err(PathError::UnterminatedBrace("${HOME/x".to_owned()))
    );
    assert_eq!(
        parse("~other/x"),
        Err(PathError::NamedHome("other".to_owned()))
    );
    assert_eq!(
        AbsPath::parse_with("~/x", None, env),
        Err(PathError::NoHome)
    );
}

#[test]
fn normalises_redundant_components() {
    let want = std::path::PathBuf::from(ROOT)
        .join("b")
        .display()
        .to_string();
    assert_eq!(parsed(&format!("{ROOT}//b/")), want);
    assert_eq!(parsed(&format!("{ROOT}/./b")), want);
}

#[test]
fn containment_compares_components_not_prefixes() {
    let a = parse(ROOT).expect("valid");
    assert!(a.contains(&parse(&format!("{ROOT}/b")).expect("valid")));
    assert!(a.contains(&a));
    assert!(!a.contains(&parse(&format!("{ROOT}x")).expect("valid")));
}

#[test]
fn from_absolute_takes_a_walked_path() {
    let full = format!("{ROOT}/b");
    let path = AbsPath::from_absolute(full.as_bytes()).expect("absolute");
    assert_eq!(path.text(), full);
    assert_eq!(
        AbsPath::from_absolute(b"b"),
        Err(PathError::Relative("b".to_owned()))
    );
}

#[test]
fn a_tree_path_is_relative_and_carries_no_git_component() {
    for good in [
        "a.md",
        "CoreEngineX/org/notes.md",
        ".tycho/repos/x/REPO.txt",
    ] {
        assert!(TreePath::parse(good.as_bytes()).is_ok(), "{good}");
    }
    assert_eq!(TreePath::parse(b""), Err(TreePathError::Empty));
    assert!(matches!(
        TreePath::parse(b"/a/b"),
        Err(TreePathError::Absolute(_))
    ));
    assert!(matches!(
        TreePath::parse(b"a/../b"),
        Err(TreePathError::DotComponent(_))
    ));
    for bad in [".git", "a/.git/b", "a/.GIT", ".Git/config"] {
        assert!(
            matches!(
                TreePath::parse(bad.as_bytes()),
                Err(TreePathError::GitComponent(_))
            ),
            "{bad}"
        );
    }
}

#[test]
fn path_a_tree_path_keeps_hostile_bytes_intact() {
    let raw = b"a\nb/c\td.md";
    let path = TreePath::parse(raw).expect("valid");
    assert_eq!(path.as_path(), raw);
}

/// `update-index --index-info` answers a `\` separator by printing `Ignoring
/// path` and exiting 0, which turns a run into an empty tree at exit 0. A tree
/// path built from a native separator must never reach an encoder carrying one.
#[test]
fn a_tree_path_is_slash_separated_whatever_the_host_uses() {
    let from_slash = TreePath::parse(b"a/b/c.md").expect("valid");
    assert_eq!(from_slash.text(), "a/b/c.md");
    assert!(!from_slash.as_path().contains(&b'\\'));

    let joined = std::path::Path::new("root").join("sub").join("c.md");
    let from_join = TreePath::parse(joined.as_os_str().as_encoded_bytes()).expect("valid");
    assert_eq!(from_join.text(), "root/sub/c.md");
}

#[test]
fn detects_a_git_component_case_insensitively() {
    assert!(has_git_component(b"/a/.git/config"));
    assert!(has_git_component(b"/a/.GIT"));
    assert!(!has_git_component(b"/a/git/x"));
    assert!(!has_git_component(b"/a/b.git/x"));
}

fn refs(names: &[&str]) -> Vec<RefName> {
    names
        .iter()
        .map(|name| RefName::parse(name).expect("valid refname"))
        .collect()
}

#[test]
fn distinct_names_do_not_collide() {
    let names = refs(&["refs/heads/main", "refs/heads/dev", "refs/tags/v1.0"]);
    assert!(find_collisions(&names).is_empty());
}

#[test]
fn case_only_differences_collide() {
    let names = refs(&["refs/heads/Feature", "refs/heads/feature"]);
    let found = find_collisions(&names);
    assert_eq!(found.len(), 1);
    assert_eq!(found[0].folded, "refs/heads/feature");
    assert_eq!(found[0].names, names);
}

#[test]
fn composed_and_decomposed_forms_collide() {
    let composed = "refs/heads/caf\u{e9}";
    let decomposed = "refs/heads/cafe\u{301}";
    assert_ne!(composed, decomposed);
    let found = find_collisions(&refs(&[composed, decomposed]));
    assert_eq!(found.len(), 1);
    assert_eq!(found[0].names.len(), 2);
}

#[test]
fn a_collision_reports_every_member() {
    let names = refs(&[
        "refs/heads/A",
        "refs/heads/a",
        "refs/heads/b",
        "refs/heads/B",
        "refs/heads/c",
    ]);
    let found = find_collisions(&names);
    assert_eq!(found.len(), 2);
    assert!(found.iter().all(|group| group.names.len() == 2));
}

#[test]
fn a_tree_path_holds_no_dot_wherever_it_stands() {
    for bad in ["a/./b", "a/.", "./a", "."] {
        assert_eq!(
            TreePath::parse(bad.as_bytes()),
            Err(TreePathError::DotComponent(bad.to_owned())),
            "{bad}"
        );
    }
    assert!(TreePath::parse(b"a/.b/c.").is_ok());
    assert_eq!(TreePath::parse(b"a//b").expect("valid").text(), "a/b");
}

#[test]
fn a_size_of_a_unit_or_more_has_three_figures() {
    for (bytes, text) in [
        (9_994, "9.99 KB"),
        (9_999, "10.0 KB"),
        (99_949, "99.9 KB"),
        (99_950, "100 KB"),
        (999_499, "999 KB"),
        (999_500, "1.00 MB"),
        (999_999, "1.00 MB"),
        (999_999_999, "1.00 GB"),
        (999_999_999_999, "1.00 TB"),
        (u64::MAX, "18446744 TB"),
    ] {
        assert_eq!(size(bytes), text, "{bytes}");
    }
}
