use tycho::config::local::{Entry, GlobEntry, LocalRules};
use tycho::config::precedence::default_junk;
use tycho::config::rules::{Decision, Hits, Junk, RuleSet, RuleTree, Tier, Verdict};
use tycho::primitives::path::AbsPath;

const HOME: &str = "/h";

/// The truth table uses `~` for readability.
fn home(rest: &str) -> AbsPath {
    AbsPath::parse_with(&format!("~/{rest}"), Some(HOME), |_: &str| None)
        .expect("a valid path")
}

fn paths(rest: &[&str]) -> Vec<AbsPath> {
    rest.iter().map(|item| home(item)).collect()
}

fn tree(rules: &RuleSet) -> RuleTree {
    RuleTree::build(rules).expect("the patterns compile")
}

fn captured(tree: &RuleTree, candidate: &str) -> bool {
    tree.captures(&home(candidate))
}

/// Row 1: watch `~/A` (d1), candidate `~/A/x.md` (d2). Winner: watch, d1.
#[test]
fn row_1_a_watched_root_captures_what_is_under_it() {
    let tree = tree(&RuleSet {
        watch: paths(&["A"]),
        ..RuleSet::default()
    });
    assert!(captured(&tree, "A/x.md"));
}

/// Row 2: + ignore `~/A/s` (d2), candidate `~/A/s/t.bin`. Winner: ignore, d2.
#[test]
fn row_2_a_deeper_ignore_beats_the_watch_above_it() {
    let tree = tree(&RuleSet {
        watch: paths(&["A"]),
        ignore_paths: paths(&["A/s"]),
        ..RuleSet::default()
    });
    assert!(!captured(&tree, "A/s/t.bin"));
}

/// Row 3: + reinclude `~/A/s/keep` (d3), candidate `~/A/s/keep/k.pem`.
#[test]
fn row_3_a_deeper_reinclude_beats_the_ignore_above_it() {
    let tree = tree(&RuleSet {
        watch: paths(&["A"]),
        ignore_paths: paths(&["A/s"]),
        reinclude: paths(&["A/s/keep"]),
        ..RuleSet::default()
    });
    assert!(captured(&tree, "A/s/keep/k.pem"));
}

/// Row 4: watch `~/A` (d1), junk `target`, candidate `~/A/p/target/x.o`.
#[test]
fn row_4_junk_matches_at_the_depth_of_the_component_it_names() {
    let tree = tree(&RuleSet {
        watch: paths(&["A"]),
        junk: vec![Junk::Name("target")],
        ..RuleSet::default()
    });
    let decision = tree.resolve(&home("A/p/target/x.o"));
    assert_eq!(decision.verdict, Verdict::Skip);
    assert_eq!(decision.tier, Tier::Junk);
    assert_eq!(
        tree.rule_text(decision.rule.expect("a junk rule fired")),
        "target"
    );
}

/// Row 5: + reinclude `~/A/p/target` (d3). Reinclude beats junk at equal depth.
#[test]
fn row_5_a_reinclude_beats_junk_at_the_same_depth_by_tier() {
    let tree = tree(&RuleSet {
        watch: paths(&["A"]),
        reinclude: paths(&["A/p/target"]),
        junk: vec![Junk::Name("target")],
        ..RuleSet::default()
    });
    assert!(captured(&tree, "A/p/target/x.o"));
}

/// Row 6: glob `**/*.xcarchive` matches `~/A/b/Foo.xcarchive` at d3.
#[test]
fn row_6_a_glob_ignores_what_it_matches() {
    let tree = tree(&RuleSet {
        watch: paths(&["A"]),
        ignore_globs: vec!["**/*.xcarchive".to_owned()],
        ..RuleSet::default()
    });
    assert!(!captured(&tree, "A/b/Foo.xcarchive"));
}

/// Row 7: + reinclude of the file itself (d3). Reinclude beats glob by tier.
#[test]
fn row_7_a_reinclude_beats_a_glob_at_the_same_depth_by_tier() {
    let tree = tree(&RuleSet {
        watch: paths(&["A"]),
        reinclude: paths(&["A/b/Foo.xcarchive"]),
        ignore_globs: vec!["**/*.xcarchive".to_owned()],
        ..RuleSet::default()
    });
    assert!(captured(&tree, "A/b/Foo.xcarchive"));
}

/// Row 8, the one people get wrong: glob `*.log` matches the filename at d4,
/// which is deeper than the reinclude at d3.
#[test]
fn row_8_a_glob_on_a_filename_outranks_a_reincluded_directory() {
    let tree = tree(&RuleSet {
        watch: paths(&["A"]),
        ignore_paths: paths(&["A/s"]),
        reinclude: paths(&["A/s/keep"]),
        ignore_globs: vec!["*.log".to_owned()],
        ..RuleSet::default()
    });
    let decision = tree.resolve(&home("A/s/keep/a.log"));
    assert_eq!(decision.verdict, Verdict::Skip);
    assert_eq!(
        tree.rule_text(decision.rule.expect("the glob fired")),
        "*.log"
    );
    // The sibling that no glob matches is still captured.
    assert!(captured(&tree, "A/s/keep/a.md"));
    // And naming the file itself, at its own depth, is how you keep it.
    let tree = tree_with_file_reincluded();
    assert!(captured(&tree, "A/s/keep/a.log"));
}

fn tree_with_file_reincluded() -> RuleTree {
    tree(&RuleSet {
        watch: paths(&["A"]),
        ignore_paths: paths(&["A/s"]),
        reinclude: paths(&["A/s/keep", "A/s/keep/a.log"]),
        ignore_globs: vec!["*.log".to_owned()],
        ..RuleSet::default()
    })
}

/// Row 5 with the real junk list rather than the single rule the table names.
/// `*.o` matches at d4 and beats the reinclude at d3, so the file stays skipped.
/// That is row 8's principle applied consistently, and it is the question this
/// design will be asked.
#[test]
fn a_reincluded_directory_does_not_rescue_files_a_deeper_junk_glob_matches() {
    let tree = tree(&RuleSet {
        watch: paths(&["A"]),
        reinclude: paths(&["A/p/target"]),
        junk: default_junk(),
        ..RuleSet::default()
    });
    let decision = tree.resolve(&home("A/p/target/x.o"));
    assert_eq!(decision.verdict, Verdict::Skip);
    assert_eq!(
        tree.rule_text(decision.rule.expect("a junk rule fired")),
        "*.o",
        "the deeper junk glob should win"
    );
    // A file the junk list does not name comes back.
    assert!(captured(&tree, "A/p/target/keep.txt"));
}

/// One algorithm from a caller's view, but not one rule: a name is compared to a
/// whole component, a glob is matched against one. Both report themselves.
#[test]
fn a_junk_name_is_compared_whole_and_a_junk_glob_is_matched() {
    let tree = tree(&RuleSet {
        watch: paths(&["A"]),
        junk: vec![Junk::Name("out"), Junk::Glob("*.o")],
        ..RuleSet::default()
    });
    let named = tree.resolve(&home("A/out/x.js"));
    assert_eq!(tree.rule_text(named.rule.expect("the name fired")), "out");
    let globbed = tree.resolve(&home("A/src/x.o"));
    assert_eq!(tree.rule_text(globbed.rule.expect("the glob fired")), "*.o");
    assert!(captured(&tree, "A/output/x.js"), "a name is not a prefix");
    assert!(
        captured(&tree, "A/src/x.object"),
        "a glob is not a substring"
    );
}

/// The junk list is the only list here whose failure mode is a file the user
/// wanted and never finds again, so each entry has to be a name a tool owns
/// rather than one a person would pick. The second half is the half that
/// matters: near-misses on the same words stay captured.
#[test]
fn the_junk_list_names_tool_caches_and_not_the_words_around_them() {
    let tree = tree(&RuleSet {
        watch: paths(&["A"]),
        junk: default_junk(),
        ..RuleSet::default()
    });

    for junk in [
        "A/.ruff_cache/0.16.2/1234",
        "A/.pytest_cache/v/cache/lastfailed",
        "A/.mypy_cache/3.14/x.json",
        "A/.ipynb_checkpoints/train-checkpoint.ipynb",
        "A/p/.kotlin/sessions/x",
        "A/P.xcodeproj/xcuserdata/me.xcuserdatad/xcschemes/x.plist",
        "A/lib/.swiftpm/xcode/xcuserdata/me.xcuserdatad/x.plist",
        "A/web/out/_next/static/build/main.js",
        "A/jvm/out/production/app/Main.class",
    ] {
        assert!(!captured(&tree, junk), "{junk} should be junk");
    }

    for wanted in [
        "A/cache/notes.md",
        "A/ruff_cache_notes.md",
        "A/.ruff_cache_of_mine.txt",
        "A/checkpoints/model.pt",
        "A/xcuserdata.md",
        "A/kotlin/Main.kt",
        "A/output/report.md",
        "A/checkout/receipt.pdf",
        "A/notes/out.md",
    ] {
        assert!(captured(&tree, wanted), "{wanted} is the user's own file");
    }
}

/// The pruning question. Answering it with the verdict alone would stop the walk
/// at `~/A/s` and lose the re-included subtree entirely.
#[test]
fn a_skipped_directory_still_reports_that_it_may_contain_captures() {
    let tree = tree(&RuleSet {
        watch: paths(&["A"]),
        ignore_paths: paths(&["A/s"]),
        reinclude: paths(&["A/s/keep"]),
        ..RuleSet::default()
    });
    let ignored = home("A/s");
    assert!(!captured(&tree, "A/s"), "the directory itself is skipped");
    assert!(
        tree.may_contain_captures(&ignored),
        "pruning here would lose the re-included subtree"
    );
    assert!(
        !tree.may_contain_captures(&home("A/other")),
        "a skipped directory with nothing under it is prunable"
    );
}

#[test]
fn hits_record_every_pattern_that_matched_anywhere() {
    let tree = tree(&RuleSet {
        watch: paths(&["A"]),
        ignore_globs: vec!["*.log".to_owned(), "*.never".to_owned()],
        junk: vec![Junk::Name("target")],
        ..RuleSet::default()
    });
    let mut hits = Hits::default();
    tree.record_hits(&home("A/p/target/a.log"), &mut hits);
    assert!(hits.globs.contains(&0), "*.log matched");
    assert!(!hits.globs.contains(&1), "*.never matched nothing");
}

fn add_local(tree: &mut RuleTree, base: &str, lists: Local<'_>) {
    let base_path = home(base);
    let file = home(&format!("{base}/.tycho/rules.toml"));
    let entry = |text: &&str| Entry {
        text: (*text).to_owned(),
        line: 1,
        path: home(&format!("{base}/{text}")),
    };
    let rules = LocalRules {
        ignore: lists.ignore.iter().map(entry).collect(),
        reinclude: lists.reinclude.iter().map(entry).collect(),
        globs: lists
            .globs
            .iter()
            .map(|text| GlobEntry {
                text: (*text).to_owned(),
                line: 1,
            })
            .collect(),
        unknown: Vec::new(),
    };
    tree.add_local(&base_path, &file, &rules)
        .expect("local rules compile");
}

#[derive(Clone, Copy, Default)]
struct Local<'a> {
    ignore: &'a [&'a str],
    reinclude: &'a [&'a str],
    globs: &'a [&'a str],
}

/// Row 9: identical path, tier and depth from two sources - the operator's
/// config wins, so a repository's own rules can always be overridden.
#[test]
fn row_9_a_global_rule_beats_a_local_rule_on_an_exact_tie() {
    let mut ignoring = tree(&RuleSet {
        watch: paths(&["A"]),
        ignore_paths: paths(&["A/proj/data"]),
        ..RuleSet::default()
    });
    add_local(
        &mut ignoring,
        "A/proj",
        Local {
            reinclude: &["data"],
            ..Local::default()
        },
    );
    assert!(
        !captured(&ignoring, "A/proj/data/model.bin"),
        "the ignore holds"
    );

    let mut keeping = tree(&RuleSet {
        watch: paths(&["A"]),
        reinclude: paths(&["A/proj/data"]),
        ..RuleSet::default()
    });
    add_local(
        &mut keeping,
        "A/proj",
        Local {
            ignore: &["data"],
            ..Local::default()
        },
    );
    assert!(
        captured(&keeping, "A/proj/data/model.bin"),
        "the reinclude holds"
    );
}

/// Two local files name the same path: the deeper file is closer to the data,
/// so it wins - in whichever order discovery found the two.
#[test]
fn a_deeper_local_file_beats_a_shallower_one() {
    for deeper_first in [false, true] {
        let mut tree = tree(&RuleSet {
            watch: paths(&["A"]),
            ..RuleSet::default()
        });
        let shallow = Local {
            ignore: &["sub/data"],
            ..Local::default()
        };
        let deep = Local {
            reinclude: &["data"],
            ..Local::default()
        };
        if deeper_first {
            add_local(&mut tree, "A/sub", deep);
            add_local(&mut tree, "A", shallow);
        } else {
            add_local(&mut tree, "A", shallow);
            add_local(&mut tree, "A/sub", deep);
        }
        assert!(
            captured(&tree, "A/sub/data/keep.txt"),
            "deeper_first: {deeper_first}"
        );
    }
}

/// A local glob is scoped: it matches beneath its directory - including
/// directly beneath it, the zero-component case of `**` - and nowhere else.
#[test]
fn a_local_glob_stays_inside_its_directory() {
    let mut tree = tree(&RuleSet {
        watch: paths(&["A"]),
        ..RuleSet::default()
    });
    add_local(
        &mut tree,
        "A/proj",
        Local {
            globs: &["*.ckpt"],
            ..Local::default()
        },
    );
    assert!(!captured(&tree, "A/proj/model.ckpt"), "directly beneath");
    assert!(!captured(&tree, "A/proj/deep/nest/model.ckpt"), "any depth");
    assert!(
        captured(&tree, "A/other/model.ckpt"),
        "a sibling is out of reach"
    );
    assert!(
        captured(&tree, "A/model.ckpt"),
        "the parent is out of reach"
    );
}

/// A directory named like a glob must stay a literal, or its rules would
/// reach into siblings their author never named.
#[test]
fn a_base_with_metacharacters_is_matched_literally() {
    let mut tree = tree(&RuleSet {
        watch: paths(&["A"]),
        ..RuleSet::default()
    });
    add_local(
        &mut tree,
        "A/pro[1]ject",
        Local {
            globs: &["*.ckpt"],
            ..Local::default()
        },
    );
    assert!(!captured(&tree, "A/pro[1]ject/model.ckpt"));
    assert!(captured(&tree, "A/pro1ject/model.ckpt"), "no class match");
}

#[test]
fn local_glob_hits_are_recorded_by_id() {
    let mut tree = tree(&RuleSet {
        watch: paths(&["A"]),
        ..RuleSet::default()
    });
    add_local(
        &mut tree,
        "A/proj",
        Local {
            globs: &["*.log", "*.never"],
            ..Local::default()
        },
    );
    let ids: Vec<_> = tree.local_glob_ids();
    let mut hits = Hits::default();
    tree.record_hits(&home("A/proj/x.log"), &mut hits);
    assert!(hits.local.contains(&ids[0]), "*.log matched");
    assert!(!hits.local.contains(&ids[1]), "*.never matched nothing");
}

/// The walk resolves by descending one step per entry; a divergence between
/// the two would make what the walk keeps differ from what `capture` keeps.
#[test]
fn resolve_is_the_fold_of_descend() {
    let tree = tree(&RuleSet {
        watch: paths(&["A"]),
        ignore_paths: paths(&["A/s"]),
        reinclude: paths(&["A/s/keep"]),
        ignore_globs: vec!["*.log".to_owned()],
        junk: default_junk(),
    });
    for candidate in [
        "A/x.md",
        "A/s/t.bin",
        "A/s/keep/k.pem",
        "A/s/keep/a.log",
        "A/p/target/x.o",
        "B/y.md",
    ] {
        let path = home(candidate);
        let mut folded = Decision::none();
        for depth in 0..=path.depth() {
            folded = tree.descend(folded, &path.ancestor(depth), depth + 1);
        }
        assert_eq!(folded, tree.resolve(&path), "{candidate}");
    }
}

#[test]
fn a_path_no_rule_matches_is_skipped() {
    let tree = tree(&RuleSet {
        watch: paths(&["A"]),
        ..RuleSet::default()
    });
    assert!(!captured(&tree, "B/x.md"));
}

#[test]
fn a_watch_at_a_shallow_depth_never_rescues_a_deeper_ignore() {
    let tree = tree(&RuleSet {
        watch: paths(&["A"]),
        junk: vec![Junk::Name("node_modules")],
        ..RuleSet::default()
    });
    assert!(!captured(&tree, "A/b/c/d/e/f/node_modules/pkg/index.js"));
}

#[test]
fn a_glob_matches_a_path_that_is_not_utf_8() {
    let tree = tree(&RuleSet {
        watch: paths(&["A"]),
        ignore_globs: vec!["*.log".to_owned()],
        ..RuleSet::default()
    });
    let hostile = AbsPath::from_absolute(b"/h/A/caf\xff/a.log").expect("absolute");
    assert!(!tree.captures(&hostile));
    let kept = AbsPath::from_absolute(b"/h/A/caf\xff/a.md").expect("absolute");
    assert!(tree.captures(&kept));
}

#[test]
fn an_invalid_glob_is_reported_rather_than_ignored() {
    let error = RuleTree::build(&RuleSet {
        ignore_globs: vec!["[".to_owned()],
        ..RuleSet::default()
    })
    .expect_err("an unclosed class is not a glob");
    assert!(error.text().contains('['), "{}", error.text());
}

/// A directory whose name looks like a pattern is still only itself.
#[test]
fn a_local_glob_takes_its_directory_literally() {
    let mut tree = tree(&RuleSet {
        watch: paths(&["A"]),
        ..RuleSet::default()
    });
    add_local(&mut tree, "A/[x]", Local { globs: &["*.log"], ..Local::default() });
    assert!(!captured(&tree, "A/[x]/a.log"));
    assert!(captured(&tree, "A/x/a.log"));
}

#[test]
fn a_path_that_is_not_utf_8_is_shown_with_a_stand_in() {
    let hostile = AbsPath::from_absolute(b"/h/caf\xff").expect("absolute");
    assert_eq!(hostile.text(), "/h/caf\u{fffd}");
    assert_eq!(hostile.as_path(), b"/h/caf\xff");
}
