use tycho::cli::report::{at_config_key, at_file, at_file_line, at_profile, at_remote, at_store};
use tycho::cli::report::{Diagnostic, Severity};
use tycho::cli::Exit;

fn plain(diagnostic: &Diagnostic) -> String {
    strip(&diagnostic.render(true))
}

/// Colour is emphasis on text that already says it, so every assertion below is
/// on the words rather than on the escapes.
fn strip(text: &str) -> String {
    let mut out = String::with_capacity(text.len());
    let mut chars = text.chars();
    while let Some(c) = chars.next() {
        if c == '\x1b' {
            for skip in chars.by_ref() {
                if skip.is_ascii_alphabetic() {
                    break;
                }
            }
        } else {
            out.push(c);
        }
    }
    out
}

#[test]
fn a_title_alone_is_one_line() {
    assert_eq!(
        plain(&Diagnostic::error("stores do not match")),
        "error: stores do not match\n"
    );
}

#[test]
fn the_severity_alone_decides_the_exit_code() {
    assert_eq!(Exit::from(Severity::Error), Exit::Failure);
    assert_eq!(Exit::from(Severity::Warning), Exit::Warning);
}

/// The separators appear *between* sections and never above the first one, which
/// is what keeps a title-plus-one-note block from opening with a bare rule.
#[test]
fn rules_separate_sections_and_never_lead() {
    let one = Diagnostic::error("t").note("n");
    assert_eq!(plain(&one), "error: t\n  = note: n\n");

    let two = Diagnostic::error("t").location(at_profile("cex")).note("n");
    assert_eq!(
        plain(&two),
        "error: t\n  --> profile cex\n  |\n  = note: n\n"
    );
}

#[test]
fn sections_render_in_canonical_order_whatever_the_builder_order() {
    let built = Diagnostic::error("t")
        .recovery("cmd")
        .help("h")
        .note("n")
        .location(at_remote("ghost-r"));
    assert_eq!(
        plain(&built),
        "error: t\n  --> remote ghost-r\n  |\n  = note: n\n  |\n  help: h\n  \
         |\n  recovery:\n    $ cmd\n"
    );
}

#[test]
fn a_recovery_descriptor_renders_as_a_shell_comment() {
    let built = Diagnostic::error("t").recovery_with("tycho run", "take a backup now");
    assert_eq!(
        plain(&built),
        "error: t\n  recovery:\n    $ tycho run\n        # take a backup now\n"
    );
}

/// A note's continuation aligns under the body, not under the `= note:` label.
#[test]
fn a_multi_line_note_aligns_its_continuation() {
    let built = Diagnostic::error("t").note("first\nsecond");
    assert_eq!(
        plain(&built),
        "error: t\n  = note: first\n          second\n"
    );
}

/// The colouring is a span walk over user text, so the failure that matters is
/// losing characters, not losing colour.
#[test]
fn span_colouring_never_drops_text() {
    let built = Diagnostic::error("t")
        .note("run `tycho run` and an unclosed ` stays put")
        .recovery("tycho remote add <name> <path>");
    let rendered = plain(&built);
    assert!(
        rendered.contains("run `tycho run` and an unclosed ` stays put"),
        "{rendered}"
    );
    assert!(
        rendered.contains("$ tycho remote add <name> <path>"),
        "{rendered}"
    );
}

/// A handler answers with a diagnostic, and its severity is the exit.
#[test]
fn the_macro_is_an_expression_yielding_the_exit() {
    let name = "ghost-r";
    let (text, exit) = Diagnostic::error(&format!("'{name}' is the only remote on this profile"))
        .location(at_remote(name))
        .note("a profile with no remote keeps its backup on this machine")
        .help("add the replacement before removing this one")
        .recovery_with(
            "tycho remote add <name> <path>",
            "point it at the new destination",
        )
        .recovery(&format!("tycho remote rm {name} --local-only"))
        .emit(false);
    assert_eq!(exit, Exit::Failure);
    assert!(text.contains("$ tycho remote rm ghost-r --local-only\n"), "{text}");

    let (_, warned) = Diagnostic::warning("nothing to do").emit(false);
    assert_eq!(warned, Exit::Warning);
}

#[test]
fn every_location_says_what_it_points_at() {
    let shown = |at| plain(&Diagnostic::warning("w").location(at));
    assert_eq!(
        shown(at_config_key("profile.cex.remotes")),
        "warning: w\n  --> config key profile.cex.remotes\n"
    );
    assert_eq!(shown(at_store("/s/a.git")), "warning: w\n  --> store /s/a.git\n");
    assert_eq!(shown(at_file("/c.toml")), "warning: w\n  --> /c.toml\n");
    assert_eq!(shown(at_file_line("/c.toml", 7)), "warning: w\n  --> /c.toml:7\n");
}

#[test]
fn a_location_replaces_the_one_before_it() {
    let built = Diagnostic::error("t").location(at_profile("a")).location(at_profile("b"));
    assert_eq!(plain(&built), "error: t\n  --> profile b\n");
}

#[test]
fn a_diagnostic_says_what_it_was_built_from() {
    let built = Diagnostic::warning("t").note("n1").note("n2").help("h").recovery_with("c", "d");
    assert_eq!(built.severity(), Severity::Warning);
    assert_eq!(built.title(), "t");
    assert_eq!(built.notes(), ["n1", "n2"]);
    assert_eq!(built.helps(), ["h"]);
    assert_eq!(built.recoveries().len(), 1);
    assert_eq!(built.recoveries()[0].cmd, "c");
    assert_eq!(built.recoveries()[0].desc.as_deref(), Some("d"));
}

#[test]
fn a_multi_line_help_aligns_its_continuation() {
    let built = Diagnostic::error("t").help("first\nsecond");
    assert_eq!(plain(&built), "error: t\n  help: first\n        second\n");
}

#[test]
fn the_spans_of_a_coloured_block_carry_their_own_colours() {
    let text = Diagnostic::error("t").note("a `b` c").recovery("run <x>").render(true);
    assert!(text.starts_with("\x1b[1;31merror\x1b[0m: \x1b[1mt\x1b[0m\n"), "{text:?}");
    assert!(text.contains("a \x1b[36m`b`\x1b[0m c\n"), "{text:?}");
    assert!(
        text.contains("\x1b[36mrun \x1b[0m\x1b[33m<x>\x1b[0m\x1b[36m\x1b[0m\n"),
        "{text:?}"
    );
}
