use tycho::bootstrap::{
    cannot, checkout_roots, config_source, discover, done, expand_home, install_args,
    install_binary, is_tycho_checkout, patch_rc, persist_source_env, powershell_profile,
    resolve_source_with, row, scan, settled, skips, source_env_rc, write_completions, Candidate,
    Shell, MARKER,
};
use tycho::cli::page::Tint;
use tycho::platform::Host;
use tycho::primitives::path::AbsPath;
use tycho::process::{Output, RunError};

const HOME: &str = "/home/me";

fn checkout(path: &str) -> Option<Candidate> {
    Some(Candidate { path: path.to_owned(), checkout: true })
}

fn other(path: &str) -> Option<Candidate> {
    Some(Candidate { path: path.to_owned(), checkout: false })
}

fn no_cwd() -> Result<Candidate, String> {
    Ok(Candidate { path: "/tmp/cwd".to_owned(), checkout: false })
}

/// The manifest's `name`, not the directory's: a checkout cloned under another
/// name is still a checkout, and a folder called `tycho` holding something else
/// is not.
#[test]
fn a_checkout_is_recognised_by_its_manifest_rather_than_its_directory_name() {
    assert!(!is_tycho_checkout(None));
    assert!(!is_tycho_checkout(Some("[package]\nname = \"other\"\n")));
    assert!(is_tycho_checkout(Some("[package]\nname = \"tycho\"\n")));
}

/// `target` alone can hold tens of thousands of files, and a scan that walks it is
/// a command people learn not to run.
#[test]
fn the_scan_skips_the_directories_that_would_make_it_slow() {
    assert!(skips("target"));
    assert!(skips("node_modules"));
    for name in ["build", "dist", ".git", ".cache"] {
        assert!(skips(name), "{name}");
    }
    assert!(!skips("tycho"));
    assert!(!skips("targets"));
    assert!(!skips(""));
}

#[test]
fn expand_home_accepts_dollar_home_as_well_as_tilde() {
    assert_eq!(expand_home("~/Developer/tycho", Some(HOME)), "/home/me/Developer/tycho");
    assert_eq!(expand_home("$HOME/Developer/tycho", Some(HOME)), "/home/me/Developer/tycho");
    assert_eq!(expand_home("${HOME}/Developer/tycho", Some(HOME)), "/home/me/Developer/tycho");
    assert_eq!(expand_home("/already/absolute", Some(HOME)), "/already/absolute");
}

#[test]
fn a_home_that_is_not_there_leaves_the_text_alone() {
    assert_eq!(expand_home("~/Developer", None), "~/Developer");
    assert_eq!(expand_home("~\\Developer", Some("/h/")), "/h/Developer");
    assert_eq!(expand_home("~//abs", Some(HOME)), "/abs");
    assert_eq!(expand_home("~", Some(HOME)), "~");
}

#[test]
fn config_source_reads_the_top_level_key() {
    assert_eq!(
        config_source(Some("version = 1\nsource = \"~/Developer/tycho\"\n"), Some(HOME)),
        Some(expand_home("~/Developer/tycho", Some(HOME)))
    );
}

#[test]
fn config_source_is_none_without_the_key_the_file_or_valid_toml() {
    assert_eq!(config_source(Some("version = 1\n"), Some(HOME)), None, "no source key");
    assert_eq!(config_source(Some("not valid toml ====="), Some(HOME)), None, "malformed file");
    assert_eq!(config_source(None, Some(HOME)), None, "no file at all");
}

#[test]
fn a_source_that_is_no_text_is_none() {
    assert_eq!(config_source(Some("source = 3\n"), Some(HOME)), None);
    assert_eq!(config_source(Some("[profile]\nsource = \"~/x\"\n"), Some(HOME)), None);
}

/// Requirement: the config's source is used when nothing else names one.
#[test]
fn config_source_wins_over_the_scan() {
    let result = resolve_source_with(
        None,
        checkout("/c/config"),
        Some("/c/scanned".to_owned()),
        no_cwd(),
        Shell::Zsh,
    );
    assert_eq!(result.1, Some("/c/config".to_owned()));
    assert!(result.0.is_empty());
}

/// Requirement: a config `source` that is not a checkout is a note, not a
/// failure - the scan still runs.
#[test]
fn a_bad_config_source_falls_through_to_the_scan() {
    let result = resolve_source_with(
        None,
        other("/c/config"),
        Some("/c/scanned".to_owned()),
        no_cwd(),
        Shell::Zsh,
    );
    assert_eq!(result.1, Some("/c/scanned".to_owned()));
    assert_eq!(result.0.len(), 1);
    assert_eq!(
        result.0[0].title(),
        "the config's source = '/c/config' is not a tycho checkout"
    );
}

/// Requirement: `TYCHO_SRC` outranks the config, which outranks the scan.
#[test]
fn tycho_src_still_beats_the_config() {
    let result = resolve_source_with(
        checkout("/c/env"),
        checkout("/c/config"),
        None,
        no_cwd(),
        Shell::Zsh,
    );
    assert_eq!(result.1, Some("/c/env".to_owned()));
    assert!(settled(&checkout("/c/env"), &None));
    assert!(settled(&other("/c/env"), &checkout("/c/config")));
    assert!(!settled(&other("/c/env"), &None));
}

#[test]
fn with_no_checkout_anywhere_it_says_what_to_type() {
    let result = resolve_source_with(other("/c/env"), None, None, no_cwd(), Shell::Zsh);
    assert_eq!(result.1, None);
    assert_eq!(result.0.len(), 2);
    assert_eq!(result.0[0].title(), "$TYCHO_SRC = '/c/env' is not a tycho checkout");
    assert_eq!(result.0[1].title(), "no tycho checkout found");
    assert_eq!(result.0[1].recoveries()[0].cmd, "export TYCHO_SRC=~/Developer/tycho");

    let result = resolve_source_with(None, None, None, no_cwd(), Shell::Pwsh);
    assert_eq!(
        result.0[0].recoveries()[0].cmd,
        "$env:TYCHO_SRC = \"$HOME\\Developer\\tycho\""
    );

    let result = resolve_source_with(None, None, None, Err("gone".to_owned()), Shell::Zsh);
    assert_eq!(result.0[0].title(), "cannot read the current directory: gone");

    let here = Ok(Candidate { path: "/here".to_owned(), checkout: true });
    let result = resolve_source_with(None, None, None, here, Shell::Zsh);
    assert_eq!(result.1, Some("/here".to_owned()));
}

#[test]
fn a_scan_goes_four_levels_down_and_not_into_a_checkout() {
    let children = vec![
        ("a".to_owned(), "/r/a".to_owned()),
        ("target".to_owned(), "/r/target".to_owned()),
        (".hidden".to_owned(), "/r/.hidden".to_owned()),
        ("b".to_owned(), "/r/b".to_owned()),
    ];
    let next = scan(0, None, &children);
    assert_eq!(next.len(), 2);
    assert_eq!((next[0].path.as_str(), next[0].depth), ("/r/a", 1));
    assert_eq!((next[1].path.as_str(), next[1].depth), ("/r/b", 1));
    assert_eq!(scan(3, Some("name = \"other\""), &children).len(), 2);
    assert!(scan(4, None, &children).is_empty());
    assert!(scan(0, Some("name = \"tycho\""), &children).is_empty());
}

#[test]
fn the_first_checkout_by_its_path_is_the_one() {
    let at = |text: &str| AbsPath::from_absolute(text.as_bytes()).expect("a path");
    // Component by component: `/r/a/x` stands before `/r/a-b`.
    let hits = vec![at("/r/b"), at("/r/a-b"), at("/r/a/x")];
    assert_eq!(discover(&hits), Some(2));
    assert_eq!(discover(&[]), None);
}

#[test]
fn windows_has_one_more_place_to_look() {
    assert_eq!(
        checkout_roots(Host::MacOs, HOME),
        vec!["/home/me/Developer", "/home/me/Projects", "/home/me/src", "/home/me/code"]
    );
    let windows = checkout_roots(Host::Windows, HOME);
    assert_eq!(windows.len(), 5);
    assert_eq!(windows[4], "/home/me/source/repos");
}

#[test]
fn an_install_says_how_it_failed() {
    assert_eq!(install_args("/c", false), vec!["install", "--path", "/c", "--force"]);
    assert_eq!(install_args("/c", true), vec!["install", "--path", "/c", "--force", "--debug"]);
    assert!(install_binary("/c", Ok(Some(0))).is_ok());
    let failed = install_binary("/c", Ok(Some(101))).expect_err("failed");
    assert_eq!(failed.title(), "cargo install failed (exit Some(101))");
    assert_eq!(failed.recoveries()[0].cmd, "cargo install --path /c");
    let failed = install_binary("/c", Ok(Some(-7))).expect_err("failed");
    assert_eq!(failed.title(), "cargo install failed (exit Some(-7))");
    let failed = install_binary("/c", Ok(None)).expect_err("failed");
    assert_eq!(failed.title(), "cargo install failed (exit None)");
    let failed = install_binary("/c", Err("no such file".to_owned())).expect_err("failed");
    assert_eq!(failed.title(), "failed to spawn cargo: no such file");
}

#[test]
fn the_shell_is_the_one_that_is_running() {
    assert_eq!(Shell::detect(Host::MacOs, Some("/bin/zsh")), Shell::Zsh);
    assert_eq!(Shell::detect(Host::MacOs, Some("/usr/bin/fish")), Shell::Fish);
    assert_eq!(Shell::detect(Host::MacOs, Some("/bin/sh")), Shell::Bash);
    assert_eq!(Shell::detect(Host::MacOs, None), Shell::Bash);
    assert_eq!(Shell::detect(Host::Windows, Some("/bin/zsh")), Shell::Pwsh);
    assert_eq!(Shell::Pwsh.reload_hint(), ". $PROFILE");
    assert_eq!(Shell::Zsh.reload_hint(), "exec $SHELL");
}

#[test]
fn each_shell_has_its_own_place_for_completions() {
    let zsh = write_completions(Shell::Zsh, HOME, false, "", "");
    assert_eq!(zsh.dir, "/home/me/.zsh/completions");
    assert_eq!(zsh.file, "_tycho");
    assert_eq!(
        zsh.rc,
        Some((
            "/home/me/.zshrc".to_owned(),
            "# tycho completions\nfpath=(~/.zsh/completions $fpath)\nautoload -U compinit && compinit\n".to_owned()
        ))
    );
    let bash = write_completions(Shell::Bash, HOME, true, "", "");
    assert_eq!(bash.rc.expect("an rc file").0, "/home/me/.bash_profile");
    let bash = write_completions(Shell::Bash, HOME, false, "", "");
    assert_eq!(bash.rc.expect("an rc file").0, "/home/me/.bashrc");
    assert_eq!(write_completions(Shell::Fish, HOME, false, "", "").rc, None);
    let pwsh = write_completions(Shell::Pwsh, HOME, false, "/d/profile.ps1", "/d");
    assert_eq!(pwsh.dir, "/d/Completions");
    assert_eq!(
        pwsh.rc,
        Some((
            "/d/profile.ps1".to_owned(),
            "# tycho completions\n. \"/d/Completions/tycho.ps1\"\n".to_owned()
        ))
    );
}

#[test]
fn patching_twice_appends_once() {
    let block = write_completions(Shell::Zsh, HOME, false, "", "").rc.expect("an rc file").1;
    let more = patch_rc("alias a=b\n", MARKER, &block).expect("appended");
    assert_eq!(more, format!("\n{block}"));
    let patched = format!("alias a=b\n{more}");
    assert_eq!(patch_rc(&patched, MARKER, &block), None);
}

#[test]
fn the_variable_is_written_the_way_the_shell_reads_it() {
    assert_eq!(
        persist_source_env(Shell::Zsh, "", "/c"),
        Some("\nexport TYCHO_SRC=\"/c\"\n".to_owned())
    );
    assert_eq!(
        persist_source_env(Shell::Fish, "", "/c"),
        Some("\nset -gx TYCHO_SRC \"/c\"\n".to_owned())
    );
    assert_eq!(
        persist_source_env(Shell::Pwsh, "", "/c"),
        Some("\n$env:TYCHO_SRC = \"/c\"\n".to_owned())
    );
    assert_eq!(persist_source_env(Shell::Zsh, "export TYCHO_SRC=/x\n", "/c"), None);
    assert_eq!(source_env_rc(Shell::Zsh, HOME, true, ""), "/home/me/.zshrc");
    assert_eq!(source_env_rc(Shell::Bash, HOME, false, ""), "/home/me/.bashrc");
    assert_eq!(source_env_rc(Shell::Fish, HOME, true, ""), "/home/me/.config/fish/config.fish");
    assert_eq!(source_env_rc(Shell::Pwsh, HOME, true, "/p.ps1"), "/p.ps1");
}

#[test]
fn powershell_is_asked_where_its_profile_is() {
    let gone = || Err(RunError { message: "no".to_owned() });
    let said = |text: &str| {
        Ok(Output { success: true, stdout: text.as_bytes().to_vec(), stderr: Vec::new() })
    };
    assert_eq!(powershell_profile(Host::Windows, "/h", &said(" /a.ps1\r\n"), &gone()), "/a.ps1");
    assert_eq!(powershell_profile(Host::Windows, "/h", &said("\n"), &said("/b.ps1")), "/b.ps1");
    assert_eq!(
        powershell_profile(Host::Windows, "/h", &gone(), &gone()),
        "/h/Documents/WindowsPowerShell/Microsoft.PowerShell_profile.ps1"
    );
    assert_eq!(
        powershell_profile(Host::MacOs, "/h", &said("/a.ps1"), &gone()),
        "/h/.config/powershell/Microsoft.PowerShell_profile.ps1"
    );
}

#[test]
fn a_step_is_one_row() {
    assert_eq!(row("binary", "installed", Tint::Green, false), "binary          installed\n");
    assert_eq!(
        done(Shell::Zsh, false),
        "\ndone\n  Run exec $SHELL to load completions now.\n"
    );
    let refused = cannot("create", "/d", "denied");
    assert_eq!(refused.title(), "cannot create /d");
    assert_eq!(refused.notes(), ["denied"]);
}

/// The file is read leniently: a key this build cannot hold hides nothing.
#[test]
fn the_source_key_is_read_beside_any_other() {
    let read = |text: &str| config_source(Some(text), Some("/h"));
    assert_eq!(read("source = \"/s\"\nodd = 9223372036854775808\n").as_deref(), Some("/s"));
    assert_eq!(read("source = \"~/s\"\n[[profile]]\nname = 3\n").as_deref(), Some("/h/s"));
    assert_eq!(read("source = 3\n"), None);
    assert_eq!(read("source = \"/s\"\nsource = \"/t\"\n"), None);
    assert_eq!(read("other = \"/s\"\n"), None);
}
