use tycho::metadata::replay::{capture, Stat, Stated};
use tycho::metadata::{parse, render, Manifest, Record, MANIFEST};
use tycho::primitives::path::AbsPath;
use tycho::store::REPOS_PREFIX;

fn record(mode: u32) -> Record {
    Record {
        mode,
        owner: "me".to_owned(),
        group: "staff".to_owned(),
        xattrs: Vec::new(),
    }
}

/// A path with no manifest record restores at git's `0644`. Dropping the record
/// silently is how a `0600` file comes back world-readable under a run that
/// reported success, so the miss has to reach the caller.
#[test]
fn a_path_whose_mode_cannot_be_read_is_reported_rather_than_dropped() {
    let stated = vec![
        Stated {
            source: AbsPath::from_absolute(b"/tmp/never-existed").expect("absolute"),
            key: "A/never-existed".to_owned(),
            stat: Err("No such file or directory (os error 2)".to_owned()),
        },
        Stated {
            source: AbsPath::from_absolute(b"/tmp/here").expect("absolute"),
            key: "A/here".to_owned(),
            stat: Ok(Stat {
                symlink: false,
                uid: 1,
                gid: 2,
                mode: 0o100600,
            }),
        },
    ];

    let (manifest, missed) = capture(&stated, &[]);

    assert!(manifest.get("A/never-existed").is_none());
    assert_eq!(manifest.get("A/here").map(|r| r.mode), Some(0o600));
    assert_eq!(missed.len(), 1, "{missed:?}");
    assert!(missed[0].contains("never-existed"), "{missed:?}");
}

#[test]
fn a_manifest_round_trips() {
    let mut manifest = Manifest::new();
    manifest.insert("A/.env".to_owned(), record(0o600));
    manifest.insert(
        "A/bin/deploy.sh".to_owned(),
        Record {
            xattrs: vec![("com.example.tag".to_owned(), vec![0x00, 0x01, 0xff])],
            ..record(0o700)
        },
    );

    assert_eq!(parse(&render(&manifest)), manifest);
}

/// A tab or a newline in a filename is legal on every Unix, and a manifest a
/// filename can corrupt is not a manifest.
#[test]
fn a_path_holding_a_tab_or_a_newline_survives() {
    let mut manifest = Manifest::new();
    manifest.insert("A/a\tb\nc.md".to_owned(), record(0o644));

    let text = render(&manifest);
    assert_eq!(
        text.lines().count(),
        1,
        "the encoded path must not break the line: {text:?}"
    );
    assert_eq!(parse(&text), manifest);
}

/// The mode is the whole point: git stored `100644` for a file that was `0600`,
/// so a manifest that lost the distinction would be decoration.
#[test]
fn the_full_mode_survives_rather_than_just_the_execute_bit() {
    let mut manifest = Manifest::new();
    manifest.insert("secret".to_owned(), record(0o600));
    manifest.insert("setuid".to_owned(), record(0o4755));

    let back = parse(&render(&manifest));
    assert_eq!(back.get("secret").map(|r| r.mode), Some(0o600));
    assert_eq!(back.get("setuid").map(|r| r.mode), Some(0o4755));
}

/// A newer version's line must not stop an older one restoring the files, which
/// are the thing that matters.
#[test]
fn an_unknown_line_is_skipped_rather_than_failing_the_restore() {
    let text = "f\t0600\tme\tstaff\tA%2F.env\nz\tsomething\tfrom\tthe\tfuture\n";
    let manifest = parse(text);
    assert_eq!(manifest.len(), 1);
    assert_eq!(manifest.get("A/.env").map(|r| r.mode), Some(0o600));
}

#[test]
fn the_manifest_lives_under_the_tycho_prefix() {
    assert!(MANIFEST.starts_with(REPOS_PREFIX.trim_end_matches("repos/")));
}
