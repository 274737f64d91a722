use tycho::bootstrap::BootstrapArgs;
use tycho::cli::{
    dispatch, names, Command, ConfigAction, ConfigArgs, DoctorArgs, Exit, Handler, RestoreArgs,
    RuleAction, RuleArgs, RunArgs, Source, INTERNAL,
};
use tycho::config_edit::List;

#[test]
fn exit_codes_match_the_contract() {
    assert_eq!(Exit::Success.code(), 0);
    assert_eq!(Exit::Failure.code(), 1);
    assert_eq!(Exit::Warning.code(), 3);
}

#[test]
fn a_parsed_command_reports_the_name_it_was_typed_as() {
    for (command, want) in [
        (
            Command::Run(RunArgs {
                profile: None,
                all: false,
                dry_run: false,
                quick: false,
                allow_shrink: false,
                config: None,
            }),
            "run",
        ),
        (
            Command::Config(ConfigArgs {
                action: ConfigAction::Check,
                config: None,
            }),
            "config",
        ),
        (
            Command::Doctor(DoctorArgs {
                profile: None,
                deep: false,
                remote: None,
                config: None,
            }),
            "doctor",
        ),
    ] {
        assert_eq!(command.name(), want);
    }
}

#[test]
fn the_internal_command_is_among_the_names() {
    assert_eq!(names().len(), 16);
    assert!(names().contains(&INTERNAL));
    let bootstrap = Command::Bootstrap(BootstrapArgs {
        only_completions: true,
        debug: false,
    });
    assert!(!names().contains(&bootstrap.name()));
}

fn rule_args() -> RuleArgs {
    RuleArgs {
        action: RuleAction::List,
        profile: None,
        config: None,
    }
}

#[test]
fn the_three_rule_commands_share_a_handler() {
    assert_eq!(
        dispatch(Command::Watch(rule_args())),
        Handler::Rules(List::Watch, rule_args())
    );
    assert_eq!(
        dispatch(Command::Ignore(rule_args())),
        Handler::Rules(List::Ignore, rule_args())
    );
    assert_eq!(
        dispatch(Command::Reinclude(rule_args())),
        Handler::Rules(List::Reinclude, rule_args())
    );
}

#[test]
fn a_store_named_outright_needs_no_profile() {
    let mut args = RestoreArgs {
        profile: Some("cex".to_owned()),
        into: b"/tmp/rescue".to_vec(),
        store: None,
        at: None,
        bundle: false,
        force: false,
        config: None,
        paths: Vec::new(),
    };
    assert_eq!(args.source(), Source::Profile(Some("cex".to_owned())));
    args.store = Some(b"/Volumes/T7/cex.git".to_vec());
    assert_eq!(args.source(), Source::Store(b"/Volumes/T7/cex.git".to_vec()));
}
