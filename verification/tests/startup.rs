use pacdef::startup::{handle_final_result, main_inner, Context, Exit, Outcome, RunResult, Startup};

#[test]
fn start_with_a_readable_configuration() {
    let mut state = Startup::LocatingConfig;
    let mut seen = vec![state];
    while state != Startup::Finished {
        state = main_inner(state, Outcome::Done);
        seen.push(state);
    }
    assert_eq!(
        seen,
        vec![
            Startup::LocatingConfig,
            Startup::LoadingConfig,
            Startup::LocatingGroupDir,
            Startup::LoadingGroups,
            Startup::RunningAction,
            Startup::Finished,
        ]
    );
}

#[test]
fn unreadable_configuration_is_replaced_by_the_default() {
    let state = main_inner(Startup::LoadingConfig, Outcome::Failed);
    assert_eq!(state, Startup::LocatingOldConfig);
    assert_eq!(main_inner(state, Outcome::Missing), Startup::SavingDefaultConfig);
    assert_eq!(main_inner(Startup::SavingDefaultConfig, Outcome::Done), Startup::LocatingGroupDir);
}

#[test]
fn old_configuration_brings_the_transition_link() {
    assert_eq!(main_inner(Startup::LocatingOldConfig, Outcome::Done), Startup::ShowingTransitionLink);
    assert_eq!(main_inner(Startup::ShowingTransitionLink, Outcome::Done), Startup::SavingDefaultConfig);
    assert_eq!(main_inner(Startup::ShowingTransitionLink, Outcome::Failed), Startup::SavingDefaultConfig);
}

#[test]
fn each_step_fails_under_its_context() {
    assert_eq!(main_inner(Startup::LocatingConfig, Outcome::Failed), Startup::Failed(Context::GettingConfigFile));
    assert_eq!(main_inner(Startup::LocatingOldConfig, Outcome::Failed), Startup::Failed(Context::LoadingConfig));
    assert_eq!(main_inner(Startup::SavingDefaultConfig, Outcome::Failed), Startup::Failed(Context::LoadingConfig));
    assert_eq!(main_inner(Startup::LocatingGroupDir, Outcome::Failed), Startup::Failed(Context::ResolvingGroupDir));
    assert_eq!(main_inner(Startup::LoadingGroups, Outcome::Failed), Startup::Failed(Context::LoadingGroups));
    assert_eq!(main_inner(Startup::RunningAction, Outcome::Failed), Startup::Failed(Context::RunningAction));
}

#[test]
fn an_ended_start_stays_ended() {
    for outcome in [Outcome::Done, Outcome::Missing, Outcome::Failed] {
        assert_eq!(main_inner(Startup::Finished, outcome), Startup::Finished);
        assert_eq!(
            main_inner(Startup::Failed(Context::LoadingGroups), outcome),
            Startup::Failed(Context::LoadingGroups)
        );
    }
}

#[test]
fn exit_follows_the_result() {
    assert_eq!(handle_final_result(RunResult::Succeeded), Exit::Success);
    assert_eq!(handle_final_result(RunResult::NoPackagesFound), Exit::SilentFailure);
    assert_eq!(handle_final_result(RunResult::OtherKnownFailure), Exit::ReportedWithContext);
    assert_eq!(handle_final_result(RunResult::ForeignFailure), Exit::Reported);
}
