use yoyo::commands::{dispatch_command, CommandKind, CommandResult};

/// Lightweight category for testing dispatch logic without an agent.
#[derive(Debug)]
enum CommandCategory {
    Quit,
    Simple,
    NeedsState,
    NotACommand,
}

/// Categorize a command by what `dispatch_command` recognises.
fn categorize_command(input: &str) -> CommandCategory {
    match dispatch_command(input).kind {
        CommandKind::Quit => CommandCategory::Quit,
        CommandKind::Help
        | CommandKind::Version
        | CommandKind::Diff
        | CommandKind::Undo
        | CommandKind::Health
        | CommandKind::Context
        | CommandKind::Init
        | CommandKind::Run
        | CommandKind::Unknown => CommandCategory::Simple,
        CommandKind::NotACommand => CommandCategory::NotACommand,
        _ => CommandCategory::NeedsState,
    }
}

#[test]
fn test_dispatch_quit() {
    assert!(matches!(categorize_command("/quit"), CommandCategory::Quit));
    assert!(matches!(categorize_command("/exit"), CommandCategory::Quit));
}

#[test]
fn test_dispatch_simple_commands() {
    assert!(matches!(categorize_command("/help"), CommandCategory::Simple));
    assert!(matches!(categorize_command("/version"), CommandCategory::Simple));
    assert!(matches!(categorize_command("/diff"), CommandCategory::Simple));
    assert!(matches!(categorize_command("/undo"), CommandCategory::Simple));
    assert!(matches!(categorize_command("/health"), CommandCategory::Simple));
    assert!(matches!(categorize_command("/context"), CommandCategory::Simple));
    assert!(matches!(categorize_command("/init"), CommandCategory::Simple));
}

#[test]
fn test_dispatch_state_commands() {
    assert!(matches!(categorize_command("/status"), CommandCategory::NeedsState));
    assert!(matches!(categorize_command("/tokens"), CommandCategory::NeedsState));
    assert!(matches!(categorize_command("/cost"), CommandCategory::NeedsState));
    assert!(matches!(categorize_command("/config"), CommandCategory::NeedsState));
    assert!(matches!(categorize_command("/model"), CommandCategory::NeedsState));
    assert!(matches!(
        categorize_command("/model opus-4-6"),
        CommandCategory::NeedsState
    ));
}

#[test]
fn test_dispatch_not_a_command() {
    assert!(matches!(categorize_command("hello world"), CommandCategory::NotACommand));
    assert!(matches!(categorize_command("what is rust?"), CommandCategory::NotACommand));
}

#[test]
fn test_dispatch_run_commands() {
    assert!(matches!(categorize_command("/run echo hello"), CommandCategory::Simple));
    assert!(matches!(categorize_command("!ls"), CommandCategory::Simple));
    assert!(matches!(categorize_command("/run"), CommandCategory::Simple));
}

#[test]
fn test_dispatch_unknown_command() {
    assert!(matches!(categorize_command("/foobar"), CommandCategory::Simple));
    assert!(matches!(categorize_command("/xyz something"), CommandCategory::Simple));
}

#[test]
fn dispatch_results_follow_the_kind() {
    assert_eq!(dispatch_command("/quit").result(), CommandResult::Quit);
    assert_eq!(dispatch_command("/exit").result(), CommandResult::Quit);
    assert_eq!(dispatch_command("/help").result(), CommandResult::Continue);
    assert_eq!(dispatch_command("hello").result(), CommandResult::NotACommand);
    assert_eq!(dispatch_command("/foobar").result(), CommandResult::Continue);
}

#[test]
fn dispatch_every_fixed_command() {
    let cases = [
        ("/help", CommandKind::Help),
        ("/version", CommandKind::Version),
        ("/status", CommandKind::Status),
        ("/tokens", CommandKind::Tokens),
        ("/cost", CommandKind::Cost),
        ("/clear", CommandKind::Clear),
        ("/model", CommandKind::ModelShow),
        ("/think", CommandKind::ThinkShow),
        ("/diff", CommandKind::Diff),
        ("/undo", CommandKind::Undo),
        ("/health", CommandKind::Health),
        ("/history", CommandKind::History),
        ("/config", CommandKind::Config),
        ("/compact", CommandKind::Compact),
        ("/context", CommandKind::Context),
        ("/init", CommandKind::Init),
    ];
    for (input, kind) in cases {
        let c = dispatch_command(input);
        assert_eq!(c.kind, kind, "{input}");
        assert_eq!(c.arg, "");
    }
}

#[test]
fn dispatch_model_switch_carries_the_trimmed_name() {
    let c = dispatch_command("/model   opus-4-6  ");
    assert_eq!(c.kind, CommandKind::ModelSwitch);
    assert_eq!(c.arg, "opus-4-6");
    // every leading "/model " is removed, as trim_start_matches does
    let c = dispatch_command("/model /model gpt");
    assert_eq!(c.arg, "gpt");
}

#[test]
fn dispatch_model_with_blank_name_shows_the_model() {
    let c = dispatch_command("/model    ");
    assert_eq!(c.kind, CommandKind::ModelShow);
}

#[test]
fn dispatch_think_levels() {
    let c = dispatch_command("/think high");
    assert_eq!(c.kind, CommandKind::ThinkSwitch);
    assert_eq!(c.arg, "high");
    assert_eq!(dispatch_command("/think  ").kind, CommandKind::ThinkShow);
}

#[test]
fn dispatch_save_and_load_paths() {
    let c = dispatch_command("/save");
    assert_eq!(c.kind, CommandKind::Save);
    assert_eq!(c.arg, "yoyo-session.json");
    let c = dispatch_command("/save  my.json ");
    assert_eq!(c.arg, "my.json");
    let c = dispatch_command("/load");
    assert_eq!(c.kind, CommandKind::Load);
    assert_eq!(c.arg, "yoyo-session.json");
    let c = dispatch_command("/load other.json");
    assert_eq!(c.arg, "other.json");
    // "/saved" is neither a save nor a known command
    assert_eq!(dispatch_command("/saved").kind, CommandKind::Unknown);
}

#[test]
fn dispatch_run_arguments() {
    assert_eq!(dispatch_command("/run echo hello").arg, "echo hello");
    assert_eq!(dispatch_command("!ls -la ").arg, "ls -la");
    assert_eq!(dispatch_command("/run").arg, "");
    assert_eq!(dispatch_command("/run    ").arg, "");
    // a lone "!" is not a shortcut
    assert_eq!(dispatch_command("!").kind, CommandKind::NotACommand);
}

#[test]
fn dispatch_unknown_reports_the_first_word() {
    let c = dispatch_command("/xyz something");
    assert_eq!(c.kind, CommandKind::Unknown);
    assert_eq!(c.arg, "/xyz");
}

#[test]
fn dispatch_known_but_unhandled_is_not_a_command() {
    // "/retry" is handled by the REPL loop itself
    assert_eq!(dispatch_command("/retry").kind, CommandKind::NotACommand);
    assert_eq!(dispatch_command("/history now").kind, CommandKind::NotACommand);
}

#[test]
fn bang_is_a_shortcut_for_run() {
    for cmd in ["ls", " git status", "echo hi  "] {
        let bang = dispatch_command(&format!("!{cmd}"));
        let run = dispatch_command(&format!("/run {cmd}"));
        assert_eq!(bang.kind, CommandKind::Run);
        assert_eq!(run.kind, CommandKind::Run);
        assert_eq!(bang.arg, run.arg);
    }
}

#[test]
fn plain_text_is_never_a_command() {
    for input in ["", "hello", " /help", "what is /quit?", "?"] {
        assert_eq!(dispatch_command(input).kind, CommandKind::NotACommand, "{input:?}");
    }
}
