use twitch_notify::cli::{update_time_or_default, user_or_default, classify_flag, help_lines, parse_args, plan_lowered, ArgAction, Flag};

fn args(v: &[&str]) -> Vec<String> {
    v.iter().map(|s| s.to_string()).collect()
}

fn describe(a: &ArgAction) -> String {
    match a {
        ArgAction::SetUser(u) => format!("user {}", u),
        ArgAction::SetTime(t) => format!("time {}", t),
        ArgAction::RestoreCredentials => "restore".to_string(),
        ArgAction::SaveCredentials(c, o) => format!("save {} {}", c, o),
        ArgAction::Help => "help".to_string(),
        ArgAction::Invalid(s) => format!("invalid {}", s),
        ArgAction::InvalidUsage(s) => format!("usage {}", s),
    }
}

fn plan(v: &[&str]) -> (Vec<String>, i32, String) {
    let p = parse_args(&args(v));
    (p.actions.iter().map(describe).collect(), p.update_time, p.user)
}

#[test]
fn help_text_lines() {
    let lines = help_lines("prog");
    assert_eq!(lines[0], "Usage: prog [options]");
    let pad = " ".repeat(11);
    assert_eq!(lines[1], format!("{} -c/--credentials <client-id> <oauth> save credentials.", pad));
    assert_eq!(lines[2], format!("{} -r-c/--restore-credentials try to restore credentials from backup file.", pad));
    assert_eq!(lines[3], format!("{} -t/--time <secs> set update time.", pad));
    assert_eq!(lines[4], format!("{} -u/--user <secs> set user.", pad));
    assert_eq!(lines[5], format!("{} -h/--help display help.", pad));
}

#[test]
fn help_padding_counts_bytes() {
    let lines = help_lines("prögram");
    assert_eq!(lines[5], format!("{} -h/--help display help.", " ".repeat(15)));
}

#[test]
fn flags_by_lower_case_text() {
    assert!(classify_flag("-u") == Flag::User);
    assert!(classify_flag("--time") == Flag::Time);
    assert!(classify_flag("-r-c") == Flag::RestoreCredentials);
    assert!(classify_flag("--credentials") == Flag::Credentials);
    assert!(classify_flag("-h") == Flag::Help);
    assert!(classify_flag("-x") == Flag::Other);
    assert!(classify_flag("-U") == Flag::Other);
}

#[test]
fn no_arguments_leave_defaults() {
    assert_eq!(plan(&["prog"]), (vec![], -1, String::new()));
}

#[test]
fn user_and_time() {
    assert_eq!(
        plan(&["prog", "-u", "someone", "--TIME", "30"]),
        (vec!["user someone".to_string(), "time 30".to_string()], 30, "someone".to_string())
    );
}

#[test]
fn flag_values_are_not_matched_as_flags() {
    assert_eq!(plan(&["prog", "-u", "-h"]), (vec!["user -h".to_string()], -1, "-h".to_string()));
}

#[test]
fn missing_or_bad_values_are_usage_errors() {
    assert_eq!(plan(&["prog", "-t"]).0, vec!["usage -t".to_string()]);
    assert_eq!(plan(&["prog", "-T", "soon"]).0, vec!["usage -T".to_string()]);
    assert_eq!(plan(&["prog", "-c", "id"]).0, vec!["usage -c".to_string()]);
    assert_eq!(plan(&["prog", "-u"]).0, vec!["usage -u".to_string()]);
}

#[test]
fn credentials_restore_help_and_unknown() {
    assert_eq!(
        plan(&["prog", "-c", "id", "token", "-r-c", "-h", "-u", "x"]).0,
        vec!["save id token".to_string(), "restore".to_string(), "help".to_string()]
    );
    assert_eq!(plan(&["prog", "--what", "-h"]).0, vec!["invalid --what".to_string()]);
}

#[test]
fn last_value_wins() {
    let p = plan(&["prog", "-t", "5", "-t", "-7", "-u", "a", "-u", "b"]);
    assert_eq!(p.1, -7);
    assert_eq!(p.2, "b");
}

#[test]
fn plan_from_given_lower_case_forms() {
    let a = args(&["prog", "X", "Y"]);
    let low = args(&["--user", "y"]);
    let p = plan_lowered(&a, &low);
    assert_eq!(p.actions.iter().map(describe).collect::<Vec<_>>(), vec!["user Y".to_string()]);
    assert_eq!(p.user, "Y");
}

#[test]
fn defaults_for_time_and_user() {
    assert_eq!(update_time_or_default(-1), 10);
    assert_eq!(update_time_or_default(3), 3);
    assert_eq!(update_time_or_default(-2), -2);
    assert_eq!(user_or_default(String::new()), "bejker321");
    assert_eq!(user_or_default("me".to_string()), "me");
}
