use twitch_notify::files::{
    backup_path, creds_file_content, creds_from_content, creds_from_lines, fav_users_content,
    fav_users_from_content, file_steps, has_extra_lines, lines_of, paths_in, restore_plan,
    save_path_for, save_plan, swap_path, FileStep,
};
use twitch_notify::cli::{parse_args, ArgAction};
use std::collections::HashMap;

#[test]
fn save_path_on_windows_and_elsewhere() {
    assert_eq!(save_path_for(true, "C:/Users/me/AppData/Local", "notify"), "C:/Users/me/AppData/Local/notify");
    assert_eq!(save_path_for(false, "/home/me", "notify"), "/home/me/.notify");
}

#[test]
fn paths_under_save_directory() {
    let p = paths_in("/home/me/.notify".to_string());
    assert_eq!(p.save_path, "/home/me/.notify");
    assert_eq!(p.fav_users_file, "/home/me/.notify/fav_users.txt");
    assert_eq!(p.creds_file, "/home/me/.notify/creds");
}

#[test]
fn credentials_are_read_back() {
    let content = creds_file_content("my-client", "my-token");
    assert_eq!(content, "my-client\r\nmy-token");
    let creds = creds_from_content(&content);
    assert_eq!(creds.client_id, "my-client");
    assert_eq!(creds.oauth, "my-token");
}

#[test]
fn credentials_with_one_line_have_empty_token() {
    let creds = creds_from_content("only-client");
    assert_eq!(creds.client_id, "only-client");
    assert_eq!(creds.oauth, "");
    let empty = creds_from_content("");
    assert_eq!(empty.client_id, "");
    assert_eq!(empty.oauth, "");
}

#[test]
fn credentials_with_extra_lines() {
    let lines = lines_of("a\r\nb\r\nc");
    assert!(has_extra_lines(&lines));
    let creds = creds_from_lines(lines);
    assert_eq!(creds.client_id, "a");
    assert_eq!(creds.oauth, "b");
    assert!(!has_extra_lines(&lines_of("a\r\nb")));
}

#[test]
fn favourite_users_are_read_back() {
    let users = vec!["alice".to_string(), "bob_b".to_string()];
    let content = fav_users_content(&users);
    assert_eq!(content, "alice\r\nbob_b");
    assert_eq!(fav_users_from_content(&content), users);
    assert_eq!(fav_users_from_content(""), vec!["".to_string()]);
}

#[test]
fn backup_names() {
    assert_eq!(backup_path("/x/creds"), "/x/creds.bak");
    assert_eq!(swap_path("/x/creds"), "/x/creds.bak1");
}

fn describe(step: &FileStep) -> String {
    match step {
        FileStep::Rename(a, b) => format!("rename {} {}", a, b),
        FileStep::Copy(a, b) => format!("copy {} {}", a, b),
        FileStep::Write(a, t) => format!("write {} {:?}", a, t),
        FileStep::Say(m) => format!("say {}", m),
    }
}

#[test]
fn restore_plans() {
    let swap: Vec<String> = restore_plan("/x/creds", true).iter().map(describe).collect();
    assert_eq!(
        swap,
        vec![
            "rename /x/creds /x/creds.bak1".to_string(),
            "rename /x/creds.bak /x/creds".to_string(),
            "rename /x/creds.bak1 /x/creds.bak".to_string(),
        ]
    );
    let make: Vec<String> = restore_plan("/x/creds", false).iter().map(describe).collect();
    assert_eq!(
        make,
        vec![
            "copy /x/creds /x/creds.bak".to_string(),
            "say \x1b[93mBackup credentials file doesn't exist, creating one!\x1b[0m".to_string(),
        ]
    );
}

#[test]
fn save_plans_keep_an_existing_file_as_backup() {
    let kept: Vec<String> = save_plan("/x/creds", true, "id", "tok").iter().map(describe).collect();
    assert_eq!(
        kept,
        vec!["rename /x/creds /x/creds.bak".to_string(), "write /x/creds \"id\\r\\ntok\"".to_string()]
    );
    let fresh: Vec<String> = save_plan("/x/creds", false, "id", "tok").iter().map(describe).collect();
    assert_eq!(fresh, vec!["write /x/creds \"id\\r\\ntok\"".to_string()]);
}

fn run(files: &mut HashMap<String, String>, steps: Vec<FileStep>) {
    for step in steps {
        match step {
            FileStep::Rename(a, b) => {
                if let Some(t) = files.remove(&a) {
                    files.insert(b, t);
                }
            }
            FileStep::Copy(a, b) => {
                if let Some(t) = files.get(&a).cloned() {
                    files.insert(b, t);
                }
            }
            FileStep::Write(a, t) => {
                files.insert(a, t);
            }
            FileStep::Say(_) => {}
        }
    }
}

fn carry_out(files: &mut HashMap<String, String>, command_line: &[&str], creds: &str) -> (i32, String) {
    let a: Vec<String> = command_line.iter().map(|x| x.to_string()).collect();
    let plan = parse_args(&a);
    for action in plan.actions.iter() {
        let creds_exists = files.contains_key(creds);
        let backup_exists = files.contains_key(&backup_path(creds));
        let steps = file_steps(action, creds, creds_exists, backup_exists);
        run(files, steps);
    }
    (plan.update_time, plan.user)
}

#[test]
fn file_steps_follow_the_action() {
    let save: Vec<String> = file_steps(
        &ArgAction::SaveCredentials("id".to_string(), "tok".to_string()),
        "/x/creds",
        true,
        false,
    )
    .iter()
    .map(describe)
    .collect();
    assert_eq!(
        save,
        vec!["rename /x/creds /x/creds.bak".to_string(), "write /x/creds \"id\\r\\ntok\"".to_string()]
    );
    let restore: Vec<String> =
        file_steps(&ArgAction::RestoreCredentials, "/x/creds", true, false).iter().map(describe).collect();
    assert_eq!(restore[0], "copy /x/creds /x/creds.bak");
    assert!(file_steps(&ArgAction::SetTime(5), "/x/creds", true, true).is_empty());
    assert!(file_steps(&ArgAction::Help, "/x/creds", true, true).is_empty());
}

#[test]
fn saving_credentials_reads_back_and_keeps_the_old_file() {
    let mut files: HashMap<String, String> = HashMap::new();
    files.insert("/x/creds".to_string(), "old\r\nkey".to_string());
    let r = carry_out(&mut files, &["prog", "-C", "abc", "xyz"], "/x/creds");
    assert_eq!(r, (-1, String::new()));
    assert_eq!(files["/x/creds"], "abc\r\nxyz");
    assert_eq!(files["/x/creds.bak"], "old\r\nkey");
    let c = creds_from_content(&files["/x/creds"]);
    assert_eq!((c.client_id.as_str(), c.oauth.as_str()), ("abc", "xyz"));
    let mut empty: HashMap<String, String> = HashMap::new();
    carry_out(&mut empty, &["prog", "--credentials", "a", "b"], "/x/creds");
    assert_eq!(empty.len(), 1);
    assert_eq!(empty["/x/creds"], "a\r\nb");
}

#[test]
fn restoring_twice_gives_back_the_files() {
    let mut files: HashMap<String, String> = HashMap::new();
    files.insert("/x/creds".to_string(), "c".to_string());
    files.insert("/x/creds.bak".to_string(), "b".to_string());
    let before = files.clone();
    let r = carry_out(&mut files, &["prog", "-r-c"], "/x/creds");
    assert_eq!(r, (-1, String::new()));
    assert_eq!(files["/x/creds"], "b");
    assert_eq!(files["/x/creds.bak"], "c");
    assert!(!files.contains_key("/x/creds.bak1"));
    carry_out(&mut files, &["prog", "--restore-credentials"], "/x/creds");
    assert_eq!(files, before);
}

#[test]
fn restoring_without_a_backup_makes_one() {
    let mut files: HashMap<String, String> = HashMap::new();
    files.insert("/x/creds".to_string(), "c".to_string());
    carry_out(&mut files, &["prog", "-R-C"], "/x/creds");
    assert_eq!(files["/x/creds"], "c");
    assert_eq!(files["/x/creds.bak"], "c");
    assert_eq!(files.len(), 2);
}
