//! What the program's files hold: the save location, the favourite users list
//! and the credentials file, each read from or written to text.
use vstd::prelude::*;
use crate::structs::Creds;
use crate::structs::Paths;
use crate::text::concat;
use crate::text::join_seq;
use crate::text::join_strings;
use crate::text::split_seq;
use crate::text::split_str;
use crate::text::views;
use crate::text::first_occurrence;
use crate::text::lemma_split_join;
use crate::text::lemma_split_nonempty;
use crate::text::lemma_piece_keeps_pair;
use crate::text::lemma_join_split;
use crate::text::lemma_first_occurrence_after_piece;
use crate::cli::ArgAction;
use crate::cli::ActionView;
use crate::cli::Flag;
use crate::cli::spec_flag;
use crate::cli::plan_from;
use crate::cli::final_time;
use crate::cli::final_user;
use crate::cli::lemma_save_arguments;
use crate::cli::lemma_restore_arguments;

verus! {

/// The line break that the program's files use.
pub open spec fn line_break() -> Seq<char> {
    seq!['\r', '\n']
}

/// The line break, as a string.
pub fn line_break_str() -> (r: &'static str)
    ensures
        r@ == line_break(),
{
    let r = "\r\n";
    proof {
        reveal_strlit("\r\n");
    }
    r
}

/// The directory where the program saves its files: under the local
/// application data directory on Windows, else in a hidden directory under
/// the home directory, named after the program.
pub open spec fn spec_save_path(windows: bool, base: Seq<char>, name: Seq<char>) -> Seq<char> {
    if windows {
        base + seq!['/'] + name
    } else {
        base + seq!['/', '.'] + name
    }
}

/// The save directory for a base directory (`LOCALAPPDATA` on Windows, `HOME`
/// elsewhere) and the program's name.
pub fn save_path_for(windows: bool, base: &str, name: &str) -> (r: String)
    ensures
        r@ == spec_save_path(windows, base@, name@),
{
    let sep = if windows {
        let s = "/";
        proof {
            reveal_strlit("/");
        }
        s
    } else {
        let s = "/.";
        proof {
            reveal_strlit("/.");
        }
        s
    };
    let mut r = concat(base, sep);
    r.append(name);
    proof {
        assert(r@ =~= spec_save_path(windows, base@, name@));
    }
    r
}

/// The file paths under a save directory.
pub fn paths_in(save_path: String) -> (r: Paths)
    ensures
        r.save_path@ == save_path@,
        r.fav_users_file@ == save_path@ + "/fav_users.txt"@,
        r.creds_file@ == save_path@ + "/creds"@,
{
    let fav_users_file = concat(save_path.as_str(), "/fav_users.txt");
    let creds_file = concat(save_path.as_str(), "/creds");
    Paths { save_path, fav_users_file, creds_file }
}

/// The lines of a file's text, split at each line break.
pub fn lines_of(content: &str) -> (r: Vec<String>)
    ensures
        views(r@) == split_seq(content@, line_break()),
        r.len() >= 1,
{
    proof {
        lemma_split_nonempty(content@, line_break());
    }
    split_str(content, line_break_str())
}

/// The text of the favourite users file: one user per line.
pub fn fav_users_content(users: &Vec<String>) -> (r: String)
    ensures
        r@ == join_seq(views(users@), line_break()),
{
    join_strings(users, line_break_str())
}

/// The favourite users that a favourite users file holds (`get_fav_users`).
pub fn fav_users_from_content(content: &str) -> (r: Vec<String>)
    ensures
        views(r@) == split_seq(content@, line_break()),
{
    lines_of(content)
}

/// The credentials that the lines of a credentials file give: the first line
/// is the client id, the second the OAuth token, and a missing second line
/// counts as empty.
pub fn creds_from_lines(lines: Vec<String>) -> (r: Creds)
    requires
        lines.len() >= 1,
    ensures
        r.client_id@ == lines@[0]@,
        r.oauth@ == (if lines.len() >= 2 {
            lines@[1]@
        } else {
            Seq::empty()
        }),
{
    let client_id = lines[0].clone();
    let oauth = if lines.len() >= 2 {
        lines[1].clone()
    } else {
        String::new()
    };
    Creds { client_id, oauth }
}

/// Whether a credentials file has more lines than the two that it needs.
pub fn has_extra_lines(lines: &Vec<String>) -> (r: bool)
    ensures
        r == (lines.len() > 2),
{
    lines.len() > 2
}

/// The credentials that a credentials file's text holds.
pub open spec fn spec_creds(content: Seq<char>) -> (Seq<char>, Seq<char>) {
    let lines = split_seq(content, line_break());
    (lines[0], if lines.len() >= 2 {
        lines[1]
    } else {
        Seq::empty()
    })
}

/// The credentials that a credentials file's text holds (`load_creds` once
/// the file is read).
pub fn creds_from_content(content: &str) -> (r: Creds)
    ensures
        (r.client_id@, r.oauth@) == spec_creds(content@),
{
    let lines = lines_of(content);
    creds_from_lines(lines)
}

/// The text that the program writes into the credentials file: the client id
/// and the OAuth token on two lines.
pub fn creds_file_content(client_id: &str, oauth: &str) -> (r: String)
    ensures
        r@ == client_id@ + line_break() + oauth@,
{
    let mut r = concat(client_id, line_break_str());
    r.append(oauth);
    r
}

/// The name of the backup of a file: the same path with `.bak` appended.
pub fn backup_path(path: &str) -> (r: String)
    ensures
        r@ == path@ + ".bak"@,
{
    concat(path, ".bak")
}

/// The name under which the credentials file is kept while it trades places
/// with its backup: the same path with `.bak1` appended.
pub fn swap_path(path: &str) -> (r: String)
    ensures
        r@ == path@ + ".bak1"@,
{
    concat(path, ".bak1")
}

/// Credentials written to the credentials file are read back unchanged, where
/// neither holds a line break.
pub proof fn lemma_creds_round_trip(client_id: Seq<char>, oauth: Seq<char>)
    requires
        first_occurrence(client_id, line_break()) is None,
        first_occurrence(oauth, line_break()) is None,
    ensures
        spec_creds(client_id + line_break() + oauth) == (client_id, oauth),
{
    let parts = seq![client_id, oauth];
    lemma_piece_keeps_pair(client_id, line_break());
    assert(join_seq(parts, line_break()) =~= client_id + line_break() + oauth) by {
        assert(parts.drop_first() =~= seq![oauth]);
        assert(join_seq(seq![oauth], line_break()) == oauth);
        assert(join_seq(parts, line_break()) == client_id + line_break() + join_seq(parts.drop_first(), line_break()));
    }
    lemma_split_join(parts, line_break());
}

/// The client id is the file's first line and the token its second, where it
/// has one (else empty): whatever follows the second line is not read.
pub proof fn lemma_creds_are_the_first_two_lines(content: Seq<char>)
    ensures
        spec_creds(content).0 == split_seq(content, line_break())[0],
        split_seq(content, line_break()).len() >= 2 ==> spec_creds(content).1 == split_seq(
            content,
            line_break(),
        )[1],
        split_seq(content, line_break()).len() < 2 ==> spec_creds(content).1 == Seq::<char>::empty(),
{
}

/// A credentials file with more lines than two (even an empty one after a
/// final line break) gives the first line as the client id and the second as
/// the token, where neither holds a line break.
pub proof fn lemma_creds_ignore_extra_lines(
    client_id: Seq<char>,
    oauth: Seq<char>,
    rest: Seq<char>,
)
    requires
        first_occurrence(client_id, line_break()) is None,
        first_occurrence(oauth, line_break()) is None,
    ensures
        spec_creds(client_id + line_break() + oauth + line_break() + rest) == (client_id, oauth),
{
    let lb = line_break();
    let tail = oauth + lb + rest;
    let whole = client_id + lb + oauth + lb + rest;
    assert(whole =~= client_id + lb + tail);
    lemma_piece_keeps_pair(client_id, lb);
    lemma_piece_keeps_pair(oauth, lb);
    lemma_first_occurrence_after_piece(client_id, lb, tail);
    lemma_first_occurrence_after_piece(oauth, lb, rest);
    assert(whole.take(client_id.len() as int) =~= client_id);
    assert(whole.skip(client_id.len() + 2int) =~= tail);
    assert(split_seq(whole, lb) == seq![client_id] + split_seq(tail, lb));
    assert(tail.take(oauth.len() as int) =~= oauth);
    assert(tail.skip(oauth.len() + 2int) =~= rest);
    assert(split_seq(tail, lb) == seq![oauth] + split_seq(rest, lb));
}

/// Favourite users written to the file are read back unchanged, where there is
/// at least one and none holds a line break.
pub proof fn lemma_fav_users_round_trip(users: Seq<Seq<char>>)
    requires
        users.len() >= 1,
        forall|i: int| 0 <= i < users.len() ==> first_occurrence(#[trigger] users[i], line_break()) is None,
    ensures
        split_seq(join_seq(users, line_break()), line_break()) == users,
{
    assert forall|k: int| 0 <= k < users.len() - 1 implies crate::text::piece_keeps(#[trigger] users[k], line_break()) by {
        lemma_piece_keeps_pair(users[k], line_break());
    }
    lemma_split_join(users, line_break());
}

/// A file's lines, written back one per line, give the file's text unchanged.
pub proof fn lemma_lines_round_trip(content: Seq<char>)
    ensures
        join_seq(split_seq(content, line_break()), line_break()) == content,
{
    lemma_join_split(content, line_break());
}

/// A step of work on the files.
pub enum FileStep {
    /// Move a file to a new path, replacing what is there.
    Rename(String, String),
    /// Copy a file to a new path, replacing what is there.
    Copy(String, String),
    /// Write this text to a file.
    Write(String, String),
    /// Print this message.
    Say(String),
}

/// What a `FileStep` holds, as text.
pub enum FileStepView {
    Rename(Seq<char>, Seq<char>),
    Copy(Seq<char>, Seq<char>),
    Write(Seq<char>, Seq<char>),
    Say(Seq<char>),
}

impl View for FileStep {
    type V = FileStepView;

    open spec fn view(&self) -> FileStepView {
        match self {
            FileStep::Rename(a, b) => FileStepView::Rename(a@, b@),
            FileStep::Copy(a, b) => FileStepView::Copy(a@, b@),
            FileStep::Write(a, b) => FileStepView::Write(a@, b@),
            FileStep::Say(m) => FileStepView::Say(m@),
        }
    }
}

/// The views of a sequence of steps.
pub open spec fn step_views(v: Seq<FileStep>) -> Seq<FileStepView> {
    v.map_values(|x: FileStep| x@)
}

/// Restoring the credentials (`-r-c`): where the backup exists, the
/// credentials file and its backup trade places (by way of `.bak1`); else
/// the credentials file is copied to the backup, with a message.
pub open spec fn spec_restore_plan(creds: Seq<char>, backup_exists: bool) -> Seq<FileStepView> {
    if backup_exists {
        seq![
            FileStepView::Rename(creds, creds + ".bak1"@),
            FileStepView::Rename(creds + ".bak"@, creds),
            FileStepView::Rename(creds + ".bak1"@, creds + ".bak"@),
        ]
    } else {
        seq![
            FileStepView::Copy(creds, creds + ".bak"@),
            FileStepView::Say("\x1b[93mBackup credentials file doesn't exist, creating one!\x1b[0m"@),
        ]
    }
}

/// The steps that restore the credentials file from its backup.
pub fn restore_plan(creds_file: &str, backup_exists: bool) -> (r: Vec<FileStep>)
    ensures
        step_views(r@) == spec_restore_plan(creds_file@, backup_exists),
{
    let mut r: Vec<FileStep> = Vec::new();
    let creds = String::from_str(creds_file);
    if backup_exists {
        r.push(FileStep::Rename(creds.clone(), swap_path(creds_file)));
        r.push(FileStep::Rename(backup_path(creds_file), creds.clone()));
        r.push(FileStep::Rename(swap_path(creds_file), backup_path(creds_file)));
    } else {
        r.push(FileStep::Copy(creds.clone(), backup_path(creds_file)));
        r.push(
            FileStep::Say(
                String::from_str("\x1b[93mBackup credentials file doesn't exist, creating one!\x1b[0m"),
            ),
        );
    }
    proof {
        assert(step_views(r@) =~= spec_restore_plan(creds_file@, backup_exists));
    }
    r
}

/// Saving credentials (`-c`): where the credentials file exists it is first
/// kept as the backup; then the client id and token are written to it.
pub open spec fn spec_save_plan(
    creds: Seq<char>,
    creds_exists: bool,
    client_id: Seq<char>,
    oauth: Seq<char>,
) -> Seq<FileStepView> {
    (if creds_exists {
        seq![FileStepView::Rename(creds, creds + ".bak"@)]
    } else {
        Seq::empty()
    }) + seq![FileStepView::Write(creds, client_id + line_break() + oauth)]
}

/// The steps that save new credentials.
pub fn save_plan(creds_file: &str, creds_exists: bool, client_id: &str, oauth: &str) -> (r: Vec<
    FileStep,
>)
    ensures
        step_views(r@) == spec_save_plan(creds_file@, creds_exists, client_id@, oauth@),
{
    let mut r: Vec<FileStep> = Vec::new();
    if creds_exists {
        r.push(FileStep::Rename(String::from_str(creds_file), backup_path(creds_file)));
    }
    r.push(FileStep::Write(String::from_str(creds_file), creds_file_content(client_id, oauth)));
    proof {
        assert(step_views(r@) =~= spec_save_plan(creds_file@, creds_exists, client_id@, oauth@));
    }
    r
}

/// Files as a map from path to contents, after one step (messages change
/// nothing; a step on a missing file changes nothing).
pub open spec fn apply_step(fs: Map<Seq<char>, Seq<char>>, step: FileStepView) -> Map<
    Seq<char>,
    Seq<char>,
> {
    match step {
        FileStepView::Rename(a, b) => if fs.contains_key(a) {
            fs.remove(a).insert(b, fs[a])
        } else {
            fs
        },
        FileStepView::Copy(a, b) => if fs.contains_key(a) {
            fs.insert(b, fs[a])
        } else {
            fs
        },
        FileStepView::Write(a, t) => fs.insert(a, t),
        FileStepView::Say(_) => fs,
    }
}

/// Files after the steps, in order.
pub open spec fn apply_steps(fs: Map<Seq<char>, Seq<char>>, steps: Seq<FileStepView>) -> Map<
    Seq<char>,
    Seq<char>,
>
    decreases steps.len(),
{
    if steps.len() == 0 {
        fs
    } else {
        apply_steps(apply_step(fs, steps[0]), steps.drop_first())
    }
}

/// Restoring the credentials where the backup exists trades the contents of
/// the credentials file and its backup, keeps the same files, and leaves no
/// `.bak1` file.
pub proof fn lemma_restore_swaps(fs: Map<Seq<char>, Seq<char>>, creds: Seq<char>)
    requires
        fs.contains_key(creds),
        fs.contains_key(creds + ".bak"@),
        !fs.contains_key(creds + ".bak1"@),
    ensures
        ({
            let after = apply_steps(fs, spec_restore_plan(creds, true));
            &&& after[creds] == fs[creds + ".bak"@]
            &&& after[creds + ".bak"@] == fs[creds]
            &&& !after.contains_key(creds + ".bak1"@)
            &&& after.dom() == fs.dom()
            &&& after == fs.insert(creds, fs[creds + ".bak"@]).insert(creds + ".bak"@, fs[creds])
        }),
{
    let bak = creds + ".bak"@;
    let bak1 = creds + ".bak1"@;
    assert(bak.len() != creds.len()) by {
        reveal_strlit(".bak");
    }
    assert(bak1.len() != creds.len() && bak1.len() != bak.len()) by {
        reveal_strlit(".bak");
        reveal_strlit(".bak1");
    }
    let steps = spec_restore_plan(creds, true);
    let f1 = apply_step(fs, steps[0]);
    let f2 = apply_step(f1, steps[1]);
    let f3 = apply_step(f2, steps[2]);
    let s1 = steps.drop_first();
    let s2 = s1.drop_first();
    let s3 = s2.drop_first();
    assert(s1[0] == steps[1]);
    assert(s2[0] == steps[2]);
    assert(s3 =~= Seq::<FileStepView>::empty());
    assert(apply_steps(f3, s3) == f3);
    assert(apply_steps(f2, s2) == apply_steps(f3, s3));
    assert(apply_steps(f1, s1) == apply_steps(f2, s2));
    assert(apply_steps(fs, steps) == apply_steps(f1, s1));
    assert(f3.dom() =~= fs.dom());
    assert(f3 =~= fs.insert(creds, fs[bak]).insert(bak, fs[creds]));
}

/// Restoring the credentials twice gives back the files as they were: the
/// second restore trades the credentials file and its backup back.
pub proof fn lemma_restore_twice(fs: Map<Seq<char>, Seq<char>>, creds: Seq<char>)
    requires
        fs.contains_key(creds),
        fs.contains_key(creds + ".bak"@),
        !fs.contains_key(creds + ".bak1"@),
    ensures
        ({
            let once = apply_steps(fs, spec_restore_plan(creds, fs.contains_key(creds + ".bak"@)));
            apply_steps(once, spec_restore_plan(creds, once.contains_key(creds + ".bak"@))) == fs
        }),
{
    let bak = creds + ".bak"@;
    assert(bak.len() != creds.len()) by {
        reveal_strlit(".bak");
    }
    lemma_restore_swaps(fs, creds);
    let once = apply_steps(fs, spec_restore_plan(creds, true));
    assert(once.contains_key(bak));
    lemma_restore_swaps(once, creds);
    let twice = apply_steps(once, spec_restore_plan(creds, true));
    assert(twice =~= fs);
}

/// Restoring the credentials where there is no backup makes the backup a copy
/// of the credentials file and changes nothing else.
pub proof fn lemma_restore_makes_backup(fs: Map<Seq<char>, Seq<char>>, creds: Seq<char>)
    requires
        fs.contains_key(creds),
        !fs.contains_key(creds + ".bak"@),
    ensures
        apply_steps(fs, spec_restore_plan(creds, false)) == fs.insert(creds + ".bak"@, fs[creds]),
{
    let steps = spec_restore_plan(creds, false);
    let f1 = apply_step(fs, steps[0]);
    let f2 = apply_step(f1, steps[1]);
    let s1 = steps.drop_first();
    let s2 = s1.drop_first();
    assert(s1[0] == steps[1]);
    assert(s2 =~= Seq::<FileStepView>::empty());
    assert(apply_steps(f2, s2) == f2);
    assert(apply_steps(f1, s1) == apply_steps(f2, s2));
    assert(apply_steps(fs, steps) == apply_steps(f1, s1));
}

/// Saving credentials writes the client id, a line break and the token to the
/// credentials file, keeps an existing credentials file as the backup, and
/// leaves in the credentials file what reads back as the new credentials
/// (where neither holds a line break).
pub proof fn lemma_save_writes(
    fs: Map<Seq<char>, Seq<char>>,
    creds: Seq<char>,
    client_id: Seq<char>,
    oauth: Seq<char>,
)
    ensures
        ({
            let after = apply_steps(fs, spec_save_plan(creds, fs.contains_key(creds), client_id, oauth));
            &&& after[creds] == client_id + line_break() + oauth
            &&& fs.contains_key(creds) ==> after[creds + ".bak"@] == fs[creds]
            &&& (first_occurrence(client_id, line_break()) is None && first_occurrence(
                oauth,
                line_break(),
            ) is None) ==> spec_creds(after[creds]) == (client_id, oauth)
        }),
{
    let bak = creds + ".bak"@;
    assert(bak.len() != creds.len()) by {
        reveal_strlit(".bak");
    }
    let steps = spec_save_plan(creds, fs.contains_key(creds), client_id, oauth);
    if fs.contains_key(creds) {
        let f1 = apply_step(fs, steps[0]);
        let f2 = apply_step(f1, steps[1]);
        let s1 = steps.drop_first();
        let s2 = s1.drop_first();
        assert(s1[0] == steps[1]);
        assert(s2 =~= Seq::<FileStepView>::empty());
        assert(apply_steps(f2, s2) == f2);
        assert(apply_steps(f1, s1) == apply_steps(f2, s2));
        assert(apply_steps(fs, steps) == apply_steps(f1, s1));
    } else {
        let f1 = apply_step(fs, steps[0]);
        let s1 = steps.drop_first();
        assert(s1 =~= Seq::<FileStepView>::empty());
        assert(apply_steps(f1, s1) == f1);
        assert(apply_steps(fs, steps) == apply_steps(f1, s1));
    }
    if first_occurrence(client_id, line_break()) is None && first_occurrence(
        oauth,
        line_break(),
    ) is None {
        lemma_creds_round_trip(client_id, oauth);
    }
}

/// The file steps that an argument action asks for: saving or restoring the
/// credentials; no steps for the other actions.
pub open spec fn spec_file_steps(
    action: ActionView,
    creds: Seq<char>,
    creds_exists: bool,
    backup_exists: bool,
) -> Seq<FileStepView> {
    match action {
        ActionView::SaveCredentials(client_id, oauth) => spec_save_plan(
            creds,
            creds_exists,
            client_id,
            oauth,
        ),
        ActionView::RestoreCredentials => spec_restore_plan(creds, backup_exists),
        _ => Seq::empty(),
    }
}

/// The file steps for an argument action, given whether the credentials file
/// and its backup exist.
pub fn file_steps(
    action: &ArgAction,
    creds_file: &str,
    creds_exists: bool,
    backup_exists: bool,
) -> (r: Vec<FileStep>)
    ensures
        step_views(r@) == spec_file_steps(action@, creds_file@, creds_exists, backup_exists),
{
    match action {
        ArgAction::SaveCredentials(client_id, oauth) => save_plan(
            creds_file,
            creds_exists,
            client_id.as_str(),
            oauth.as_str(),
        ),
        ArgAction::RestoreCredentials => restore_plan(creds_file, backup_exists),
        _ => {
            let r: Vec<FileStep> = Vec::new();
            proof {
                assert(step_views(r@) =~= Seq::<FileStepView>::empty());
            }
            r
        },
    }
}

/// `-c <client-id> <oauth>` (in any case) as the only arguments: the one
/// action saves the credentials, no update time or user is given, and
/// afterwards the credentials file reads back as the given client id and token
/// (where neither holds a line break), an existing file kept as the backup.
pub proof fn lemma_save_from_arguments(
    fs: Map<Seq<char>, Seq<char>>,
    creds: Seq<char>,
    flag: Seq<char>,
    client_id: Seq<char>,
    oauth: Seq<char>,
    low: Seq<Seq<char>>,
)
    requires
        low.len() == 3,
        spec_flag(low[0]) == Flag::Credentials,
    ensures
        ({
            let acts = plan_from(seq![flag, client_id, oauth], low, 0);
            let after = apply_steps(
                fs,
                spec_file_steps(
                    acts[0],
                    creds,
                    fs.contains_key(creds),
                    fs.contains_key(creds + ".bak"@),
                ),
            );
            &&& acts == seq![ActionView::SaveCredentials(client_id, oauth)]
            &&& final_time(acts) == -1
            &&& final_user(acts) == Seq::<char>::empty()
            &&& after[creds] == client_id + line_break() + oauth
            &&& fs.contains_key(creds) ==> after[creds + ".bak"@] == fs[creds]
            &&& (first_occurrence(client_id, line_break()) is None && first_occurrence(
                oauth,
                line_break(),
            ) is None) ==> spec_creds(after[creds]) == (client_id, oauth)
        }),
{
    lemma_save_arguments(flag, client_id, oauth, low);
    lemma_save_writes(fs, creds, client_id, oauth);
}

/// `-r-c` (in any case) as the only argument, with the credentials file and
/// its backup present and no `.bak1` file: the one action restores the
/// credentials, which trades the two files; doing it again gives back the
/// files as they were.
pub proof fn lemma_restore_from_arguments(
    fs: Map<Seq<char>, Seq<char>>,
    creds: Seq<char>,
    flag: Seq<char>,
    low: Seq<Seq<char>>,
)
    requires
        low.len() == 1,
        spec_flag(low[0]) == Flag::RestoreCredentials,
        fs.contains_key(creds),
        fs.contains_key(creds + ".bak"@),
        !fs.contains_key(creds + ".bak1"@),
    ensures
        ({
            let acts = plan_from(seq![flag], low, 0);
            let bak = creds + ".bak"@;
            let once = apply_steps(
                fs,
                spec_file_steps(acts[0], creds, fs.contains_key(creds), fs.contains_key(bak)),
            );
            let twice = apply_steps(
                once,
                spec_file_steps(acts[0], creds, once.contains_key(creds), once.contains_key(bak)),
            );
            &&& acts == seq![ActionView::RestoreCredentials]
            &&& final_time(acts) == -1
            &&& final_user(acts) == Seq::<char>::empty()
            &&& once[creds] == fs[bak]
            &&& once[bak] == fs[creds]
            &&& !once.contains_key(creds + ".bak1"@)
            &&& twice == fs
        }),
{
    lemma_restore_arguments(flag, low);
    lemma_restore_swaps(fs, creds);
    lemma_restore_twice(fs, creds);
}

} // verus!
