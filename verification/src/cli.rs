//! The command line: the help text, and what the program does for each of its
//! arguments, in order.
use vstd::prelude::*;
use crate::numbers::parse_i32;
use crate::numbers::spec_parse_in;
use crate::text::concat;
use crate::text::repeat_char;
use crate::text::repeat_seq;
use vstd::string::StringSliceAdditionalSpecFns;

verus! {

/// The width of the help text's first words: `Usage: ` and the program's
/// name, in bytes.
pub open spec fn help_width(program: &str) -> nat {
    7 + program.spec_bytes().len()
}

/// The help text's options, each after the padding.
pub open spec fn help_options() -> Seq<Seq<char>> {
    seq![
        " -c/--credentials <client-id> <oauth> save credentials."@,
        " -r-c/--restore-credentials try to restore credentials from backup file."@,
        " -t/--time <secs> set update time."@,
        " -u/--user <secs> set user."@,
        " -h/--help display help."@,
    ]
}

/// The lines of the help text (`display_help`): the usage line, then each
/// option indented to the width of `Usage: ` and the program's name.
pub fn help_lines(program: &str) -> (r: Vec<String>)
    requires
        help_width(program) <= usize::MAX,
    ensures
        r.len() == 6,
        r@[0]@ == "Usage: "@ + program@ + " [options]"@,
        forall|k: int|
            1 <= k < 6 ==> #[trigger] r@[k]@ == repeat_seq(' ', help_width(program))
                + help_options()[k - 1],
{
    let first = concat("Usage: ", program);
    let line0 = concat(first.as_str(), " [options]");
    let width = 7 + program.len();
    let padding = repeat_char(' ', width);
    let mut r: Vec<String> = Vec::new();
    r.push(line0);
    r.push(concat(padding.as_str(), " -c/--credentials <client-id> <oauth> save credentials."));
    r.push(
        concat(
            padding.as_str(),
            " -r-c/--restore-credentials try to restore credentials from backup file.",
        ),
    );
    r.push(concat(padding.as_str(), " -t/--time <secs> set update time."));
    r.push(concat(padding.as_str(), " -u/--user <secs> set user."));
    r.push(concat(padding.as_str(), " -h/--help display help."));
    r
}

/// What an argument asks for, by its lower-case text.
#[derive(PartialEq, Eq, Structural, Clone, Copy)]
pub enum Flag {
    User,
    Time,
    RestoreCredentials,
    Credentials,
    Help,
    Other,
}

/// The flag that a lower-case argument names.
pub open spec fn spec_flag(lowered: Seq<char>) -> Flag {
    if lowered == "-u"@ || lowered == "--user"@ {
        Flag::User
    } else if lowered == "-t"@ || lowered == "--time"@ {
        Flag::Time
    } else if lowered == "-r-c"@ || lowered == "--restore-credentials"@ {
        Flag::RestoreCredentials
    } else if lowered == "-c"@ || lowered == "--credentials"@ {
        Flag::Credentials
    } else if lowered == "-h"@ || lowered == "--help"@ {
        Flag::Help
    } else {
        Flag::Other
    }
}

/// Whether two strings hold the same text.
fn same_text(a: &str, b: &str) -> (r: bool)
    ensures
        r == (a@ == b@),
{
    let x = String::from_str(a);
    let y = String::from_str(b);
    x == y
}

/// The flag that a lower-case argument names.
pub fn classify_flag(lowered: &str) -> (r: Flag)
    ensures
        r == spec_flag(lowered@),
{
    if same_text(lowered, "-u") || same_text(lowered, "--user") {
        Flag::User
    } else if same_text(lowered, "-t") || same_text(lowered, "--time") {
        Flag::Time
    } else if same_text(lowered, "-r-c") || same_text(lowered, "--restore-credentials") {
        Flag::RestoreCredentials
    } else if same_text(lowered, "-c") || same_text(lowered, "--credentials") {
        Flag::Credentials
    } else if same_text(lowered, "-h") || same_text(lowered, "--help") {
        Flag::Help
    } else {
        Flag::Other
    }
}

/// The lower-case form of a text, as `str::to_lowercase` gives it.
pub uninterp spec fn lowercase(s: Seq<char>) -> Seq<char>;

/// `str::to_lowercase`: the claim is only that its result is a function of
/// the text (the Unicode lower-case mapping of the standard library).
#[verifier::external_body]
fn to_lowercase(s: &str) -> (r: String)
    ensures
        r@ == lowercase(s@),
{
    s.to_lowercase()
}

/// One thing that the program does for its arguments.
pub enum ArgAction {
    /// Watch this user (`-u`/`--user <name>`).
    SetUser(String),
    /// Refresh after this many seconds (`-t`/`--time <secs>`); the program
    /// reports the new time.
    SetTime(i32),
    /// Trade the credentials file with its backup, or make the backup where
    /// there is none (`-r-c`/`--restore-credentials`).
    RestoreCredentials,
    /// Write this client id and OAuth token to the credentials file
    /// (`-c`/`--credentials <client-id> <oauth>`).
    SaveCredentials(String, String),
    /// Show the help text and stop (`-h`/`--help`).
    Help,
    /// Report an unknown argument, show the help text and stop.
    Invalid(String),
    /// Report a flag without the values it needs, show the help text and stop.
    InvalidUsage(String),
}

/// What an `ArgAction` holds, as text.
pub enum ActionView {
    SetUser(Seq<char>),
    SetTime(int),
    RestoreCredentials,
    SaveCredentials(Seq<char>, Seq<char>),
    Help,
    Invalid(Seq<char>),
    InvalidUsage(Seq<char>),
}

impl View for ArgAction {
    type V = ActionView;

    open spec fn view(&self) -> ActionView {
        match self {
            ArgAction::SetUser(s) => ActionView::SetUser(s@),
            ArgAction::SetTime(t) => ActionView::SetTime(*t as int),
            ArgAction::RestoreCredentials => ActionView::RestoreCredentials,
            ArgAction::SaveCredentials(a, b) => ActionView::SaveCredentials(a@, b@),
            ArgAction::Help => ActionView::Help,
            ArgAction::Invalid(s) => ActionView::Invalid(s@),
            ArgAction::InvalidUsage(s) => ActionView::InvalidUsage(s@),
        }
    }
}

/// The views of a sequence of actions.
pub open spec fn action_views(v: Seq<ArgAction>) -> Seq<ActionView> {
    v.map_values(|a: ArgAction| a@)
}

/// The actions for the arguments from position `i` on (`args` without the
/// program's name; `low` their lower-case forms): each flag takes the values
/// after it, and showing the help text or reporting an error ends the list.
pub open spec fn plan_from(args: Seq<Seq<char>>, low: Seq<Seq<char>>, i: int) -> Seq<ActionView>
    decreases args.len() - i,
{
    if i < 0 || i >= args.len() {
        Seq::empty()
    } else {
        let last = args.len() - 1;
        match spec_flag(low[i]) {
            Flag::User => if i == last {
                seq![ActionView::InvalidUsage(args[i])]
            } else {
                seq![ActionView::SetUser(args[i + 1])] + plan_from(args, low, i + 2)
            },
            Flag::Time => if i == last {
                seq![ActionView::InvalidUsage(args[i])]
            } else {
                match spec_parse_in(args[i + 1], true, i32::MIN as int, i32::MAX as int) {
                    Some(v) => seq![ActionView::SetTime(v)] + plan_from(args, low, i + 2),
                    None => seq![ActionView::InvalidUsage(args[i])],
                }
            },
            Flag::RestoreCredentials => seq![ActionView::RestoreCredentials] + plan_from(
                args,
                low,
                i + 1,
            ),
            Flag::Credentials => if last - i < 2 {
                seq![ActionView::InvalidUsage(args[i])]
            } else {
                seq![ActionView::SaveCredentials(args[i + 1], args[i + 2])] + plan_from(
                    args,
                    low,
                    i + 3,
                )
            },
            Flag::Help => seq![ActionView::Help],
            Flag::Other => seq![ActionView::Invalid(args[i])],
        }
    }
}

/// Whether an action ends the program (the help text or an error).
pub open spec fn is_final(a: ActionView) -> bool {
    match a {
        ActionView::Help => true,
        ActionView::Invalid(_) => true,
        ActionView::InvalidUsage(_) => true,
        _ => false,
    }
}

/// Showing the help text or reporting an error is always the last action:
/// nothing that the arguments after it ask for is done.
pub proof fn lemma_plan_stops(args: Seq<Seq<char>>, low: Seq<Seq<char>>, i: int)
    ensures
        forall|k: int|
            0 <= k < plan_from(args, low, i).len() - 1 ==> !is_final(
                #[trigger] plan_from(args, low, i)[k],
            ),
    decreases args.len() - i,
{
    if 0 <= i < args.len() {
        let p = plan_from(args, low, i);
        let last = args.len() - 1;
        let step: int = match spec_flag(low[i]) {
            Flag::User => 2,
            Flag::Time => 2,
            Flag::Credentials => 3,
            _ => 1,
        };
        if i + step <= args.len() {
            lemma_plan_stops(args, low, i + step);
        }
        let rest = plan_from(args, low, i + step);
        assert forall|k: int| 0 <= k < p.len() - 1 implies !is_final(#[trigger] p[k]) by {
            if p.len() > 1 {
                assert(p == seq![p[0]] + rest);
                if k > 0 {
                    assert(p[k] == rest[k - 1]);
                }
            }
        }
    }
}

/// `-c <client-id> <oauth>` (the flag in any case) as the only arguments asks
/// for one thing, saving those credentials, and gives no update time or user.
pub proof fn lemma_save_arguments(
    flag: Seq<char>,
    client_id: Seq<char>,
    oauth: Seq<char>,
    low: Seq<Seq<char>>,
)
    requires
        low.len() == 3,
        spec_flag(low[0]) == Flag::Credentials,
    ensures
        ({
            let acts = plan_from(seq![flag, client_id, oauth], low, 0);
            &&& acts == seq![ActionView::SaveCredentials(client_id, oauth)]
            &&& final_time(acts) == -1
            &&& final_user(acts) == Seq::<char>::empty()
        }),
{
    let args = seq![flag, client_id, oauth];
    assert(plan_from(args, low, 3) =~= Seq::<ActionView>::empty());
    let acts = plan_from(args, low, 0);
    assert(acts =~= seq![ActionView::SaveCredentials(client_id, oauth)]);
    assert(acts.drop_last() =~= Seq::<ActionView>::empty());
    assert(final_time(acts.drop_last()) == -1);
    assert(final_user(acts.drop_last()) == Seq::<char>::empty());
    assert(acts.last() == ActionView::SaveCredentials(client_id, oauth));
}

/// `-r-c` (in any case) as the only argument asks for one thing, restoring
/// the credentials, and gives no update time or user.
pub proof fn lemma_restore_arguments(flag: Seq<char>, low: Seq<Seq<char>>)
    requires
        low.len() == 1,
        spec_flag(low[0]) == Flag::RestoreCredentials,
    ensures
        ({
            let acts = plan_from(seq![flag], low, 0);
            &&& acts == seq![ActionView::RestoreCredentials]
            &&& final_time(acts) == -1
            &&& final_user(acts) == Seq::<char>::empty()
        }),
{
    let args = seq![flag];
    assert(plan_from(args, low, 1) =~= Seq::<ActionView>::empty());
    let acts = plan_from(args, low, 0);
    assert(acts =~= seq![ActionView::RestoreCredentials]);
    assert(acts.drop_last() =~= Seq::<ActionView>::empty());
    assert(final_time(acts.drop_last()) == -1);
    assert(final_user(acts.drop_last()) == Seq::<char>::empty());
    assert(acts.last() == ActionView::RestoreCredentials);
}

/// Each flag has a short and a long name, matched in lower case; every other
/// argument is no flag.
pub proof fn lemma_flag_names(x: Seq<char>)
    ensures
        spec_flag(x) == Flag::User <==> (x == "-u"@ || x == "--user"@),
        spec_flag(x) == Flag::Time <==> (x == "-t"@ || x == "--time"@),
        spec_flag(x) == Flag::RestoreCredentials <==> (x == "-r-c"@ || x
            == "--restore-credentials"@),
        spec_flag(x) == Flag::Credentials <==> (x == "-c"@ || x == "--credentials"@),
        spec_flag(x) == Flag::Help <==> (x == "-h"@ || x == "--help"@),
{
    reveal_strlit("-u");
    reveal_strlit("--user");
    reveal_strlit("-t");
    reveal_strlit("--time");
    reveal_strlit("-r-c");
    reveal_strlit("--restore-credentials");
    reveal_strlit("-c");
    reveal_strlit("--credentials");
    reveal_strlit("-h");
    reveal_strlit("--help");
    assert("-u"@[1] != "-t"@[1] && "-u"@[1] != "-c"@[1] && "-u"@[1] != "-h"@[1]);
    assert("-t"@[1] != "-c"@[1] && "-t"@[1] != "-h"@[1] && "-c"@[1] != "-h"@[1]);
    assert("--user"@[2] != "--time"@[2] && "--user"@[2] != "--help"@[2]);
    assert("--time"@[2] != "--help"@[2]);
    assert("--restore-credentials"@.len() != "--credentials"@.len());
}

/// `-u <name>` (the flag in any case) as the only arguments asks to watch
/// that user, and gives no update time.
pub proof fn lemma_user_arguments(flag: Seq<char>, name: Seq<char>, low: Seq<Seq<char>>)
    requires
        low.len() == 2,
        spec_flag(low[0]) == Flag::User,
    ensures
        ({
            let acts = plan_from(seq![flag, name], low, 0);
            &&& acts == seq![ActionView::SetUser(name)]
            &&& final_user(acts) == name
            &&& final_time(acts) == -1
        }),
{
    let args = seq![flag, name];
    assert(plan_from(args, low, 2) =~= Seq::<ActionView>::empty());
    let acts = plan_from(args, low, 0);
    assert(acts =~= seq![ActionView::SetUser(name)]);
    assert(acts.drop_last() =~= Seq::<ActionView>::empty());
    assert(final_time(acts.drop_last()) == -1);
    assert(acts.last() == ActionView::SetUser(name));
}

/// `-t <secs>` (the flag in any case) as the only arguments sets the update
/// time to the number given, where it is an `i32`; else it reports the flag's
/// wrong use.
pub proof fn lemma_time_arguments(flag: Seq<char>, secs: Seq<char>, low: Seq<Seq<char>>)
    requires
        low.len() == 2,
        spec_flag(low[0]) == Flag::Time,
    ensures
        ({
            let acts = plan_from(seq![flag, secs], low, 0);
            match spec_parse_in(secs, true, i32::MIN as int, i32::MAX as int) {
                Some(v) => acts == seq![ActionView::SetTime(v)] && final_time(acts) == v
                    && final_user(acts) == Seq::<char>::empty(),
                None => acts == seq![ActionView::InvalidUsage(flag)],
            }
        }),
{
    let args = seq![flag, secs];
    assert(plan_from(args, low, 2) =~= Seq::<ActionView>::empty());
    let acts = plan_from(args, low, 0);
    match spec_parse_in(secs, true, i32::MIN as int, i32::MAX as int) {
        Some(v) => {
            assert(acts =~= seq![ActionView::SetTime(v)]);
            assert(acts.drop_last() =~= Seq::<ActionView>::empty());
            assert(final_user(acts.drop_last()) == Seq::<char>::empty());
            assert(acts.last() == ActionView::SetTime(v));
        },
        None => {
            assert(acts =~= seq![ActionView::InvalidUsage(flag)]);
        },
    }
}

/// The update time that the actions leave: that of the last `SetTime`, or -1.
pub open spec fn final_time(acts: Seq<ActionView>) -> int
    decreases acts.len(),
{
    if acts.len() == 0 {
        -1
    } else {
        match acts.last() {
            ActionView::SetTime(t) => t,
            _ => final_time(acts.drop_last()),
        }
    }
}

/// The user that the actions leave: that of the last `SetUser`, or empty.
pub open spec fn final_user(acts: Seq<ActionView>) -> Seq<char>
    decreases acts.len(),
{
    if acts.len() == 0 {
        Seq::empty()
    } else {
        match acts.last() {
            ActionView::SetUser(u) => u,
            _ => final_user(acts.drop_last()),
        }
    }
}

/// What the arguments ask for: the actions in order, and the update time and
/// user that they leave (-1 and empty where none is given).
pub struct ArgPlan {
    pub actions: Vec<ArgAction>,
    pub update_time: i32,
    pub user: String,
}

/// The views of a sequence of strings.
pub open spec fn seq_views(v: Seq<String>) -> Seq<Seq<char>> {
    v.map_values(|x: String| x@)
}

/// The arguments after the program's name.
pub open spec fn given_args(args: Seq<String>) -> Seq<Seq<char>> {
    seq_views(args).skip(1)
}

/// What the arguments ask for, given the lower-case form of each argument
/// after the program's name (`lowered[k]` that of `args[k + 1]`).
pub fn plan_lowered(args: &Vec<String>, lowered: &Vec<String>) -> (r: ArgPlan)
    requires
        args.len() >= 1,
        lowered.len() == args.len() - 1,
    ensures
        action_views(r.actions@) == plan_from(given_args(args@), seq_views(lowered@), 0),
        r.update_time as int == final_time(action_views(r.actions@)),
        r.user@ == final_user(action_views(r.actions@)),
{
    let ghost a = given_args(args@);
    let ghost low = seq_views(lowered@);
    let n = lowered.len();
    let mut actions: Vec<ArgAction> = Vec::new();
    let mut update_time: i32 = -1;
    let mut user = String::new();
    let mut i: usize = 0;
    while i < n
        invariant
            n == lowered.len(),
            n == args.len() - 1,
            args.len() >= 1,
            a == given_args(args@),
            low == seq_views(lowered@),
            a.len() == n,
            i <= n + 1,
            plan_from(a, low, 0) == action_views(actions@) + plan_from(a, low, i as int),
            update_time as int == final_time(action_views(actions@)),
            user@ == final_user(action_views(actions@)),
        decreases n + 1 - i,
    {
        let ghost before = actions@;
        let flag = classify_flag(lowered[i].as_str());
        proof {
            assert(low[i as int] == lowered@[i as int]@);
            assert(a[i as int] == args@[i + 1]@);
        }
        let mut stop = false;
        let action = match flag {
            Flag::User => {
                if i == n - 1 {
                    stop = true;
                    ArgAction::InvalidUsage(args[i + 1].clone())
                } else {
                    proof {
                        assert(a[i + 1] == args@[i + 2]@);
                    }
                    ArgAction::SetUser(args[i + 2].clone())
                }
            },
            Flag::Time => {
                if i == n - 1 {
                    stop = true;
                    ArgAction::InvalidUsage(args[i + 1].clone())
                } else {
                    proof {
                        assert(a[i + 1] == args@[i + 2]@);
                    }
                    match parse_i32(args[i + 2].as_str()) {
                        Some(v) => ArgAction::SetTime(v),
                        None => {
                            stop = true;
                            ArgAction::InvalidUsage(args[i + 1].clone())
                        },
                    }
                }
            },
            Flag::RestoreCredentials => ArgAction::RestoreCredentials,
            Flag::Credentials => {
                if n - 1 - i < 2 {
                    stop = true;
                    ArgAction::InvalidUsage(args[i + 1].clone())
                } else {
                    proof {
                        assert(a[i + 1] == args@[i + 2]@);
                        assert(a[i + 2] == args@[i + 3]@);
                    }
                    ArgAction::SaveCredentials(args[i + 2].clone(), args[i + 3].clone())
                }
            },
            Flag::Help => {
                stop = true;
                ArgAction::Help
            },
            Flag::Other => {
                stop = true;
                ArgAction::Invalid(args[i + 1].clone())
            },
        };
        let step: usize = match flag {
            Flag::User => 2,
            Flag::Time => 2,
            Flag::Credentials => 3,
            _ => 1,
        };
        match &action {
            ArgAction::SetUser(u) => {
                user = u.clone();
            },
            ArgAction::SetTime(t) => {
                update_time = *t;
            },
            _ => {},
        }
        actions.push(action);
        proof {
            let v = action_views(actions@);
            assert(v.drop_last() =~= action_views(before));
            assert(action_views(actions@) =~= action_views(before).push(actions@.last()@));
        }
        if stop {
            proof {
                assert(plan_from(a, low, i as int) =~= seq![actions@.last()@]);
                assert(plan_from(a, low, 0) =~= action_views(actions@));
                assert(plan_from(a, low, (n + 1) as int) =~= Seq::<ActionView>::empty());
            }
            i = n + 1;
        } else {
            proof {
                assert(plan_from(a, low, i as int) =~= seq![actions@.last()@] + plan_from(
                    a,
                    low,
                    i + step,
                ));
                assert(plan_from(a, low, 0) =~= action_views(actions@) + plan_from(
                    a,
                    low,
                    i + step,
                ));
            }
            if i + step > n {
                proof {
                    assert(plan_from(a, low, (i + step) as int) =~= Seq::<ActionView>::empty());
                    assert(plan_from(a, low, n as int) =~= Seq::<ActionView>::empty());
                }
                i = n;
            } else {
                i = i + step;
            }
        }
    }
    proof {
        assert(plan_from(a, low, i as int) =~= Seq::<ActionView>::empty());
        assert(plan_from(a, low, 0) =~= action_views(actions@));
    }
    ArgPlan { actions, update_time, user }
}

/// What the arguments ask for (`parse_args`, with the file and terminal work
/// left to the caller): each argument after the program's name is matched
/// in lower case.
pub fn parse_args(args: &Vec<String>) -> (r: ArgPlan)
    requires
        args.len() >= 1,
    ensures
        exists|low: Seq<Seq<char>>|
            {
                &&& low.len() == args.len() - 1
                &&& forall|k: int| 0 <= k < low.len() ==> #[trigger] low[k] == lowercase(args@[k + 1]@)
                &&& action_views(r.actions@) == plan_from(given_args(args@), low, 0)
            },
        r.update_time as int == final_time(action_views(r.actions@)),
        r.user@ == final_user(action_views(r.actions@)),
{
    let mut lowered: Vec<String> = Vec::new();
    let mut i: usize = 1;
    while i < args.len()
        invariant
            1 <= i <= args.len(),
            lowered.len() == i - 1,
            forall|k: int| 0 <= k < lowered.len() ==> #[trigger] lowered@[k]@ == lowercase(args@[k + 1]@),
        decreases args.len() - i,
    {
        lowered.push(to_lowercase(args[i].as_str()));
        i = i + 1;
    }
    let r = plan_lowered(args, &lowered);
    proof {
        let low = seq_views(lowered@);
        assert forall|k: int| 0 <= k < low.len() implies #[trigger] low[k] == lowercase(args@[k + 1]@) by {
            assert(low[k] == lowered@[k]@);
        }
    }
    r
}

/// The update time in seconds: the one given, or 10 where none is (-1).
pub fn update_time_or_default(given: i32) -> (r: i32)
    ensures
        r == (if given == -1 {
            10
        } else {
            given
        }),
{
    if given != -1 {
        given
    } else {
        10
    }
}

/// The user to watch: the one given, or `bejker321` where none is.
pub fn user_or_default(given: String) -> (r: String)
    ensures
        r@ == (if given@.len() == 0 {
            "bejker321"@
        } else {
            given@
        }),
{
    if given.as_str().is_empty() {
        String::from_str("bejker321")
    } else {
        given
    }
}

} // verus!
