//! What the program prints and says after each refresh: the user's header,
//! the channels followed and unfollowed, the streams started and ended, and a
//! line for every live stream.
use vstd::prelude::*;
use crate::numbers::decimal;
use crate::numbers::format_u128;
use crate::text::concat;
use crate::text::replace_char;
use crate::text::replace_char_seq;
use crate::twitch::Stream;
use crate::twitch::StreamView;
use crate::twitch::same_stream;
use crate::twitch::stream_views;
use crate::text::views;

verus! {

/// Text and speech produced by a refresh.
pub struct Events {
    /// Text to print.
    pub text: String,
    /// Phrases to speak, in order.
    pub speech: Vec<String>,
}

/// A name as it is spoken: underscores become spaces.
pub open spec fn spoken(name: Seq<char>) -> Seq<char> {
    replace_char_seq(name, '_', seq![' '])
}

/// A name as it is spoken.
pub fn spoken_name(name: &str) -> (r: String)
    ensures
        r@ == spoken(name@),
{
    proof {
        reveal_strlit(" ");
        assert(" "@ =~= seq![' ']);
    }
    replace_char(name, '_', " ")
}

/// A name is spoken with every underscore read as a space and every other
/// character as it is.
pub proof fn lemma_spoken(name: Seq<char>)
    ensures
        spoken(name).len() == name.len(),
        forall|i: int|
            0 <= i < name.len() ==> #[trigger] spoken(name)[i] == (if name[i] == '_' {
                ' '
            } else {
                name[i]
            }),
{
    crate::text::lemma_replace_by_char(name, '_', ' ');
}

/// The waiting spinner shows `|`, `/`, `-` and `\` in turn, one frame a
/// second, and starts over every four seconds.
pub proof fn lemma_spinner(i: int)
    requires
        i >= 0,
    ensures
        spinner_char(i + 4) == spinner_char(i),
        spinner_char(4 * i) == '|',
        spinner_char(4 * i + 1) == '/',
        spinner_char(4 * i + 2) == '-',
        spinner_char(4 * i + 3) == '\\',
{
}

/// Loading the credentials reports `Failed` exactly where a part is empty,
/// then one warning for each empty part; with both parts present it reports
/// only the advice to restore the file where the backup was needed.
pub proof fn lemma_creds_report(client_id: Seq<char>, oauth: Seq<char>, used_backup: bool)
    ensures
        ({
            let r = spec_creds_report(client_id, oauth, used_backup);
            let missing_part = client_id.len() == 0 || oauth.len() == 0;
            &&& (r.len() > 0 && r[0] == "\x1b[93mFailed\x1b[0m"@) <==> missing_part
            &&& missing_part ==> r.len() == 1 + (if client_id.len() == 0 {
                1int
            } else {
                0int
            }) + (if oauth.len() == 0 {
                1int
            } else {
                0int
            })
            &&& !missing_part ==> r.len() == (if used_backup {
                1int
            } else {
                0int
            })
        }),
{
    reveal_strlit("\x1b[93mFailed\x1b[0m");
    reveal_strlit("Success\nTry using the -r-c argument.");
    let r = spec_creds_report(client_id, oauth, used_backup);
    if client_id.len() == 0 || oauth.len() == 0 {
        let w1: Seq<Seq<char>> = if client_id.len() == 0 {
            seq![
                "\x1b[93mWarning: client-id is not set, this will likely couse an error later on!\x1b[0m"@,
            ]
        } else {
            Seq::empty()
        };
        let w2: Seq<Seq<char>> = if oauth.len() == 0 {
            seq![
                "\x1b[93mWarning: oauth is not set, this will likely couse an error later on!\x1b[0m"@,
            ]
        } else {
            Seq::empty()
        };
        assert(r == seq!["\x1b[93mFailed\x1b[0m"@] + w1 + w2);
        assert(r[0] == "\x1b[93mFailed\x1b[0m"@);
    } else if used_backup {
        assert(r[0] == "Success\nTry using the -r-c argument."@);
        assert(r[0][0] != "\x1b[93mFailed\x1b[0m"@[0]);
    }
}

/// The names of `xs` that `ys` does not hold, in order.
pub open spec fn missing(xs: Seq<Seq<char>>, ys: Seq<Seq<char>>) -> Seq<Seq<char>>
    decreases xs.len(),
{
    if xs.len() == 0 {
        Seq::empty()
    } else {
        let rest = missing(xs.drop_last(), ys);
        if ys.contains(xs.last()) {
            rest
        } else {
            rest.push(xs.last())
        }
    }
}

/// A name is announced exactly where it is in `xs` and not in `ys`.
pub proof fn lemma_missing(xs: Seq<Seq<char>>, ys: Seq<Seq<char>>, x: Seq<char>)
    ensures
        missing(xs, ys).contains(x) <==> (xs.contains(x) && !ys.contains(x)),
    decreases xs.len(),
{
    if xs.len() > 0 {
        lemma_missing(xs.drop_last(), ys, x);
        let rest = missing(xs.drop_last(), ys);
        if xs.contains(x) && !ys.contains(x) {
            let k = choose|k: int| 0 <= k < xs.len() && xs[k] == x;
            if k < xs.len() - 1 {
                assert(xs.drop_last()[k] == x);
            }
        }
        if xs.drop_last().contains(x) {
            let k = choose|k: int| 0 <= k < xs.len() - 1 && xs.drop_last()[k] == x;
            assert(xs[k] == x);
        }
        if !ys.contains(xs.last()) {
            assert(rest.push(xs.last()).last() == xs.last());
            if rest.push(xs.last()).contains(x) && x != xs.last() {
                let k = choose|k: int| 0 <= k < rest.len() + 1 && rest.push(xs.last())[k] == x;
                assert(rest[k] == x);
            }
            if rest.contains(x) {
                let k = choose|k: int| 0 <= k < rest.len() && rest[k] == x;
                assert(rest.push(xs.last())[k] == x);
            }
        }
    }
}

/// Where nothing changed, nothing is announced.
pub proof fn lemma_missing_none(xs: Seq<Seq<char>>)
    ensures
        missing(xs, xs).len() == 0,
{
    assert forall|x: Seq<char>| !missing(xs, xs).contains(x) by {
        lemma_missing(xs, xs, x);
    }
    if missing(xs, xs).len() > 0 {
        assert(missing(xs, xs).contains(missing(xs, xs)[0]));
    }
}

/// Whether `v` holds the name `x`.
pub fn holds(v: &Vec<String>, x: &String) -> (r: bool)
    ensures
        r == views(v@).contains(x@),
{
    let mut i: usize = 0;
    while i < v.len()
        invariant
            i <= v.len(),
            forall|k: int| 0 <= k < i ==> v@[k]@ != x@,
        decreases v.len() - i,
    {
        if v[i] == *x {
            assert(views(v@)[i as int] == x@);
            return true;
        }
        i = i + 1;
    }
    proof {
        if views(v@).contains(x@) {
            let k = choose|k: int| 0 <= k < views(v@).len() && views(v@)[k] == x@;
            assert(v@[k]@ == x@);
        }
    }
    false
}

/// The lines printed for each name: the prefix, the name, the end.
pub open spec fn lines_for(names: Seq<Seq<char>>, prefix: Seq<char>, end: Seq<char>) -> Seq<char>
    decreases names.len(),
{
    if names.len() == 0 {
        Seq::empty()
    } else {
        lines_for(names.drop_last(), prefix, end) + prefix + names.last() + end
    }
}

/// The phrases spoken for each name: the words, then the spoken name.
pub open spec fn phrases_for(names: Seq<Seq<char>>, words: Seq<char>) -> Seq<Seq<char>> {
    names.map_values(|n: Seq<char>| words + spoken(n))
}

/// For each name of `xs` that `ys` does not hold, a printed line and a spoken
/// phrase, appended to `out`.
fn announce_missing(
    xs: &Vec<String>,
    ys: &Vec<String>,
    prefix: &str,
    end: &str,
    words: &str,
    out: &mut Events,
)
    ensures
        final(out).text@ == old(out).text@ + lines_for(
            missing(views(xs@), views(ys@)),
            prefix@,
            end@,
        ),
        views(final(out).speech@) == views(old(out).speech@) + phrases_for(
            missing(views(xs@), views(ys@)),
            words@,
        ),
{
    let ghost t0 = out.text@;
    let ghost s0 = views(out.speech@);
    let mut i: usize = 0;
    while i < xs.len()
        invariant
            i <= xs.len(),
            out.text@ == t0 + lines_for(missing(views(xs@).take(i as int), views(ys@)), prefix@, end@),
            views(out.speech@) == s0 + phrases_for(
                missing(views(xs@).take(i as int), views(ys@)),
                words@,
            ),
        decreases xs.len() - i,
    {
        let ghost before = missing(views(xs@).take(i as int), views(ys@));
        let ghost speech_before = out.speech@;
        proof {
            assert(views(xs@).take(i + 1).drop_last() =~= views(xs@).take(i as int));
            assert(views(xs@).take(i + 1).last() == xs@[i as int]@);
        }
        if !holds(ys, &xs[i]) {
            out.text.append(prefix);
            out.text.append(xs[i].as_str());
            out.text.append(end);
            let spoken = spoken_name(xs[i].as_str());
            let phrase = concat(words, spoken.as_str());
            out.speech.push(phrase);
            proof {
                let after = before.push(xs@[i as int]@);
                assert(lines_for(after, prefix@, end@) == lines_for(before, prefix@, end@) + prefix@
                    + xs@[i as int]@ + end@) by {
                    assert(after.drop_last() =~= before);
                }
                assert(phrases_for(after, words@) =~= phrases_for(before, words@).push(
                    phrase@,
                ));
                assert(views(out.speech@) =~= views(speech_before).push(phrase@));
            }
        }
        i = i + 1;
    }
    proof {
        assert(views(xs@).take(xs.len() as int) =~= views(xs@));
    }
}

/// The header of a refresh: the user's name and id.
pub fn header(user: &str, id: u32) -> (r: String)
    ensures
        r@ == "\x1b[94m"@ + user@ + " \x1b[0m(\x1b[96m"@ + decimal(id as nat) + "\x1b[0m)\n"@,
{
    let mut r = concat("\x1b[94m", user);
    r.append(" \x1b[0m(\x1b[96m");
    let digits = format_u128(id as u128);
    r.append(digits.as_str());
    r.append("\x1b[0m)\n");
    r
}

/// The channels followed and unfollowed since the last refresh: a line and a
/// phrase for each login that is new, then for each that has gone; nothing on
/// the first refresh.
pub fn follow_events(names: &Vec<String>, names_old: &Vec<String>, first_iter: bool) -> (r: Events)
    ensures
        first_iter ==> r.text@.len() == 0 && r.speech.len() == 0,
        !first_iter ==> r.text@ == lines_for(
            missing(views(names@), views(names_old@)),
            "\x1b[95mnew follow "@,
            "\n"@,
        ) + lines_for(missing(views(names_old@), views(names@)), "\x1b[95mnew unfollow "@, "\n"@),
        !first_iter ==> views(r.speech@) == phrases_for(
            missing(views(names@), views(names_old@)),
            "new follow "@,
        ) + phrases_for(missing(views(names_old@), views(names@)), "new unfollow "@),
{
    let mut out = Events { text: String::new(), speech: Vec::new() };
    proof {
        assert(views(out.speech@) =~= Seq::<Seq<char>>::empty());
    }
    if !first_iter {
        announce_missing(names, names_old, "\x1b[95mnew follow ", "\n", "new follow ", &mut out);
        announce_missing(
            names_old,
            names,
            "\x1b[95mnew unfollow ",
            "\n",
            "new unfollow ",
            &mut out,
        );
    }
    out
}

/// The logins of the streams of `xs` that `ys` does not hold (the same stream
/// being one with the same id, login and display name), in order.
pub open spec fn missing_streams(xs: Seq<StreamView>, ys: Seq<StreamView>) -> Seq<Seq<char>>
    decreases xs.len(),
{
    if xs.len() == 0 {
        Seq::empty()
    } else {
        let rest = missing_streams(xs.drop_last(), ys);
        if exists|k: int| 0 <= k < ys.len() && same_stream(xs.last(), #[trigger] ys[k]) {
            rest
        } else {
            rest.push(xs.last().user_login)
        }
    }
}

/// Whether `ys` holds the same stream as `s`.
pub open spec fn held_in(s: StreamView, ys: Seq<StreamView>) -> bool {
    exists|k: int| 0 <= k < ys.len() && same_stream(s, #[trigger] ys[k])
}

/// The streams announced as started (or ended) are exactly the streams of the
/// new (or old) list that the other list does not hold, each by its login, in
/// the list's order: as many as there are such streams, none left out.
pub proof fn lemma_missing_streams_are_the_unheld(xs: Seq<StreamView>, ys: Seq<StreamView>)
    ensures
        missing_streams(xs, ys) == xs.filter(|s: StreamView| !held_in(s, ys)).map_values(
            |s: StreamView| s.user_login,
        ),
    decreases xs.len(),
{
    let pred = |s: StreamView| !held_in(s, ys);
    let login = |s: StreamView| s.user_login;
    if xs.len() > 0 {
        lemma_missing_streams_are_the_unheld(xs.drop_last(), ys);
        let sub = xs.drop_last().filter(pred);
        reveal(Seq::filter);
        assert(xs.filter(pred) == (if pred(xs.last()) {
            sub.push(xs.last())
        } else {
            sub
        }));
        if pred(xs.last()) {
            assert(sub.push(xs.last()).map_values(login) =~= sub.map_values(login).push(
                xs.last().user_login,
            ));
        }
    } else {
        reveal(Seq::filter);
        assert(xs.filter(pred) =~= Seq::<StreamView>::empty());
        assert(xs.filter(pred).map_values(login) =~= Seq::<Seq<char>>::empty());
    }
}

/// The names announced (as followed or unfollowed) are exactly the names of
/// `xs` that `ys` does not hold, in order.
pub proof fn lemma_missing_is_the_unheld(xs: Seq<Seq<char>>, ys: Seq<Seq<char>>)
    ensures
        missing(xs, ys) == xs.filter(|x: Seq<char>| !ys.contains(x)),
    decreases xs.len(),
{
    let pred = |x: Seq<char>| !ys.contains(x);
    if xs.len() > 0 {
        lemma_missing_is_the_unheld(xs.drop_last(), ys);
        reveal(Seq::filter);
        assert(xs.filter(pred) == (if pred(xs.last()) {
            xs.drop_last().filter(pred).push(xs.last())
        } else {
            xs.drop_last().filter(pred)
        }));
    } else {
        reveal(Seq::filter);
        assert(xs.filter(pred) =~= Seq::<Seq<char>>::empty());
    }
}

/// Being the same stream is an equivalence: every stream is the same as
/// itself, and sameness is symmetric and transitive.
pub proof fn lemma_same_stream_equivalence(a: StreamView, b: StreamView, c: StreamView)
    ensures
        same_stream(a, a),
        same_stream(a, b) ==> same_stream(b, a),
        same_stream(a, b) && same_stream(b, c) ==> same_stream(a, c),
{
}

/// Where the streams are unchanged, no stream is announced as started or
/// ended.
pub proof fn lemma_missing_streams_none(xs: Seq<StreamView>)
    ensures
        missing_streams(xs, xs).len() == 0,
{
    lemma_missing_streams_prefix(xs, xs, xs.len() as int);
    assert(xs.take(xs.len() as int) =~= xs);
}

proof fn lemma_missing_streams_prefix(xs: Seq<StreamView>, ys: Seq<StreamView>, n: int)
    requires
        0 <= n <= xs.len(),
        xs == ys,
    ensures
        missing_streams(xs.take(n), ys).len() == 0,
    decreases n,
{
    if n > 0 {
        assert(xs.take(n).drop_last() =~= xs.take(n - 1));
        lemma_missing_streams_prefix(xs, ys, n - 1);
        assert(same_stream(xs.take(n).last(), ys[n - 1]));
    } else {
        assert(xs.take(0).len() == 0);
    }
}

/// Whether `v` holds the same stream as `x`.
fn holds_stream(v: &Vec<Stream>, x: &Stream) -> (r: bool)
    ensures
        r == exists|k: int| 0 <= k < v.len() && same_stream(x@, #[trigger] stream_views(v@)[k]),
{
    let mut i: usize = 0;
    while i < v.len()
        invariant
            i <= v.len(),
            forall|k: int| 0 <= k < i ==> !same_stream(x@, #[trigger] stream_views(v@)[k]),
        decreases v.len() - i,
    {
        proof {
            assert(stream_views(v@)[i as int] == v@[i as int]@);
        }
        if *x == v[i] {
            return true;
        }
        i = i + 1;
    }
    false
}

/// For each stream of `xs` that `ys` does not hold, a printed line and a
/// spoken phrase for its login, appended to `out`.
fn announce_streams(
    xs: &Vec<Stream>,
    ys: &Vec<Stream>,
    prefix: &str,
    end: &str,
    words: &str,
    out: &mut Events,
)
    ensures
        final(out).text@ == old(out).text@ + lines_for(
            missing_streams(stream_views(xs@), stream_views(ys@)),
            prefix@,
            end@,
        ),
        views(final(out).speech@) == views(old(out).speech@) + phrases_for(
            missing_streams(stream_views(xs@), stream_views(ys@)),
            words@,
        ),
{
    let ghost t0 = out.text@;
    let ghost s0 = views(out.speech@);
    let ghost ysv = stream_views(ys@);
    let mut i: usize = 0;
    while i < xs.len()
        invariant
            i <= xs.len(),
            ysv == stream_views(ys@),
            out.text@ == t0 + lines_for(
                missing_streams(stream_views(xs@).take(i as int), ysv),
                prefix@,
                end@,
            ),
            views(out.speech@) == s0 + phrases_for(
                missing_streams(stream_views(xs@).take(i as int), ysv),
                words@,
            ),
        decreases xs.len() - i,
    {
        let ghost before = missing_streams(stream_views(xs@).take(i as int), ysv);
        let ghost speech_before = out.speech@;
        proof {
            assert(stream_views(xs@).take(i + 1).drop_last() =~= stream_views(xs@).take(i as int));
            assert(stream_views(xs@).take(i + 1).last() == xs@[i as int]@);
        }
        if !holds_stream(ys, &xs[i]) {
            out.text.append(prefix);
            out.text.append(xs[i].user_login.as_str());
            out.text.append(end);
            let spoken = spoken_name(xs[i].user_login.as_str());
            let phrase = concat(words, spoken.as_str());
            out.speech.push(phrase);
            proof {
                let after = before.push(xs@[i as int].user_login@);
                assert(lines_for(after, prefix@, end@) == lines_for(before, prefix@, end@) + prefix@
                    + xs@[i as int].user_login@ + end@) by {
                    assert(after.drop_last() =~= before);
                }
                assert(phrases_for(after, words@) =~= phrases_for(before, words@).push(
                    phrase@,
                ));
                assert(views(out.speech@) =~= views(speech_before).push(phrase@));
            }
        }
        i = i + 1;
    }
    proof {
        assert(stream_views(xs@).take(xs.len() as int) =~= stream_views(xs@));
    }
}

/// The streams started and ended since the last refresh: a line and a phrase
/// for each stream that is new, then for each that has ended; nothing on the
/// first refresh.
pub fn stream_events(streams: &Vec<Stream>, streams_old: &Vec<Stream>, first_iter: bool) -> (r:
    Events)
    ensures
        first_iter ==> r.text@.len() == 0 && r.speech.len() == 0,
        !first_iter ==> r.text@ == lines_for(
            missing_streams(stream_views(streams@), stream_views(streams_old@)),
            "\x1b[95mnew stream "@,
            "\x1b[0m\n"@,
        ) + lines_for(
            missing_streams(stream_views(streams_old@), stream_views(streams@)),
            "\x1b[95mstream end "@,
            "\x1b[0m\n"@,
        ),
        !first_iter ==> views(r.speech@) == phrases_for(
            missing_streams(stream_views(streams@), stream_views(streams_old@)),
            "new stream "@,
        ) + phrases_for(
            missing_streams(stream_views(streams_old@), stream_views(streams@)),
            "stream end "@,
        ),
{
    let mut out = Events { text: String::new(), speech: Vec::new() };
    proof {
        assert(views(out.speech@) =~= Seq::<Seq<char>>::empty());
    }
    if !first_iter {
        announce_streams(
            streams,
            streams_old,
            "\x1b[95mnew stream ",
            "\x1b[0m\n",
            "new stream ",
            &mut out,
        );
        announce_streams(
            streams_old,
            streams,
            "\x1b[95mstream end ",
            "\x1b[0m\n",
            "stream end ",
            &mut out,
        );
    }
    out
}

/// Whether the stream's login is one of the favourite users.
pub fn is_favourite(fav_users: &Vec<String>, login: &String) -> (r: bool)
    ensures
        r == views(fav_users@).contains(login@),
{
    holds(fav_users, login)
}

/// The marker in front of a live stream's name: for a favourite user that the
/// user is watching, `watching: ` in red; for one not watched, red; for any
/// other, nothing.
pub open spec fn marker(fav: bool, watching: bool) -> Seq<char> {
    if fav {
        if watching {
            "\x1b[91mwatching: "@
        } else {
            "\x1b[91m"@
        }
    } else {
        Seq::empty()
    }
}

/// The line printed for a live stream: viewers, marker, display name, game,
/// quoted title and how long it has been live.
pub open spec fn spec_stream_line(s: StreamView, fav: bool, watching: bool, live: Seq<char>) -> Seq<
    char,
> {
    "\x1b[93m"@ + decimal(s.viewer_count as nat) + "\x1b[0m "@ + marker(fav, watching)
        + s.user_name + " \x1b[92m"@ + s.game_name + " \x1b[96m\""@ + s.title + "\"\x1b[0m \x1b[92m"@
        + live + "\x1b[0m\n"@
}

/// The line printed for a live stream, and, for a favourite user whom the
/// user is not watching, the phrase that announces it.
pub fn stream_line(s: &Stream, fav: bool, watching: bool, live: &str) -> (r: (String, Option<String>))
    ensures
        r.0@ == spec_stream_line(s@, fav, watching, live@),
        r.1 is Some <==> (fav && !watching),
        r.1 matches Some(p) ==> p@ == "fav user "@ + spoken(s.user_login@) + " is live"@,
{
    let mut line = String::from_str("\x1b[93m");
    let viewers = format_u128(s.viewer_count);
    line.append(viewers.as_str());
    line.append("\x1b[0m ");
    let mut phrase: Option<String> = None;
    if fav {
        if watching {
            line.append("\x1b[91mwatching: ");
        } else {
            line.append("\x1b[91m");
            let spoken = spoken_name(s.user_login.as_str());
            let mut p = String::from_str("fav user ");
            p.append(spoken.as_str());
            p.append(" is live");
            phrase = Some(p);
        }
    }
    line.append(s.user_name.as_str());
    line.append(" \x1b[92m");
    line.append(s.game_name.as_str());
    line.append(" \x1b[96m\"");
    line.append(s.title.as_str());
    line.append("\"\x1b[0m \x1b[92m");
    line.append(live);
    line.append("\x1b[0m\n");
    proof {
        reveal_strlit("");
        assert(line@ =~= spec_stream_line(s@, fav, watching, live@));
    }
    (line, phrase)
}

/// The header of a refresh, as text.
pub open spec fn spec_header(user: Seq<char>, id: nat) -> Seq<char> {
    "\x1b[94m"@ + user + " \x1b[0m(\x1b[96m"@ + decimal(id) + "\x1b[0m)\n"@
}

/// The lines for the channels followed and unfollowed since the last refresh
/// (none on the first).
pub open spec fn follow_text(names: Seq<Seq<char>>, names_old: Seq<Seq<char>>, first_iter: bool) -> Seq<char> {
    if first_iter {
        Seq::empty()
    } else {
        lines_for(missing(names, names_old), "\x1b[95mnew follow "@, "\n"@) + lines_for(
            missing(names_old, names),
            "\x1b[95mnew unfollow "@,
            "\n"@,
        )
    }
}

/// The phrases for the channels followed and unfollowed since the last
/// refresh (none on the first).
pub open spec fn follow_speech(
    names: Seq<Seq<char>>,
    names_old: Seq<Seq<char>>,
    first_iter: bool,
) -> Seq<Seq<char>> {
    if first_iter {
        Seq::empty()
    } else {
        phrases_for(missing(names, names_old), "new follow "@) + phrases_for(
            missing(names_old, names),
            "new unfollow "@,
        )
    }
}

/// The lines for the streams started and ended since the last refresh (none
/// on the first).
pub open spec fn stream_text(ss: Seq<StreamView>, ss_old: Seq<StreamView>, first_iter: bool) -> Seq<char> {
    if first_iter {
        Seq::empty()
    } else {
        lines_for(missing_streams(ss, ss_old), "\x1b[95mnew stream "@, "\x1b[0m\n"@) + lines_for(
            missing_streams(ss_old, ss),
            "\x1b[95mstream end "@,
            "\x1b[0m\n"@,
        )
    }
}

/// The phrases for the streams started and ended since the last refresh (none
/// on the first).
pub open spec fn stream_speech(
    ss: Seq<StreamView>,
    ss_old: Seq<StreamView>,
    first_iter: bool,
) -> Seq<Seq<char>> {
    if first_iter {
        Seq::empty()
    } else {
        phrases_for(missing_streams(ss, ss_old), "new stream "@) + phrases_for(
            missing_streams(ss_old, ss),
            "stream end "@,
        )
    }
}

/// The lines of the first `n` live streams, each marked by whether its login
/// is a favourite user and whether the user is watching it, with its live
/// time.
pub open spec fn live_lines(
    ss: Seq<StreamView>,
    fav_users: Seq<Seq<char>>,
    watching: Seq<bool>,
    lives: Seq<Seq<char>>,
    n: int,
) -> Seq<char>
    decreases n,
{
    if n <= 0 {
        Seq::empty()
    } else {
        live_lines(ss, fav_users, watching, lives, n - 1) + spec_stream_line(
            ss[n - 1],
            fav_users.contains(ss[n - 1].user_login),
            watching[n - 1],
            lives[n - 1],
        )
    }
}

/// The phrases for the first `n` live streams: one for each favourite user
/// whom the user is not watching.
pub open spec fn fav_phrases(
    ss: Seq<StreamView>,
    fav_users: Seq<Seq<char>>,
    watching: Seq<bool>,
    n: int,
) -> Seq<Seq<char>>
    decreases n,
{
    if n <= 0 {
        Seq::empty()
    } else {
        fav_phrases(ss, fav_users, watching, n - 1) + (if fav_users.contains(ss[n - 1].user_login)
            && !watching[n - 1] {
            seq!["fav user "@ + spoken(ss[n - 1].user_login) + " is live"@]
        } else {
            Seq::empty()
        })
    }
}

/// A refresh that fetches the same followed channels and live streams as the
/// one before it announces nothing: no follow, unfollow, started or ended
/// stream, in text or speech.
pub proof fn lemma_unchanged_is_quiet(names: Seq<Seq<char>>, ss: Seq<StreamView>, first_iter: bool)
    ensures
        follow_text(names, names, first_iter).len() == 0,
        follow_speech(names, names, first_iter).len() == 0,
        stream_text(ss, ss, first_iter).len() == 0,
        stream_speech(ss, ss, first_iter).len() == 0,
{
    lemma_missing_none(names);
    lemma_missing_streams_none(ss);
    let none: Seq<Seq<char>> = Seq::empty();
    assert(missing(names, names) =~= none);
    assert(missing_streams(ss, ss) =~= none);
}

/// The phrase announcing that a favourite user is live.
pub open spec fn fav_phrase(s: StreamView) -> Seq<char> {
    "fav user "@ + spoken(s.user_login) + " is live"@
}

/// A refresh announces a favourite user for exactly the live streams whose
/// login is a favourite user and whom the user is not watching, in the
/// streams' order.
pub proof fn lemma_fav_phrases_are_the_unwatched(
    ss: Seq<StreamView>,
    fav_users: Seq<Seq<char>>,
    watching: Seq<bool>,
    n: int,
)
    requires
        0 <= n,
    ensures
        fav_phrases(ss, fav_users, watching, n) == Seq::new(n as nat, |k: int| k).filter(
            |k: int| fav_users.contains(ss[k].user_login) && !watching[k],
        ).map_values(|k: int| fav_phrase(ss[k])),
    decreases n,
{
    let pred = |k: int| fav_users.contains(ss[k].user_login) && !watching[k];
    let f = |k: int| fav_phrase(ss[k]);
    let idx = Seq::new(n as nat, |k: int| k);
    reveal(Seq::filter);
    if n > 0 {
        lemma_fav_phrases_are_the_unwatched(ss, fav_users, watching, n - 1);
        let prev = Seq::new((n - 1) as nat, |k: int| k);
        assert(idx.drop_last() =~= prev);
        assert(idx.last() == n - 1);
        assert(idx.filter(pred) == (if pred(n - 1) {
            prev.filter(pred).push(n - 1)
        } else {
            prev.filter(pred)
        }));
        if pred(n - 1) {
            assert(prev.filter(pred).push(n - 1).map_values(f) =~= prev.filter(pred).map_values(
                f,
            ).push(f(n - 1)));
            assert(fav_phrases(ss, fav_users, watching, n) =~= fav_phrases(
                ss,
                fav_users,
                watching,
                n - 1,
            ).push(fav_phrase(ss[n - 1])));
        } else {
            assert(fav_phrases(ss, fav_users, watching, n) =~= fav_phrases(
                ss,
                fav_users,
                watching,
                n - 1,
            ));
        }
    } else {
        assert(idx.filter(pred) =~= Seq::<int>::empty());
        assert(idx.filter(pred).map_values(f) =~= Seq::<Seq<char>>::empty());
    }
}

/// The state carried from one refresh to the next: the followed channels and
/// live streams last seen, and whether no refresh has been shown yet.
pub struct Watch {
    pub names_old: Vec<String>,
    pub streams_old: Vec<Stream>,
    pub first_iter: bool,
}

impl Watch {
    /// The state before the first refresh: nothing seen yet.
    pub fn new() -> (r: Watch)
        ensures
            r.names_old@.len() == 0,
            r.streams_old@.len() == 0,
            r.first_iter,
    {
        Watch { names_old: Vec::new(), streams_old: Vec::new(), first_iter: true }
    }

    /// One refresh, from what was fetched: the followed channels' logins
    /// `names`, the live `streams`, the favourite users, and for each stream
    /// whether the user is watching it and its live time's text. Where no
    /// streams came back the answer is taken as invalid: nothing is shown and
    /// the state is kept, to try again (`None`). Else the text is the header,
    /// the follow and unfollow lines, the started and ended streams' lines,
    /// then a line for each live stream; the phrases are those of the follow
    /// and stream events, then one for each favourite user not watched; and the
    /// fetched channels and streams become those last seen.
    pub fn refresh(
        &mut self,
        user: &str,
        id: u32,
        names: Vec<String>,
        streams: Vec<Stream>,
        fav_users: &Vec<String>,
        watching: &Vec<bool>,
        lives: &Vec<String>,
    ) -> (r: Option<Events>)
        requires
            watching.len() == streams.len(),
            lives.len() == streams.len(),
        ensures
            streams.len() == 0 ==> r is None && *final(self) == *old(self),
            streams.len() > 0 ==> (r matches Some(e) && e.text@ == spec_header(user@, id as nat)
                + follow_text(views(names@), views(old(self).names_old@), old(self).first_iter)
                + stream_text(
                stream_views(streams@),
                stream_views(old(self).streams_old@),
                old(self).first_iter,
            ) + live_lines(
                stream_views(streams@),
                views(fav_users@),
                watching@,
                views(lives@),
                streams.len() as int,
            )),
            streams.len() > 0 ==> (r matches Some(e) && views(e.speech@) == follow_speech(
                views(names@),
                views(old(self).names_old@),
                old(self).first_iter,
            ) + stream_speech(
                stream_views(streams@),
                stream_views(old(self).streams_old@),
                old(self).first_iter,
            ) + fav_phrases(
                stream_views(streams@),
                views(fav_users@),
                watching@,
                streams.len() as int,
            )),
            streams.len() > 0 ==> final(self).names_old@ == names@,
            streams.len() > 0 ==> final(self).streams_old@ == streams@,
            streams.len() > 0 ==> !final(self).first_iter,
    {
        if streams.len() == 0 {
            return None;
        }
        let mut text = header(user, id);
        let follow = follow_events(&names, &self.names_old, self.first_iter);
        text.append(follow.text.as_str());
        let mut speech = follow.speech;
        let changes = stream_events(&streams, &self.streams_old, self.first_iter);
        text.append(changes.text.as_str());
        let mut more = changes.speech;
        let ghost speech_before = speech@;
        speech.append(&mut more);
        proof {
            assert(views(speech@) =~= views(speech_before) + views(changes.speech@));
        }
        let ghost sv = stream_views(streams@);
        let ghost fv = views(fav_users@);
        let ghost lv = views(lives@);
        let ghost t0 = text@;
        let ghost p0 = views(speech@);
        let mut i: usize = 0;
        while i < streams.len()
            invariant
                i <= streams.len(),
                sv == stream_views(streams@),
                fv == views(fav_users@),
                lv == views(lives@),
                watching.len() == streams.len(),
                lives.len() == streams.len(),
                text@ == t0 + live_lines(sv, fv, watching@, lv, i as int),
                views(speech@) == p0 + fav_phrases(sv, fv, watching@, i as int),
            decreases streams.len() - i,
        {
            let fav = is_favourite(fav_users, &streams[i].user_login);
            let (line, phrase) = stream_line(&streams[i], fav, watching[i], lives[i].as_str());
            let ghost text_before = text@;
            let ghost speech_before2 = speech@;
            text.append(line.as_str());
            proof {
                assert(sv[i as int] == streams@[i as int]@);
                assert(lv[i as int] == lives@[i as int]@);
            }
            match phrase {
                Some(p) => {
                    speech.push(p);
                    proof {
                        assert(views(speech@) =~= views(speech_before2).push(p@));
                    }
                },
                None => {},
            }
            proof {
                assert(text@ =~= t0 + live_lines(sv, fv, watching@, lv, i + 1));
                assert(views(speech@) =~= p0 + fav_phrases(sv, fv, watching@, i + 1));
            }
            i = i + 1;
        }
        self.names_old = names;
        self.streams_old = streams;
        self.first_iter = false;
        Some(Events { text, speech })
    }
}

/// Whether credentials are missing a part (an empty client id or token).
pub fn creds_missing(client_id: &str, oauth: &str) -> (r: bool)
    ensures
        r == (client_id@.len() == 0 || oauth@.len() == 0),
{
    client_id.is_empty() || oauth.is_empty()
}

/// The lines printed about loading the credentials: where a part is empty,
/// `Failed` and a warning for each empty part; else, where the backup file was
/// needed, the advice to restore it; else nothing.
pub open spec fn spec_creds_report(client_id: Seq<char>, oauth: Seq<char>, used_backup: bool) -> Seq<
    Seq<char>,
> {
    if client_id.len() == 0 || oauth.len() == 0 {
        seq!["\x1b[93mFailed\x1b[0m"@] + (if client_id.len() == 0 {
            seq![
                "\x1b[93mWarning: client-id is not set, this will likely couse an error later on!\x1b[0m"@,
            ]
        } else {
            Seq::empty()
        }) + (if oauth.len() == 0 {
            seq![
                "\x1b[93mWarning: oauth is not set, this will likely couse an error later on!\x1b[0m"@,
            ]
        } else {
            Seq::empty()
        })
    } else if used_backup {
        seq!["Success\nTry using the -r-c argument."@]
    } else {
        Seq::empty()
    }
}

/// The lines printed about loading the credentials.
pub fn creds_report(client_id: &str, oauth: &str, used_backup: bool) -> (r: Vec<String>)
    ensures
        views(r@) == spec_creds_report(client_id@, oauth@, used_backup),
{
    let mut r: Vec<String> = Vec::new();
    if client_id.is_empty() || oauth.is_empty() {
        r.push(String::from_str("\x1b[93mFailed\x1b[0m"));
        if client_id.is_empty() {
            r.push(
                String::from_str(
                    "\x1b[93mWarning: client-id is not set, this will likely couse an error later on!\x1b[0m",
                ),
            );
        }
        if oauth.is_empty() {
            r.push(
                String::from_str(
                    "\x1b[93mWarning: oauth is not set, this will likely couse an error later on!\x1b[0m",
                ),
            );
        }
    } else if used_backup {
        r.push(String::from_str("Success\nTry using the -r-c argument."));
    }
    proof {
        assert(views(r@) =~= spec_creds_report(client_id@, oauth@, used_backup));
    }
    r
}

/// The frame of the waiting spinner after `i` seconds.
pub open spec fn spinner_char(i: int) -> char {
    if i % 4 == 0 {
        '|'
    } else if i % 4 == 1 {
        '/'
    } else if i % 4 == 2 {
        '-'
    } else {
        '\\'
    }
}

/// The text printed while waiting, after `i` of `total` seconds: the spinner
/// frame and the count, with `updated!` at the start and the line cleared
/// after the first second.
pub open spec fn spec_progress(i: int, total: int) -> Seq<char> {
    (if i == 1 {
        seq!['\r'] + crate::text::repeat_seq(' ', 15)
    } else {
        Seq::empty()
    }) + seq!['\r', spinner_char(i), ' '] + crate::numbers::signed_decimal(i) + seq!['/']
        + crate::numbers::signed_decimal(total) + (if i == 0 {
        " updated!"@
    } else {
        Seq::empty()
    })
}

/// The text printed while waiting, after `i` of `total` seconds.
pub fn progress_text(i: i32, total: i32) -> (r: String)
    requires
        i >= 0,
    ensures
        r@ == spec_progress(i as int, total as int),
{
    let mut r = String::new();
    if i == 1 {
        r.append("\r");
        let blank = crate::text::repeat_char(' ', 15);
        r.append(blank.as_str());
    }
    let frame = if i % 4 == 0 {
        "\r| "
    } else if i % 4 == 1 {
        "\r/ "
    } else if i % 4 == 2 {
        "\r- "
    } else {
        "\r\\ "
    };
    r.append(frame);
    let n = crate::numbers::format_i128(i as i128);
    r.append(n.as_str());
    r.append("/");
    let t = crate::numbers::format_i128(total as i128);
    r.append(t.as_str());
    if i == 0 {
        r.append(" updated!");
    }
    proof {
        reveal_strlit("\r");
        reveal_strlit("\r| ");
        reveal_strlit("\r/ ");
        reveal_strlit("\r- ");
        reveal_strlit("\r\\ ");
        reveal_strlit("/");
        assert(r@ =~= spec_progress(i as int, total as int));
    }
    r
}

} // verus!
