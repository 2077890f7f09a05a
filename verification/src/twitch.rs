//! The Twitch API: the requests that the program makes, and what it reads
//! from the answers (a user's id, the channels a user follows, and which of
//! them are live).
use vstd::prelude::*;
use vstd::std_specs::cmp::PartialEqSpecImpl;
use crate::json::JsonKind;
use crate::json::JsonNode;
use crate::json::deref_opt;
use crate::json::dumped;
use crate::json::dumped_of;
use crate::json::element;
use crate::json::element_of;
use crate::json::flag;
use crate::json::flag_of;
use crate::json::json_document;
use crate::json::length;
use crate::json::length_of;
use crate::json::member;
use crate::json::member_of;
use crate::json::parse_json;
use crate::json::shown;
use crate::json::shown_of;
use crate::numbers::parse_u128;
use crate::numbers::parse_u32;
use crate::numbers::spec_parse_in;
use crate::text::chars_of;
use crate::text::concat;
use crate::text::replace_char;
use crate::text::replace_char_seq;
use crate::text::split_chars;
use crate::text::split_seq;
use crate::text::views;

verus! {

/// A live stream, as the streams endpoint describes it.
#[derive(Debug)]
pub struct Stream {
    pub id: String,
    pub user_id: String,
    pub user_login: String,
    pub user_name: String,
    pub game_id: String,
    pub game_name: String,
    pub type_: String,
    pub title: String,
    pub viewer_count: u128,
    pub started_at: String,
    pub language: String,
    pub thumbnail_url: String,
    pub tag_ids: Vec<String>,
    pub is_mature: bool,
}

/// What a `Stream` holds, as text.
pub struct StreamView {
    pub id: Seq<char>,
    pub user_id: Seq<char>,
    pub user_login: Seq<char>,
    pub user_name: Seq<char>,
    pub game_id: Seq<char>,
    pub game_name: Seq<char>,
    pub type_: Seq<char>,
    pub title: Seq<char>,
    pub viewer_count: u128,
    pub started_at: Seq<char>,
    pub language: Seq<char>,
    pub thumbnail_url: Seq<char>,
    pub tag_ids: Seq<Seq<char>>,
    pub is_mature: bool,
}

impl View for Stream {
    type V = StreamView;

    open spec fn view(&self) -> StreamView {
        StreamView {
            id: self.id@,
            user_id: self.user_id@,
            user_login: self.user_login@,
            user_name: self.user_name@,
            game_id: self.game_id@,
            game_name: self.game_name@,
            type_: self.type_@,
            title: self.title@,
            viewer_count: self.viewer_count,
            started_at: self.started_at@,
            language: self.language@,
            thumbnail_url: self.thumbnail_url@,
            tag_ids: views(self.tag_ids@),
            is_mature: self.is_mature,
        }
    }
}

/// Two streams are the same stream where their ids, logins and display names
/// agree.
pub open spec fn same_stream(a: StreamView, b: StreamView) -> bool {
    a.id == b.id && a.user_login == b.user_login && a.user_name == b.user_name
}

impl PartialEq for Stream {
    fn eq(&self, other: &Stream) -> (r: bool) {
        self.id == other.id && self.user_login == other.user_login && self.user_name
            == other.user_name
    }
}

impl PartialEqSpecImpl for Stream {
    open spec fn obeys_eq_spec() -> bool {
        true
    }

    open spec fn eq_spec(&self, other: &Stream) -> bool {
        same_stream(self@, other@)
    }
}

/// The views of a sequence of streams.
pub open spec fn stream_views(v: Seq<Stream>) -> Seq<StreamView> {
    v.map_values(|s: Stream| s@)
}

/// The users endpoint, asking for the user with this login.
pub fn user_url(user: &str) -> (r: String)
    ensures
        r@ == "https://api.twitch.tv/helix/users?login="@ + user@,
{
    concat("https://api.twitch.tv/helix/users?login=", user)
}

/// The value of the `Authorization` header for an OAuth token.
pub fn bearer(oauth: &str) -> (r: String)
    ensures
        r@ == "Bearer "@ + oauth@,
{
    concat("Bearer ", oauth)
}

/// The follows endpoint: up to 100 channels that user `id` follows, after
/// the page marker `cursor`.
pub fn follows_url(id: &str, cursor: &str) -> (r: String)
    ensures
        r@ == "https://api.twitch.tv/helix/users/follows?from_id="@ + id@ + "&first=100&after="@
            + cursor@,
{
    let mut r = concat("https://api.twitch.tv/helix/users/follows?from_id=", id);
    r.append("&first=100&after=");
    r.append(cursor);
    r
}

/// The user id that the users endpoint answers: the `id` of the first entry
/// of `data`, where it is a `u32`; else `Err(0)`.
pub open spec fn spec_user_id(doc: Option<JsonNode>) -> Result<u32, u32> {
    let text = shown(member(element(member(doc, "data"@), 0), "id"@));
    match spec_parse_in(text, false, 0, u32::MAX as int) {
        Some(v) => Ok(v as u32),
        None => Err(0),
    }
}

/// The user id in an answer of the users endpoint.
pub fn user_id_from_document(doc: &JsonNode) -> (r: Result<u32, u32>)
    ensures
        r == spec_user_id(Some(*doc)),
{
    let data = member_of(Some(doc), "data");
    let first = element_of(data, 0);
    let id = member_of(first, "id");
    let text = shown_of(id);
    match parse_u32(text.as_str()) {
        Some(v) => Ok(v),
        None => Err(0),
    }
}

/// The user id in the text of an answer of the users endpoint; `None` where
/// the text is not JSON.
pub fn user_id_from_response(text: &str) -> (r: Option<Result<u32, u32>>)
    ensures
        r == match json_document(text@) {
            Some(doc) => Some(spec_user_id(Some(doc))),
            None => None,
        },
{
    match parse_json(text) {
        Some(doc) => Some(user_id_from_document(&doc)),
        None => None,
    }
}

/// The id to watch after the lookup: the id found, unless the lookup failed
/// or found 0 (then the program stops).
pub fn id_to_watch(found: Result<u32, u32>) -> (r: Option<u32>)
    ensures
        r == (match found {
            Ok(id) => if id != 0 {
                Some(id)
            } else {
                None
            },
            Err(_) => None,
        }),
{
    match found {
        Ok(id) => if id != 0 {
            Some(id)
        } else {
            None
        },
        Err(_) => None,
    }
}

/// The number of requests that looking up a user's id may send.
pub open spec fn max_id_requests() -> nat {
    5
}

/// The requests of one user id lookup: a failed request is sent again, five
/// requests at most.
pub struct IdRequests {
    pub failures: u32,
}

impl IdRequests {
    /// No request sent yet.
    pub fn new() -> (r: IdRequests)
        ensures
            r.failures == 0,
    {
        IdRequests { failures: 0 }
    }

    /// Whether another request may be sent.
    pub fn may_send(&self) -> (r: bool)
        ensures
            r == (self.failures < max_id_requests()),
    {
        self.failures < 5
    }

    /// A request failed.
    pub fn failed(&mut self)
        requires
            old(self).failures < max_id_requests(),
        ensures
            final(self).failures == old(self).failures + 1,
    {
        self.failures = self.failures + 1;
    }
}

/// One page of the follows endpoint: the ids and logins of the followed
/// channels, and the marker of the next page (the last page's marker is
/// `null`).
pub struct FollowsPage {
    pub ids: Vec<String>,
    pub names: Vec<String>,
    pub cursor: String,
    pub last: bool,
}

/// The marker of the next page: the dump of `pagination.cursor` without its
/// quotes.
pub open spec fn spec_cursor(doc: Option<JsonNode>) -> Seq<char> {
    replace_char_seq(dumped(member(member(doc, "pagination"@), "cursor"@)), '"', Seq::empty())
}

/// The text of field `key` of entry `i` of `data`.
pub open spec fn data_field(doc: Option<JsonNode>, i: int, key: Seq<char>) -> Seq<char> {
    shown(member(element(member(doc, "data"@), i), key))
}

/// The number of entries of `data`.
pub open spec fn data_len(doc: Option<JsonNode>) -> int {
    length(member(doc, "data"@))
}

/// A page of the follows endpoint, read from its answer.
pub fn follows_page(doc: &JsonNode) -> (r: FollowsPage)
    ensures
        r.ids.len() == data_len(Some(*doc)),
        r.names.len() == data_len(Some(*doc)),
        forall|i: int|
            0 <= i < r.ids.len() ==> #[trigger] r.ids@[i]@ == data_field(Some(*doc), i, "to_id"@),
        forall|i: int|
            0 <= i < r.names.len() ==> #[trigger] r.names@[i]@ == data_field(
                Some(*doc),
                i,
                "to_login"@,
            ),
        r.cursor@ == spec_cursor(Some(*doc)),
        r.last == (spec_cursor(Some(*doc)) == "null"@),
{
    let data = member_of(Some(doc), "data");
    let n = length_of(data);
    let mut ids: Vec<String> = Vec::new();
    let mut names: Vec<String> = Vec::new();
    let mut i: usize = 0;
    while i < n
        invariant
            deref_opt(data) == member(Some(*doc), "data"@),
            n == data_len(Some(*doc)),
            i <= n,
            ids.len() == i,
            names.len() == i,
            forall|k: int|
                0 <= k < i ==> #[trigger] ids@[k]@ == data_field(Some(*doc), k, "to_id"@),
            forall|k: int|
                0 <= k < i ==> #[trigger] names@[k]@ == data_field(Some(*doc), k, "to_login"@),
        decreases n - i,
    {
        let follow = element_of(data, i);
        ids.push(shown_of(member_of(follow, "to_id")));
        names.push(shown_of(member_of(follow, "to_login")));
        i = i + 1;
    }
    let pagination = member_of(Some(doc), "pagination");
    let cursor_node = member_of(pagination, "cursor");
    let dump = dumped_of(cursor_node);
    let cursor = replace_char(dump.as_str(), '"', "");
    proof {
        reveal_strlit("");
        assert(""@ =~= Seq::<char>::empty());
    }
    let null = String::from_str("null");
    let last = cursor == null;
    FollowsPage { ids, names, cursor, last }
}

/// A page of the follows endpoint, read from the text of its answer; `None`
/// where the text is not JSON.
pub fn follows_page_from_response(text: &str) -> (r: Option<FollowsPage>)
    ensures
        r is Some <==> json_document(text@) is Some,
        r matches Some(p) ==> {
            let doc = json_document(text@);
            &&& p.ids.len() == data_len(doc)
            &&& p.names.len() == data_len(doc)
            &&& forall|i: int|
                0 <= i < p.ids.len() ==> #[trigger] p.ids@[i]@ == data_field(doc, i, "to_id"@)
            &&& forall|i: int|
                0 <= i < p.names.len() ==> #[trigger] p.names@[i]@ == data_field(
                    doc,
                    i,
                    "to_login"@,
                )
            &&& p.cursor@ == spec_cursor(doc)
            &&& p.last == (spec_cursor(doc) == "null"@)
        },
{
    match parse_json(text) {
        Some(doc) => Some(follows_page(&doc)),
        None => None,
    }
}

} // verus!

verus! {

/// Whether a character takes one byte in UTF-8.
pub open spec fn is_ascii_char(c: char) -> bool {
    (c as u32) < 128
}

/// The tag ids that the dump of `tag_ids` gives: without its quotes and
/// without its first and last characters (the brackets of a list), cut at the
/// commas. `None` where those characters cannot be cut off (fewer than two
/// characters, or one of them longer than a byte).
pub open spec fn spec_tag_ids(dump: Seq<char>) -> Option<Seq<Seq<char>>> {
    let t = replace_char_seq(dump, '"', Seq::empty());
    if t.len() >= 2 && is_ascii_char(t[0]) && is_ascii_char(t[t.len() - 1]) {
        Some(split_seq(t.subrange(1, t.len() - 1), seq![',']))
    } else {
        None
    }
}

/// The tag ids that the dump of `tag_ids` gives.
pub fn tag_ids_from_dump(dump: &str) -> (r: Option<Vec<String>>)
    ensures
        r is Some <==> spec_tag_ids(dump@) is Some,
        r matches Some(v) ==> spec_tag_ids(dump@) == Some(views(v@)),
{
    proof {
        reveal_strlit("");
        assert(""@ =~= Seq::<char>::empty());
    }
    let t = replace_char(dump, '"', "");
    let cs = chars_of(t.as_str());
    let n = cs.len();
    if n >= 2 && (cs[0] as u32) < 128 && (cs[n - 1] as u32) < 128 {
        let inner = crate::text::chars_range(&cs, 1, n - 1);
        let comma: Vec<char> = vec![','];
        proof {
            assert(comma@ =~= seq![',']);
        }
        Some(split_chars(&inner, &comma))
    } else {
        None
    }
}

/// The text of field `key` of a value.
pub open spec fn field(o: Option<JsonNode>, key: Seq<char>) -> Seq<char> {
    shown(member(o, key))
}

/// The stream that an entry of the streams endpoint's `data` describes: its
/// fields' texts, the viewer count read as a `u128`, the tag ids, and whether
/// it is for mature audiences. `None` where the viewer count is not a `u128`,
/// `is_mature` is not a boolean or the tag ids cannot be read.
pub open spec fn spec_stream(o: Option<JsonNode>) -> Option<StreamView> {
    let tags = spec_tag_ids(dumped(member(o, "tag_ids"@)));
    let viewers = spec_parse_in(field(o, "viewer_count"@), false, 0, u128::MAX as int);
    let mature = flag(member(o, "is_mature"@));
    if tags is Some && viewers is Some && mature is Some {
        Some(
            StreamView {
                id: field(o, "id"@),
                user_id: field(o, "user_id"@),
                user_login: field(o, "user_login"@),
                user_name: field(o, "user_name"@),
                game_id: field(o, "game_id"@),
                game_name: field(o, "game_name"@),
                type_: field(o, "type"@),
                title: field(o, "title"@),
                viewer_count: viewers->0 as u128,
                started_at: field(o, "started_at"@),
                language: field(o, "language"@),
                thumbnail_url: field(o, "thumbnail_url"@),
                tag_ids: tags->0,
                is_mature: mature->0,
            },
        )
    } else {
        None
    }
}

/// A stream read from an entry takes each of its text fields from the entry's
/// member of the same name (the `type` member for `type_`), its viewer count
/// from the `viewer_count` member read as a number, its maturity from the
/// `is_mature` boolean and its tag ids from the `tag_ids` member; it is read
/// exactly where those three can be.
pub proof fn lemma_stream_fields(o: Option<JsonNode>)
    ensures
        spec_stream(o) is Some <==> ({
            &&& spec_tag_ids(dumped(member(o, "tag_ids"@))) is Some
            &&& spec_parse_in(shown(member(o, "viewer_count"@)), false, 0, u128::MAX as int) is Some
            &&& flag(member(o, "is_mature"@)) is Some
        }),
        spec_stream(o) matches Some(s) ==> {
            &&& s.id == shown(member(o, "id"@))
            &&& s.user_id == shown(member(o, "user_id"@))
            &&& s.user_login == shown(member(o, "user_login"@))
            &&& s.user_name == shown(member(o, "user_name"@))
            &&& s.game_id == shown(member(o, "game_id"@))
            &&& s.game_name == shown(member(o, "game_name"@))
            &&& s.type_ == shown(member(o, "type"@))
            &&& s.title == shown(member(o, "title"@))
            &&& s.started_at == shown(member(o, "started_at"@))
            &&& s.language == shown(member(o, "language"@))
            &&& s.thumbnail_url == shown(member(o, "thumbnail_url"@))
            &&& s.viewer_count as int == spec_parse_in(
                shown(member(o, "viewer_count"@)),
                false,
                0,
                u128::MAX as int,
            )->0
            &&& Some(s.is_mature) == flag(member(o, "is_mature"@))
            &&& Some(s.tag_ids) == spec_tag_ids(dumped(member(o, "tag_ids"@)))
        },
{
}

/// The text of field `key` of a value.
fn field_of(o: Option<&JsonNode>, key: &str) -> (r: String)
    ensures
        r@ == field(deref_opt(o), key@),
{
    shown_of(member_of(o, key))
}

/// The stream that an entry of the streams endpoint's `data` describes.
pub fn stream_from_node(o: Option<&JsonNode>) -> (r: Option<Stream>)
    ensures
        r is Some <==> spec_stream(deref_opt(o)) is Some,
        r matches Some(s) ==> spec_stream(deref_opt(o)) == Some(s@),
{
    let tag_dump = dumped_of(member_of(o, "tag_ids"));
    let tag_ids = match tag_ids_from_dump(tag_dump.as_str()) {
        Some(t) => t,
        None => return None,
    };
    let viewers_text = field_of(o, "viewer_count");
    let viewer_count = match parse_u128(viewers_text.as_str()) {
        Some(v) => v,
        None => return None,
    };
    let is_mature = match flag_of(member_of(o, "is_mature")) {
        Some(b) => b,
        None => return None,
    };
    let s = Stream {
        id: field_of(o, "id"),
        user_id: field_of(o, "user_id"),
        user_login: field_of(o, "user_login"),
        user_name: field_of(o, "user_name"),
        game_id: field_of(o, "game_id"),
        game_name: field_of(o, "game_name"),
        type_: field_of(o, "type"),
        title: field_of(o, "title"),
        viewer_count,
        started_at: field_of(o, "started_at"),
        language: field_of(o, "language"),
        thumbnail_url: field_of(o, "thumbnail_url"),
        tag_ids,
        is_mature,
    };
    Some(s)
}

/// The streams that an answer of the streams endpoint lists, in its order;
/// `None` where one of them cannot be read.
pub open spec fn spec_streams(doc: Option<JsonNode>) -> Option<Seq<StreamView>> {
    let data = member(doc, "data"@);
    let n = length(data);
    if forall|i: int| 0 <= i < n ==> (#[trigger] spec_stream(element(data, i))) is Some {
        Some(Seq::new(n as nat, |i: int| spec_stream(element(data, i))->0))
    } else {
        None
    }
}

/// The streams that an answer of the streams endpoint lists.
pub fn streams_from_document(doc: &JsonNode) -> (r: Option<Vec<Stream>>)
    ensures
        r is Some <==> spec_streams(Some(*doc)) is Some,
        r matches Some(v) ==> spec_streams(Some(*doc)) == Some(stream_views(v@)),
{
    let data = member_of(Some(doc), "data");
    let n = length_of(data);
    let ghost d = member(Some(*doc), "data"@);
    let mut out: Vec<Stream> = Vec::new();
    let mut i: usize = 0;
    while i < n
        invariant
            deref_opt(data) == d,
            d == member(Some(*doc), "data"@),
            n == length(d),
            i <= n,
            out.len() == i,
            forall|k: int|
                0 <= k < i ==> spec_stream(element(d, k)) == Some(#[trigger] out@[k]@),
        decreases n - i,
    {
        let entry = element_of(data, i);
        proof {
            assert(deref_opt(entry) == element(d, i as int));
        }
        match stream_from_node(entry) {
            Some(s) => out.push(s),
            None => {
                assert(!(forall|j: int|
                    0 <= j < n ==> (#[trigger] spec_stream(element(d, j))) is Some));
                return None;
            },
        }
        i = i + 1;
    }
    proof {
        assert forall|j: int| 0 <= j < n implies (#[trigger] spec_stream(element(d, j))) is Some by {
            assert(spec_stream(element(d, j)) == Some(out@[j]@));
        }
        assert(Seq::new(n as nat, |j: int| spec_stream(element(d, j))->0) =~= stream_views(
            out@,
        ));
    }
    Some(out)
}

/// The streams in the text of an answer of the streams endpoint; `None` where
/// the text is not JSON or a stream cannot be read.
pub fn streams_from_response(text: &str) -> (r: Option<Vec<Stream>>)
    ensures
        r is Some <==> (json_document(text@) is Some && spec_streams(json_document(text@)) is Some),
        r matches Some(v) ==> spec_streams(json_document(text@)) == Some(stream_views(v@)),
{
    match parse_json(text) {
        Some(doc) => streams_from_document(&doc),
        None => None,
    }
}

/// The most ids that one request to the streams endpoint may name.
pub open spec fn batch_size() -> nat {
    100
}

/// The batches of ids that the streams endpoint is asked about: the ids in
/// order, in runs of 100, the last run holding what remains; no batch for no
/// ids.
pub open spec fn spec_batches(ids: Seq<Seq<char>>) -> Seq<Seq<Seq<char>>>
    decreases ids.len(),
{
    if ids.len() == 0 {
        Seq::empty()
    } else if ids.len() <= batch_size() {
        seq![ids]
    } else {
        seq![ids.take(100)] + spec_batches(ids.skip(100))
    }
}

/// The batches' ids, one batch after another.
pub open spec fn flatten_batches(b: Seq<Seq<Seq<char>>>) -> Seq<Seq<char>>
    decreases b.len(),
{
    if b.len() == 0 {
        Seq::empty()
    } else {
        b[0] + flatten_batches(b.drop_first())
    }
}

/// Every id is asked about exactly once, in order: the batches, one after
/// another, are the ids; each holds 1 to 100 ids; and there are as many
/// batches as runs of 100 ids, rounded up.
pub proof fn lemma_batches(ids: Seq<Seq<char>>)
    ensures
        flatten_batches(spec_batches(ids)) == ids,
        forall|j: int|
            0 <= j < spec_batches(ids).len() ==> 1 <= (#[trigger] spec_batches(ids)[j]).len()
                <= batch_size(),
        spec_batches(ids).len() == (ids.len() + 99) / 100,
    decreases ids.len(),
{
    if ids.len() == 0 {
    } else if ids.len() <= batch_size() {
        let b = spec_batches(ids);
        assert(b.drop_first() =~= Seq::<Seq<Seq<char>>>::empty());
        assert(flatten_batches(b.drop_first()) =~= Seq::<Seq<char>>::empty());
        assert(b[0] == ids);
        assert(flatten_batches(b) =~= ids);
    } else {
        let rest = ids.skip(100);
        lemma_batches(rest);
        let b = spec_batches(ids);
        assert(b.drop_first() =~= spec_batches(rest));
        assert(ids =~= ids.take(100) + rest);
        assert forall|j: int| 0 <= j < b.len() implies 1 <= (#[trigger] b[j]).len()
            <= batch_size() by {
            if j > 0 {
                assert(b[j] == spec_batches(rest)[j - 1]);
            }
        }
    }
}

/// The views of a sequence of batches.
pub open spec fn batch_views(b: Seq<Vec<String>>) -> Seq<Seq<Seq<char>>> {
    b.map_values(|v: Vec<String>| views(v@))
}

/// Copies of the ids `ids[from..to]`.
fn ids_range(ids: &Vec<String>, from: usize, to: usize) -> (r: Vec<String>)
    requires
        from <= to <= ids.len(),
    ensures
        views(r@) == views(ids@).subrange(from as int, to as int),
{
    let mut r: Vec<String> = Vec::new();
    let mut k = from;
    while k < to
        invariant
            from <= k <= to <= ids.len(),
            views(r@) == views(ids@).subrange(from as int, k as int),
        decreases to - k,
    {
        let ghost before = r@;
        r.push(ids[k].clone());
        k = k + 1;
        proof {
            assert(views(r@) =~= views(before).push(ids@[k - 1]@));
            assert(views(r@) =~= views(ids@).subrange(from as int, k as int));
        }
    }
    r
}

/// The ids in batches of up to 100 for the streams endpoint. There must be
/// at least one id: a request that names no channel cannot be written.
pub fn batch_ids(ids: &Vec<String>) -> (r: Vec<Vec<String>>)
    requires
        ids.len() >= 1,
    ensures
        batch_views(r@) == spec_batches(views(ids@)),
{
    let ghost s = views(ids@);
    let mut batches: Vec<Vec<String>> = Vec::new();
    let mut start: usize = 0;
    proof {
        assert(s.skip(0) =~= s);
        assert(batch_views(batches@) =~= Seq::<Seq<Seq<char>>>::empty());
    }
    while start < ids.len()
        invariant
            s == views(ids@),
            start <= ids.len(),
            spec_batches(s) == batch_views(batches@) + spec_batches(s.skip(start as int)),
        decreases ids.len() - start,
    {
        let ghost t = s.skip(start as int);
        let end = if ids.len() - start <= 100 {
            ids.len()
        } else {
            start + 100
        };
        let chunk = ids_range(ids, start, end);
        let ghost before = batches@;
        batches.push(chunk);
        proof {
            assert(batch_views(batches@) =~= batch_views(before).push(
                s.subrange(start as int, end as int),
            ));
            if t.len() <= 100 {
                assert(t =~= s.subrange(start as int, end as int));
                assert(s.skip(end as int).len() == 0);
                assert(spec_batches(s.skip(end as int)) =~= Seq::<Seq<Seq<char>>>::empty());
                assert(spec_batches(t) =~= seq![t]);
            } else {
                assert(t.take(100) =~= s.subrange(start as int, end as int));
                assert(t.skip(100) =~= s.skip(end as int));
            }
        }
        start = end;
    }
    proof {
        assert(s.skip(start as int).len() == 0);
        assert(batch_views(batches@) + spec_batches(s.skip(start as int)) =~= batch_views(
            batches@,
        ));
    }
    batches
}

/// The query pieces `user_id=<id>&` of the ids, one after another.
pub open spec fn query_pieces(batch: Seq<Seq<char>>) -> Seq<char>
    decreases batch.len(),
{
    if batch.len() == 0 {
        Seq::empty()
    } else {
        query_pieces(batch.drop_last()) + "user_id="@ + batch.last() + "&"@
    }
}

/// The query that names the ids of a batch: `user_id=<id>` for each, joined by
/// `&`.
pub open spec fn spec_query(batch: Seq<Seq<char>>) -> Seq<char> {
    query_pieces(batch).drop_last()
}

/// The query names each id of the batch, in order: `user_id=<id>` for each,
/// joined by `&`.
pub proof fn lemma_query_names_ids(batch: Seq<Seq<char>>)
    requires
        batch.len() >= 1,
    ensures
        spec_query(batch) == crate::text::join_seq(
            batch.map_values(|id: Seq<char>| "user_id="@ + id),
            "&"@,
        ),
{
    lemma_query_pieces(batch);
    let j = crate::text::join_seq(batch.map_values(|id: Seq<char>| "user_id="@ + id), "&"@);
    assert((j + "&"@).drop_last() =~= j) by {
        reveal_strlit("&");
    }
}

proof fn lemma_query_pieces(batch: Seq<Seq<char>>)
    requires
        batch.len() >= 1,
    ensures
        query_pieces(batch) == crate::text::join_seq(
            batch.map_values(|id: Seq<char>| "user_id="@ + id),
            "&"@,
        ) + "&"@,
    decreases batch.len(),
{
    let f = |id: Seq<char>| "user_id="@ + id;
    if batch.len() == 1 {
        assert(query_pieces(batch.drop_last()) =~= Seq::<char>::empty());
        assert(crate::text::join_seq(batch.map_values(f), "&"@) == batch.map_values(f)[0]);
        assert(query_pieces(batch) =~= "user_id="@ + batch[0] + "&"@);
    } else {
        let init = batch.drop_last();
        lemma_query_pieces(init);
        assert(batch.map_values(f) =~= init.map_values(f).push(f(batch.last())));
        crate::text::lemma_join_push(init.map_values(f), "&"@, f(batch.last()));
        assert(query_pieces(batch) =~= crate::text::join_seq(batch.map_values(f), "&"@) + "&"@);
    }
}

/// The query that names the ids of a non-empty batch.
pub fn batch_query(batch: &Vec<String>) -> (r: String)
    requires
        batch.len() >= 1,
    ensures
        r@ == spec_query(views(batch@)),
{
    let ghost s = views(batch@);
    let mut q = String::new();
    let mut i: usize = 0;
    while i < batch.len()
        invariant
            s == views(batch@),
            i <= batch.len(),
            q@ == query_pieces(s.take(i as int)),
        decreases batch.len() - i,
    {
        q.append("user_id=");
        q.append(batch[i].as_str());
        q.append("&");
        proof {
            assert(s.take(i + 1).drop_last() =~= s.take(i as int));
            assert(s.take(i + 1).last() == batch@[i as int]@);
        }
        i = i + 1;
    }
    proof {
        assert(s.take(batch.len() as int) =~= s);
        reveal_strlit("&");
    }
    let cs = chars_of(q.as_str());
    crate::text::string_of_range(&cs, 0, cs.len() - 1)
}

/// The streams endpoint, asking about the ids that the query names.
pub fn streams_url(query: &str) -> (r: String)
    ensures
        r@ == "https://api.twitch.tv/helix/streams?first=100&"@ + query@,
{
    concat("https://api.twitch.tv/helix/streams?first=100&", query)
}

/// Where a stream with `k` viewers goes in streams ordered by falling viewer
/// count: before the first one, from `from` on, that has at most `k` viewers.
pub open spec fn place_from(s: Seq<StreamView>, k: u128, from: int) -> int
    decreases s.len() - from,
{
    if from < 0 || from >= s.len() || s[from].viewer_count <= k {
        from
    } else {
        place_from(s, k, from + 1)
    }
}

/// The streams ordered by falling viewer count, where streams with the same
/// count come in the reverse of their order in `s` (the order that a stable
/// sort by viewer count, then a reversal, gives).
pub open spec fn by_viewers(s: Seq<StreamView>) -> Seq<StreamView>
    decreases s.len(),
{
    if s.len() == 0 {
        Seq::empty()
    } else {
        let rest = by_viewers(s.drop_last());
        rest.insert(place_from(rest, s.last().viewer_count, 0), s.last())
    }
}

proof fn lemma_place_from(s: Seq<StreamView>, k: u128, from: int)
    requires
        0 <= from <= s.len(),
    ensures
        from <= place_from(s, k, from) <= s.len(),
        forall|j: int| from <= j < place_from(s, k, from) ==> s[j].viewer_count > k,
        place_from(s, k, from) < s.len() ==> s[place_from(s, k, from)].viewer_count <= k,
    decreases s.len() - from,
{
    if from < s.len() && s[from].viewer_count > k {
        lemma_place_from(s, k, from + 1);
    }
}

/// Whether streams come in falling viewer count.
pub open spec fn falling(s: Seq<StreamView>) -> bool {
    forall|i: int, j: int| 0 <= i < j < s.len() ==> s[i].viewer_count >= s[j].viewer_count
}

/// The streams ordered by viewers come in falling viewer count and are the
/// same streams, each as often as before.
pub proof fn lemma_by_viewers(s: Seq<StreamView>)
    ensures
        falling(by_viewers(s)),
        by_viewers(s).to_multiset() == s.to_multiset(),
    decreases s.len(),
{
    broadcast use vstd::seq_lib::group_to_multiset_ensures;

    if s.len() > 0 {
        let rest = by_viewers(s.drop_last());
        lemma_by_viewers(s.drop_last());
        let x = s.last();
        let p = place_from(rest, x.viewer_count, 0);
        lemma_place_from(rest, x.viewer_count, 0);
        let r = rest.insert(p, x);
        assert(falling(r)) by {
            assert forall|i: int, j: int| 0 <= i < j < r.len() implies r[i].viewer_count
                >= r[j].viewer_count by {
                if j < p {
                } else if j == p {
                } else if i < p {
                    assert(r[j] == rest[j - 1]);
                    assert(rest[p].viewer_count <= x.viewer_count);
                } else if i == p {
                    assert(r[j] == rest[j - 1]);
                    assert(rest[p].viewer_count <= x.viewer_count);
                } else {
                    assert(r[j] == rest[j - 1]);
                    assert(r[i] == rest[i - 1]);
                }
            }
        }
        assert(r =~= rest.take(p).push(x) + rest.skip(p));
        assert(rest =~= rest.take(p) + rest.skip(p));
        assert(s =~= s.drop_last().push(x));
        assert(r.to_multiset() =~= rest.to_multiset().insert(x));
    }
}

/// Where a stream with `k` viewers goes among `v`, searching from `from`.
fn place_exec(v: &Vec<Stream>, k: u128) -> (p: usize)
    ensures
        p == place_from(stream_views(v@), k, 0),
        p <= v.len(),
{
    let ghost s = stream_views(v@);
    let mut p: usize = 0;
    while p < v.len() && v[p].viewer_count > k
        invariant
            s == stream_views(v@),
            p <= v.len(),
            place_from(s, k, 0) == place_from(s, k, p as int),
        decreases v.len() - p,
    {
        p = p + 1;
    }
    p
}

/// The streams ordered by falling viewer count, those with the same count in
/// the reverse of their given order (`sort_by_key` on the viewer count, then
/// `reverse`).
pub fn order_by_viewers(streams: Vec<Stream>) -> (r: Vec<Stream>)
    ensures
        stream_views(r@) == by_viewers(stream_views(streams@)),
{
    let ghost s = stream_views(streams@);
    let mut rest = streams;
    let mut out: Vec<Stream> = Vec::new();
    let ghost mut k: int = 0;
    while rest.len() > 0
        invariant
            0 <= k <= s.len(),
            rest.len() + k == s.len(),
            stream_views(rest@) == s.skip(k),
            stream_views(out@) == by_viewers(s.take(k)),
        decreases rest.len(),
    {
        let ghost old_rest = rest@;
        let x = rest.remove(0);
        proof {
            assert(stream_views(old_rest)[0] == old_rest[0]@);
            assert(x@ == s[k]);
            assert forall|j: int| 0 <= j < rest.len() implies #[trigger] stream_views(rest@)[j]
                == s.skip(k + 1)[j] by {
                assert(rest@[j] == old_rest[j + 1]);
                assert(stream_views(old_rest)[j + 1] == old_rest[j + 1]@);
            }
            assert(stream_views(rest@) =~= s.skip(k + 1));
            assert(s.take(k + 1).drop_last() =~= s.take(k));
        }
        let p = place_exec(&out, x.viewer_count);
        let ghost before = out@;
        out.insert(p, x);
        proof {
            k = k + 1;
            assert(stream_views(out@) =~= stream_views(before).insert(p as int, x@));
        }
    }
    proof {
        assert(s.take(k) =~= s);
    }
    out
}

} // verus!

verus! {

/// The channels that a user follows, gathered page by page.
pub struct Follows {
    pub ids: Vec<String>,
    pub names: Vec<String>,
}

impl Follows {
    /// No channel gathered yet.
    pub fn new() -> (r: Follows)
        ensures
            r.ids.len() == 0,
            r.names.len() == 0,
    {
        Follows { ids: Vec::new(), names: Vec::new() }
    }

    /// Adds a page's channels after those gathered; whether another page
    /// follows (the page's marker is not `null`).
    pub fn add_page(&mut self, page: FollowsPage) -> (more: bool)
        ensures
            final(self).ids@ == old(self).ids@ + page.ids@,
            final(self).names@ == old(self).names@ + page.names@,
            more == !page.last,
    {
        let mut ids = page.ids;
        let mut names = page.names;
        self.ids.append(&mut ids);
        self.names.append(&mut names);
        !page.last
    }
}

/// The chatters endpoint of Twitch's chat service for a channel: where this
/// program looks up who is watching a channel. The endpoint and the shape of
/// its answer (`chatters.viewers`) are this crate's own choice; nothing else
/// in the program's files names them.
pub fn chatters_url(login: &str) -> (r: String)
    ensures
        r@ == "https://tmi.twitch.tv/group/user/"@ + login@ + "/chatters"@,
{
    let mut r = concat("https://tmi.twitch.tv/group/user/", login);
    r.append("/chatters");
    r
}

/// The viewers that the chatters endpoint lists: the texts of the entries of
/// `chatters.viewers` (the answer's shape that this crate assumes).
pub fn viewer_logins(doc: &JsonNode) -> (r: Vec<String>)
    ensures
        r.len() == length(member(member(Some(*doc), "chatters"@), "viewers"@)),
        forall|i: int|
            0 <= i < r.len() ==> #[trigger] r@[i]@ == shown(
                element(member(member(Some(*doc), "chatters"@), "viewers"@), i),
            ),
{
    let list = member_of(member_of(Some(doc), "chatters"), "viewers");
    let n = length_of(list);
    let mut r: Vec<String> = Vec::new();
    let mut i: usize = 0;
    while i < n
        invariant
            deref_opt(list) == member(member(Some(*doc), "chatters"@), "viewers"@),
            n == length(deref_opt(list)),
            i <= n,
            r.len() == i,
            forall|k: int| 0 <= k < i ==> #[trigger] r@[k]@ == shown(element(deref_opt(list), k)),
        decreases n - i,
    {
        r.push(shown_of(element_of(list, i)));
        i = i + 1;
    }
    r
}

/// The viewers that the chatters endpoint lists, read from the text of its
/// answer; `None` where the text is not JSON.
pub fn viewers_from_response(text: &str) -> (r: Option<Vec<String>>)
    ensures
        r is Some <==> json_document(text@) is Some,
        r matches Some(v) ==> {
            let list = member(member(json_document(text@), "chatters"@), "viewers"@);
            &&& v.len() == length(list)
            &&& forall|i: int| 0 <= i < v.len() ==> #[trigger] v@[i]@ == shown(element(list, i))
        },
{
    match parse_json(text) {
        Some(doc) => Some(viewer_logins(&doc)),
        None => None,
    }
}

/// A stream read from the text of one entry of the streams endpoint's
/// `data`; `None` where the text is not JSON or the stream cannot be read.
pub fn stream_from_response(text: &str) -> (r: Option<Stream>)
    ensures
        r is Some <==> (json_document(text@) is Some && spec_stream(json_document(text@)) is Some),
        r matches Some(s) ==> spec_stream(json_document(text@)) == Some(s@),
{
    match parse_json(text) {
        Some(doc) => stream_from_node(Some(&doc)),
        None => None,
    }
}

/// The user id is the `id` member of the first entry of the answer's `data`,
/// read as a `u32`; where it cannot be read the lookup fails.
pub proof fn lemma_user_id(doc: Option<JsonNode>)
    ensures
        ({
            let text = shown(member(element(member(doc, "data"@), 0), "id"@));
            &&& spec_user_id(doc) is Ok <==> spec_parse_in(text, false, 0, u32::MAX as int) is Some
            &&& spec_user_id(doc) matches Ok(v) ==> v as int == spec_parse_in(
                text,
                false,
                0,
                u32::MAX as int,
            )->0
        }),
{
}

/// The marker of the next follows page is the dump of `pagination.cursor`
/// with every quote removed and nothing else changed.
pub proof fn lemma_cursor(doc: Option<JsonNode>)
    ensures
        spec_cursor(doc) == dumped(member(member(doc, "pagination"@), "cursor"@)).filter(
            |c: char| c != '"',
        ),
{
    crate::text::lemma_replace_by_nothing(dumped(member(member(doc, "pagination"@), "cursor"@)), '"');
}

/// The tag ids are what lies between the first and last characters of the
/// quote-free dump (the brackets), cut at each comma; they can be read
/// exactly where that text has two such characters of one byte each.
pub proof fn lemma_tag_ids(dump: Seq<char>)
    ensures
        ({
            let t = dump.filter(|c: char| c != '"');
            &&& spec_tag_ids(dump) is Some <==> (t.len() >= 2 && (t[0] as u32) < 128 && (t[t.len()
                - 1] as u32) < 128)
            &&& spec_tag_ids(dump) matches Some(v) ==> v == split_seq(t.subrange(1, t.len() - 1), seq![','])
        }),
{
    crate::text::lemma_replace_by_nothing(dump, '"');
}

} // verus!
