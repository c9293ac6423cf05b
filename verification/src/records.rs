//! Threads and messages as the bridge reports them.
use vstd::prelude::*;

use crate::json::{
    is_string_list, json_encoding, json_get, json_text, json_texts, lemma_array_view, normal, parsed_value,
    str_field, string_count, views, JsonValue, JsonView,
};
use crate::number::opt_int;
use crate::parts::{join, join_all};
use crate::text::{lemma_texts_push, opt_text, or_empty, text_or_empty, texts, Text};
use crate::time::{opt_ts_millis, parse_ts_millis, ts_millis};

verus! {

/// A conversation.
#[derive(Debug)]
pub struct ThreadRecord {
    pub thread_id: String,
    pub thread_name: Option<String>,
    pub participant_ids: Vec<String>,
    pub user_info: Vec<JsonValue>,
    pub unread_count: Option<i64>,
    pub message_count: Option<i64>,
    pub timestamp: Option<String>,
    pub is_group: Option<bool>,
    pub is_archived: Option<bool>,
    pub folder: Option<String>,
    pub snippet: Option<String>,
    pub raw_extra: std::collections::BTreeMap<String, JsonValue>,
}

/// A message of a conversation.
#[derive(Debug)]
pub struct MessageRecord {
    pub message_id: String,
    pub thread_id: String,
    pub sender_id: Option<String>,
    pub body: Option<String>,
    pub timestamp: Option<String>,
    pub attachments: Vec<JsonValue>,
    pub mentions: JsonValue,
    pub reactions: Vec<JsonValue>,
    pub is_unread: Option<bool>,
    pub is_group: Option<bool>,
    pub kind: Option<String>,
    pub raw_extra: std::collections::BTreeMap<String, JsonValue>,
}

/// The point in time that a thread was last changed at.
pub open spec fn thread_time(t: ThreadRecord) -> Option<int> {
    opt_ts_millis(opt_text(t.timestamp))
}

/// The point in time that a message was sent at.
pub open spec fn message_time(m: MessageRecord) -> Option<int> {
    opt_ts_millis(opt_text(m.timestamp))
}

/// The point in time that an optional text stands for.
pub fn record_time(timestamp: &Option<String>) -> (r: Option<i64>)
    ensures
        match r {
            Some(v) => opt_ts_millis(opt_text(*timestamp)) == Some(v as int),
            None => opt_ts_millis(opt_text(*timestamp)) is None,
        },
{
    match timestamp {
        Some(s) => parse_ts_millis(Some(s.as_str())),
        None => parse_ts_millis(None),
    }
}

/// The place of a message in the order of time; a message without a time stands at 1970.
#[verifier::opaque]
pub open spec fn message_key(m: MessageRecord) -> int {
    match message_time(m) {
        Some(t) => t,
        None => 0,
    }
}

/// The messages with `m` among them, behind all that are not later.
pub open spec fn insert_by_time(s: Seq<MessageRecord>, m: MessageRecord) -> Seq<MessageRecord>
    decreases s.len(),
{
    if s.len() == 0 || message_key(s.last()) <= message_key(m) {
        s.push(m)
    } else {
        insert_by_time(s.drop_last(), m).push(s.last())
    }
}

/// The messages in the order of time; those of one time stay in the order they had.
pub open spec fn by_time(s: Seq<MessageRecord>) -> Seq<MessageRecord>
    decreases s.len(),
{
    if s.len() == 0 {
        s
    } else {
        insert_by_time(by_time(s.drop_last()), s.last())
    }
}

/// No message stands before an earlier one.
pub open spec fn time_ordered(s: Seq<MessageRecord>) -> bool {
    forall|i: int, j: int| 0 <= i <= j < s.len() ==> message_key(s[i]) <= message_key(s[j])
}

/// The messages of one time.
pub open spec fn of_time(s: Seq<MessageRecord>, key: int) -> Seq<MessageRecord> {
    s.filter(|m: MessageRecord| message_key(m) == key)
}

proof fn lemma_of_time_push(s: Seq<MessageRecord>, m: MessageRecord, key: int)
    ensures
        of_time(s.push(m), key) == (if message_key(m) == key {
            of_time(s, key).push(m)
        } else {
            of_time(s, key)
        }),
{
    reveal_with_fuel(Seq::filter, 2);
    assert(s.push(m).drop_last() =~= s);
}

proof fn lemma_insert_by_time(s: Seq<MessageRecord>, m: MessageRecord, key: int)
    requires
        time_ordered(s),
    ensures
        time_ordered(insert_by_time(s, m)),
        insert_by_time(s, m).len() == s.len() + 1,
        forall|i: int|
            0 <= i <= s.len() ==> (#[trigger] insert_by_time(s, m)[i] == m || s.contains(
                insert_by_time(s, m)[i],
            )),
        of_time(insert_by_time(s, m), key) == of_time(s.push(m), key),
    decreases s.len(),
{
    lemma_of_time_push(s, m, key);
    if s.len() > 0 && message_key(s.last()) > message_key(m) {
        let init = s.drop_last();
        lemma_insert_by_time(init, m, key);
        let inner = insert_by_time(init, m);
        assert forall|i: int, j: int| 0 <= i <= j < inner.push(s.last()).len() implies message_key(
            inner.push(s.last())[i],
        ) <= message_key(inner.push(s.last())[j]) by {
            if j == inner.len() && i < j {
                assert(inner[i] == m || init.contains(inner[i]));
                if inner[i] != m {
                    let k = choose|k: int| 0 <= k < init.len() && init[k] == inner[i];
                    assert(s[k] == inner[i]);
                }
            }
        }
        assert forall|i: int| 0 <= i <= s.len() implies (#[trigger] insert_by_time(s, m)[i] == m
            || s.contains(insert_by_time(s, m)[i])) by {
            if i < inner.len() {
                assert(inner[i] == m || init.contains(inner[i]));
                if inner[i] != m {
                    let k = choose|k: int| 0 <= k < init.len() && init[k] == inner[i];
                    assert(s[k] == inner[i]);
                }
            } else {
                assert(s[s.len() - 1] == s.last());
            }
        }
        lemma_of_time_push(inner, s.last(), key);
        lemma_of_time_push(init, m, key);
        lemma_of_time_push(init, s.last(), key);
        assert(init.push(s.last()) =~= s);
        lemma_of_time_push(s, m, key);
    } else {
        assert forall|i: int| 0 <= i <= s.len() implies (#[trigger] insert_by_time(s, m)[i] == m
            || s.contains(insert_by_time(s, m)[i])) by {
            if i < s.len() {
                assert(s[i] == insert_by_time(s, m)[i]);
            }
        }
    }
}

/// Sorting puts the messages in the order of time, and keeps all messages of one time, in the
/// order they had.
pub proof fn law_by_time_sorts(s: Seq<MessageRecord>, key: int)
    ensures
        time_ordered(by_time(s)),
        by_time(s).len() == s.len(),
        of_time(by_time(s), key) == of_time(s, key),
    decreases s.len(),
{
    if s.len() > 0 {
        let init = s.drop_last();
        law_by_time_sorts(init, key);
        lemma_insert_by_time(by_time(init), s.last(), key);
        lemma_of_time_push(by_time(init), s.last(), key);
        lemma_of_time_push(init, s.last(), key);
        assert(init.push(s.last()) =~= s);
    }
}

/// The place at which a message is inserted.
proof fn lemma_insert_place(s: Seq<MessageRecord>, m: MessageRecord, place: int)
    requires
        0 <= place <= s.len(),
        forall|j: int| place <= j < s.len() ==> message_key(#[trigger] s[j]) > message_key(m),
        place > 0 ==> message_key(s[place - 1]) <= message_key(m),
    ensures
        insert_by_time(s, m) == s.insert(place, m),
    decreases s.len(),
{
    if place == s.len() {
        assert(s.insert(place, m) =~= s.push(m));
    } else {
        assert(message_key(s[s.len() - 1]) > message_key(m));
        lemma_insert_place(s.drop_last(), m, place);
        assert(s.insert(place, m) =~= s.drop_last().insert(place, m).push(s.last()));
    }
}

/// The messages in the order of time.
pub fn sort_by_time(messages: Vec<MessageRecord>) -> (r: Vec<MessageRecord>)
    ensures
        r@ == by_time(messages@),
{
    let ghost all = messages@;
    let mut out: Vec<MessageRecord> = Vec::new();
    let mut keys: Vec<i64> = Vec::new();
    proof {
        assert(all.take(0) =~= Seq::<MessageRecord>::empty());
        assert(out@ =~= by_time(all.take(0)));
    }
    for m in it: messages
        invariant
            it.seq() == all,
            out@ == by_time(all.take(it.index())),
            keys@.len() == out@.len(),
            forall|j: int| 0 <= j < out@.len() ==> keys@[j] == message_key(#[trigger] out@[j]),
    {
        let key: i64 = match record_time(&m.timestamp) {
            Some(t) => t,
            None => 0,
        };
        proof {
            reveal(message_key);
        }
        let mut place: usize = out.len();
        while place > 0 && keys[place - 1] > key
            invariant
                0 <= place <= out@.len(),
                keys@.len() == out@.len(),
                key == message_key(m),
                forall|j: int| 0 <= j < out@.len() ==> keys@[j] == message_key(#[trigger] out@[j]),
                forall|j: int| place <= j < out@.len() ==> message_key(#[trigger] out@[j]) > key,
            ensures
                0 <= place <= out@.len(),
                forall|j: int| place <= j < out@.len() ==> message_key(#[trigger] out@[j]) > key,
                place > 0 ==> keys@[place - 1] <= key,
            decreases place,
        {
            place -= 1;
        }
        proof {
            if place > 0 {
                assert(message_key(out@[place - 1]) <= key);
            }
            lemma_insert_place(out@, m, place as int);
            assert(all.take(it.index() + 1).drop_last() =~= all.take(it.index()));
        }
        out.insert(place, m);
        keys.insert(place, key);
    }
    proof {
        assert(all.take(all.len() as int) =~= all);
    }
    out
}

/// One millisecond before a point in time, and no further than numbers reach.
pub open spec fn just_before(t: int) -> int {
    if t == i64::MIN {
        t
    } else {
        t - 1
    }
}

/// One millisecond before a point in time.
pub fn millisecond_before(t: i64) -> (r: i64)
    ensures
        r == just_before(t as int),
{
    if t == i64::MIN {
        t
    } else {
        t - 1
    }
}

/// One millisecond before an optional point in time.
pub open spec fn opt_just_before(t: Option<int>) -> Option<int> {
    match t {
        Some(v) => Some(just_before(v)),
        None => None,
    }
}

/// An optional number, as it is stored.
pub fn opt_i64(v: Option<i64>) -> (r: Option<i64>)
    ensures
        r == v,
{
    v
}

/// An optional truth value, as it is stored.
pub open spec fn flag_number(v: Option<bool>) -> int {
    if v == Some(true) {
        1
    } else {
        0
    }
}

/// An optional truth value, as it is stored: 1 where it is true.
pub fn bool_i64(v: Option<bool>) -> (r: i64)
    ensures
        r == flag_number(v),
{
    match v {
        Some(b) => if b {
            1
        } else {
            0
        },
        None => 0,
    }
}

/// The names of those users that have one.
pub open spec fn user_names(users: Seq<JsonView>) -> Seq<Text>
    decreases users.len(),
{
    if users.len() == 0 {
        Seq::empty()
    } else {
        let before = user_names(users.drop_last());
        match str_field(users.last(), "name"@) {
            Some(name) => before.push(name),
            None => before,
        }
    }
}

/// The names of those users that have one, with commas between them.
pub fn participant_names(users: &[JsonValue]) -> (r: String)
    ensures
        r@ == join(user_names(views(users@)), ", "@),
{
    let ghost all = views(users@);
    let mut names: Vec<String> = Vec::new();
    let mut i: usize = 0;
    proof {
        assert(all.take(0) =~= Seq::<JsonView>::empty());
        assert(texts(names@) =~= user_names(all.take(0)));
    }
    while i < users.len()
        invariant
            0 <= i <= users@.len(),
            all == views(users@),
            texts(names@) == user_names(all.take(i as int)),
        decreases users@.len() - i,
    {
        proof {
            assert(all.take(i + 1).drop_last() =~= all.take(i as int));
            assert(all.take(i + 1).last() == users@[i as int]@);
        }
        match users[i].get_str("name") {
            Some(name) => {
                let name = name.to_owned();
                proof {
                    lemma_texts_push(names@, name);
                }
                names.push(name);
            },
            None => {},
        }
        i += 1;
    }
    proof {
        assert(all.take(all.len() as int) =~= all);
    }
    join_all(&names, ", ")
}

/// A thread as it is stored.
#[derive(Debug)]
pub struct StoredThread {
    pub thread_id: String,
    pub name: String,
    pub participant_ids: String,
    pub participant_names: String,
    pub user_info: String,
    pub unread_count: Option<i64>,
    pub message_count: Option<i64>,
    pub updated_at: Option<i64>,
    pub is_group: i64,
    pub is_archived: i64,
    pub folder: String,
    pub snippet: String,
}

/// The columns of a stored thread are those of the record: absent texts are empty, lists are JSON
/// texts.
pub open spec fn stores_thread(s: StoredThread, t: ThreadRecord) -> bool {
    &&& s.thread_id@ == t.thread_id@
    &&& s.name@ == text_or_empty(opt_text(t.thread_name))
    &&& s.participant_ids@ == json_encoding(normal(json_texts(texts(t.participant_ids@))))
    &&& s.participant_names@ == join(user_names(views(t.user_info@)), ", "@)
    &&& s.user_info@ == json_encoding(normal(JsonView::Array(views(t.user_info@))))
    &&& s.unread_count == t.unread_count
    &&& s.message_count == t.message_count
    &&& opt_int(s.updated_at) == thread_time(t)
    &&& s.is_group == flag_number(t.is_group)
    &&& s.is_archived == flag_number(t.is_archived)
    &&& s.folder@ == text_or_empty(opt_text(t.folder))
    &&& s.snippet@ == text_or_empty(opt_text(t.snippet))
}

/// The compact JSON text of an array.
fn array_text(items: &[JsonValue]) -> (r: String)
    ensures
        r@ == json_encoding(normal(JsonView::Array(views(items@)))),
{
    let ghost all = views(items@);
    let mut out: Vec<JsonValue> = Vec::new();
    let mut i: usize = 0;
    while i < items.len()
        invariant
            0 <= i <= items@.len(),
            all == views(items@),
            views(out@) == all.take(i as int),
        decreases items@.len() - i,
    {
        let item = items[i].clone();
        proof {
            assert(views(out@.push(item)) =~= views(out@).push(item@));
            assert(all.take(i + 1) =~= all.take(i as int).push(items@[i as int]@));
        }
        out.push(item);
        i += 1;
    }
    proof {
        assert(all.take(all.len() as int) =~= all);
        lemma_array_view(out);
    }
    json_text(&JsonValue::Array(out))
}

/// A thread as it is stored. The participants can be counted in what is stored of them.
pub fn stored_thread(t: &ThreadRecord) -> (r: StoredThread)
    ensures
        stores_thread(r, *t),
        r.thread_id@ == t.thread_id@,
        t.thread_name matches Some(name) ==> r.name@ == name@,
        t.folder matches Some(folder) ==> r.folder@ == folder@,
        t.snippet matches Some(snippet) ==> r.snippet@ == snippet@,
        r.message_count == t.message_count,
        string_count(parsed_value(r.participant_ids@)) == t.participant_ids@.len(),
{
    proof {
        let ids = json_texts(texts(t.participant_ids@));
        assert(is_string_list(ids));
        assert(ids->Array_0.len() == t.participant_ids@.len());
    }
    StoredThread {
        thread_id: t.thread_id.clone(),
        name: or_empty(&t.thread_name),
        participant_ids: json_text(&JsonValue::text_list(&t.participant_ids)),
        participant_names: participant_names(&t.user_info),
        user_info: array_text(&t.user_info),
        unread_count: opt_i64(t.unread_count),
        message_count: opt_i64(t.message_count),
        updated_at: record_time(&t.timestamp),
        is_group: bool_i64(t.is_group),
        is_archived: bool_i64(t.is_archived),
        folder: or_empty(&t.folder),
        snippet: or_empty(&t.snippet),
    }
}

/// A message as it is stored.
#[derive(Debug)]
pub struct StoredMessage {
    pub message_id: String,
    pub thread_id: String,
    pub sender_id: String,
    pub body: String,
    pub timestamp: Option<i64>,
    pub attachments: String,
    pub mentions: String,
    pub reactions: String,
    pub kind: String,
    pub is_unread: i64,
}

/// The columns of a stored message are those of the record: absent texts are empty, an absent kind
/// is `message`, lists are JSON texts.
pub open spec fn stores_message(s: StoredMessage, m: MessageRecord) -> bool {
    &&& s.message_id@ == m.message_id@
    &&& s.thread_id@ == m.thread_id@
    &&& s.sender_id@ == text_or_empty(opt_text(m.sender_id))
    &&& s.body@ == text_or_empty(opt_text(m.body))
    &&& opt_int(s.timestamp) == message_time(m)
    &&& s.attachments@ == json_encoding(normal(JsonView::Array(views(m.attachments@))))
    &&& s.mentions@ == json_encoding(normal(m.mentions@))
    &&& s.reactions@ == json_encoding(normal(JsonView::Array(views(m.reactions@))))
    &&& s.kind@ == (match m.kind {
        Some(kind) => kind@,
        None => "message"@,
    })
    &&& s.is_unread == flag_number(m.is_unread)
}

/// A message as it is stored.
pub fn stored_message(m: &MessageRecord) -> (r: StoredMessage)
    ensures
        stores_message(r, *m),
        r.message_id@ == m.message_id@,
        r.thread_id@ == m.thread_id@,
        m.body matches Some(b) ==> r.body@ == b@,
        m.sender_id matches Some(sender) ==> r.sender_id@ == sender@,
        m.kind matches Some(kind) ==> r.kind@ == kind@,
{
    StoredMessage {
        message_id: m.message_id.clone(),
        thread_id: m.thread_id.clone(),
        sender_id: or_empty(&m.sender_id),
        body: or_empty(&m.body),
        timestamp: record_time(&m.timestamp),
        attachments: array_text(&m.attachments),
        mentions: json_text(&m.mentions),
        reactions: array_text(&m.reactions),
        kind: match &m.kind {
            Some(kind) => kind.clone(),
            None => "message".to_owned(),
        },
        is_unread: bool_i64(m.is_unread),
    }
}

/// A message survives storing: each column holds what the record says, and nothing stands for what
/// the record does not say, except the kind of a message that names none.
pub proof fn law_message_survives_storing(s: StoredMessage, m: MessageRecord)
    requires
        stores_message(s, m),
    ensures
        s.message_id@ == m.message_id@,
        s.thread_id@ == m.thread_id@,
        m.body matches Some(b) ==> s.body@ == b@,
        m.body is None ==> s.body@.len() == 0,
        m.sender_id matches Some(sender) ==> s.sender_id@ == sender@,
        m.sender_id is None ==> s.sender_id@.len() == 0,
        m.kind matches Some(kind) ==> s.kind@ == kind@,
        m.kind is None ==> s.kind@ == "message"@,
        m.timestamp matches Some(t) ==> opt_int(s.timestamp) == ts_millis(t@),
        m.timestamp is None ==> s.timestamp is None,
        s.is_unread == 0 || s.is_unread == 1,
        s.is_unread == 1 <==> m.is_unread == Some(true),
        s.attachments@ == json_encoding(normal(JsonView::Array(views(m.attachments@)))),
        s.reactions@ == json_encoding(normal(JsonView::Array(views(m.reactions@)))),
        s.mentions@ == json_encoding(normal(m.mentions@)),
{
}

/// Two messages are stored alike in a column only where they say the same there.
pub proof fn law_stored_messages_differ_as_the_messages_do(
    a: MessageRecord,
    b: MessageRecord,
    stored_a: StoredMessage,
    stored_b: StoredMessage,
)
    requires
        stores_message(stored_a, a),
        stores_message(stored_b, b),
    ensures
        stored_a.message_id@ == stored_b.message_id@ <==> a.message_id@ == b.message_id@,
        stored_a.thread_id@ == stored_b.thread_id@ <==> a.thread_id@ == b.thread_id@,
        a.body is Some && b.body is Some ==> (stored_a.body@ == stored_b.body@ <==> a.body->0@
            == b.body->0@),
        a.sender_id is Some && b.sender_id is Some ==> (stored_a.sender_id@ == stored_b.sender_id@
            <==> a.sender_id->0@ == b.sender_id->0@),
        a.kind is Some && b.kind is Some ==> (stored_a.kind@ == stored_b.kind@ <==> a.kind->0@
            == b.kind->0@),
{
}

/// A thread survives storing: each column holds what the record says, and nothing stands for what
/// the record does not say.
pub proof fn law_thread_survives_storing(s: StoredThread, t: ThreadRecord)
    requires
        stores_thread(s, t),
    ensures
        s.thread_id@ == t.thread_id@,
        t.thread_name matches Some(name) ==> s.name@ == name@,
        t.thread_name is None ==> s.name@.len() == 0,
        t.folder matches Some(folder) ==> s.folder@ == folder@,
        t.folder is None ==> s.folder@.len() == 0,
        t.snippet matches Some(snippet) ==> s.snippet@ == snippet@,
        t.snippet is None ==> s.snippet@.len() == 0,
        s.unread_count == t.unread_count,
        s.message_count == t.message_count,
        t.timestamp matches Some(at) ==> opt_int(s.updated_at) == ts_millis(at@),
        t.timestamp is None ==> s.updated_at is None,
        s.is_group == 0 || s.is_group == 1,
        s.is_group == 1 <==> t.is_group == Some(true),
        s.is_archived == 0 || s.is_archived == 1,
        s.is_archived == 1 <==> t.is_archived == Some(true),
        s.participant_ids@ == json_encoding(
            normal(
                JsonView::Array(texts(t.participant_ids@).map_values(|x: Text| JsonView::String(x))),
            ),
        ),
        s.user_info@ == json_encoding(normal(JsonView::Array(views(t.user_info@)))),
        s.participant_names@ == join(user_names(views(t.user_info@)), ", "@),
{
}

/// The names of users are gathered user by user, in their order: a user gives the string in the
/// field `name`, and one that has none gives nothing.
pub proof fn law_names_are_gathered_in_order(a: Seq<JsonView>, b: Seq<JsonView>, user: JsonView)
    ensures
        user_names(a + b) == user_names(a) + user_names(b),
        json_get(user, "name"@) matches Some(JsonView::String(name)) ==> user_names(seq![user])
            == seq![name],
        !(json_get(user, "name"@) matches Some(JsonView::String(_))) ==> user_names(seq![user])
            == Seq::<Text>::empty(),
    decreases b.len(),
{
    if b.len() == 0 {
        assert(a + b =~= a);
        assert(user_names(a) + user_names(b) =~= user_names(a));
    } else {
        law_names_are_gathered_in_order(a, b.drop_last(), user);
        assert((a + b).drop_last() =~= a + b.drop_last());
        assert((a + b).last() == b.last());
        assert(user_names(a + b) =~= user_names(a) + user_names(b));
    }
    let none = Seq::<JsonView>::empty();
    assert(seq![user].drop_last() =~= none);
    assert(user_names(none) =~= Seq::<Text>::empty());
    assert(seq![user].last() == user);
    assert(user_names(seq![user]) =~= (match json_get(user, "name"@) {
        Some(JsonView::String(name)) => seq![name],
        _ => Seq::<Text>::empty(),
    }));
}

/// Messages are ordered by the point in time that their text stands for; one without a time counts
/// as sent in 1970.
pub proof fn law_messages_are_ordered_by_their_times(m: MessageRecord)
    ensures
        m.timestamp matches Some(t) ==> (ts_millis(t@) matches Some(at) ==> message_key(m) == at),
        m.timestamp matches Some(t) ==> (ts_millis(t@) is None ==> message_key(m) == 0),
        m.timestamp is None ==> message_key(m) == 0,
{
    reveal(message_key);
}

/// The time that a record is known by is the one that its text stands for.
pub proof fn law_records_have_their_times(m: MessageRecord, t: ThreadRecord)
    ensures
        message_time(m) == (match m.timestamp {
            Some(s) => ts_millis(s@),
            None => None,
        }),
        thread_time(t) == (match t.timestamp {
            Some(s) => ts_millis(s@),
            None => None,
        }),
{
}

/// One millisecond before a point in time is the last point before it: what is earlier than the one
/// is no later than the other. The first point of all has none before it.
pub proof fn law_nothing_lies_between_a_time_and_the_one_before(t: i64, other: i64)
    ensures
        t > i64::MIN ==> (other < t <==> other <= just_before(t as int)),
        just_before(i64::MIN as int) == i64::MIN,
        i64::MIN <= just_before(t as int) <= t,
        opt_just_before(Some(t as int)) == Some(just_before(t as int)),
        opt_just_before(None) is None,
{
}

} // verus!
