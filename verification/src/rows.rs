//! Looking into the archive: the queries, and the rows that are shown for what they find.
use vstd::prelude::*;

use crate::cli::{MessagesArgs, SearchArgs, ThreadsArgs};
use crate::json::{parsed_value, string_count, string_list_len};
use crate::number::{i64_text, int_text, opt_int};
use crate::parts::{join, join_all};
use crate::text::{
    chars_of, contains_text, joined3, lemma_end_is_found, lemma_found_stays, lemma_part_is_found,
    lemma_texts_push, opt_text, or_empty, text_of, text_or_empty, texts, Text,
};
use crate::time::{fmt_ts, stamp};

verus! {

/// The text, cut off with an ellipsis behind `max` characters where it is longer.
pub open spec fn shortened(s: Text, max: int) -> Text {
    if s.len() <= max {
        s
    } else {
        s.take(max).push('\u{2026}')
    }
}

/// The text, cut off with an ellipsis behind `max` characters where it is longer.
pub fn truncate(s: &str, max: usize) -> (r: String)
    ensures
        r@ == shortened(s@, max as int),
{
    let chars = chars_of(s);
    if chars.len() <= max {
        s.to_owned()
    } else {
        let mut out = text_of(&chars, 0, max);
        out.push('\u{2026}');
        proof {
            assert(s@.subrange(0, max as int) =~= s@.take(max as int));
        }
        out
    }
}

/// A cut text is no longer than the limit and the ellipsis, and begins like the whole.
pub proof fn law_shortened_is_short(s: Text, max: int)
    requires
        0 <= max,
    ensures
        shortened(s, max).len() <= max + 1,
        s.len() <= max ==> shortened(s, max) == s,
        s.len() > max ==> shortened(s, max).drop_last() == s.take(max),
        s.len() > max ==> shortened(s, max).last() == '\u{2026}',
{
    if s.len() > max {
        assert(shortened(s, max).drop_last() =~= s.take(max));
    }
}

/// A limit, as it is handed to the database.
pub fn limit_number(limit: usize) -> (r: i64)
    ensures
        r == #[verifier::truncate] (limit as i64),
        limit <= i64::MAX ==> r == limit,
{
    #[verifier::truncate] (limit as i64)
}

/// The conditions on the threads that are shown.
pub open spec fn thread_conditions(archived: bool, searched: bool) -> Seq<Text> {
    let shown = if archived {
        Seq::<Text>::empty()
    } else {
        seq!["is_archived = 0"@]
    };
    if searched {
        shown.push(
            "(thread_id LIKE ?1 OR name LIKE ?1 OR participant_names LIKE ?1 OR snippet LIKE ?1)"@,
        )
    } else {
        shown
    }
}

/// The query for threads.
pub open spec fn threads_sql(archived: bool, searched: bool) -> Text {
    let conditions = thread_conditions(archived, searched);
    "SELECT thread_id, name, participant_ids, message_count, unread_count, updated_at, snippet FROM threads"@
        + (if conditions.len() > 0 {
        " WHERE "@ + join(conditions, " AND "@)
    } else {
        Seq::empty()
    }) + " ORDER BY COALESCE(updated_at, 0) DESC LIMIT ?2"@
}

/// The query for threads.
pub fn threads_query(args: &ThreadsArgs) -> (r: String)
    ensures
        r@ == threads_sql(args@.archived, args@.query is Some),
{
    let mut conditions: Vec<String> = Vec::new();
    proof {
        assert(texts(conditions@) =~= Seq::<Text>::empty());
    }
    if !args.archived {
        let condition = "is_archived = 0".to_owned();
        proof {
            lemma_texts_push(conditions@, condition);
            assert(Seq::<Text>::empty().push("is_archived = 0"@) =~= seq!["is_archived = 0"@]);
        }
        conditions.push(condition);
    }
    if args.query.is_some() {
        let condition =
            "(thread_id LIKE ?1 OR name LIKE ?1 OR participant_names LIKE ?1 OR snippet LIKE ?1)".to_owned();
        proof {
            lemma_texts_push(conditions@, condition);
        }
        conditions.push(condition);
    }
    proof {
        assert(texts(conditions@) == thread_conditions(args@.archived, args@.query is Some));
        assert(texts(conditions@).len() == conditions@.len());
    }
    let mut sql =
        "SELECT thread_id, name, participant_ids, message_count, unread_count, updated_at, snippet FROM threads".to_owned();
    if conditions.len() > 0 {
        sql.append(" WHERE ");
        sql.append(join_all(&conditions, " AND ").as_str());
    }
    sql.append(" ORDER BY COALESCE(updated_at, 0) DESC LIMIT ?2");
    proof {
        assert(sql@ =~= threads_sql(args@.archived, args@.query is Some));
    }
    sql
}

/// The pattern that is looked for among the threads: the words anywhere, or anything.
pub open spec fn pattern_of(query: Option<Text>) -> Text {
    match query {
        Some(q) => "%"@ + q + "%"@,
        None => "%"@,
    }
}

/// The pattern that is looked for among the threads.
pub fn like_pattern(query: &Option<String>) -> (r: String)
    ensures
        r@ == pattern_of(opt_text(*query)),
{
    match query {
        Some(q) => joined3("%", q.as_str(), "%"),
        None => "%".to_owned(),
    }
}

/// The query for the messages of a thread.
pub open spec fn messages_sql(newest: bool) -> Text {
    "SELECT timestamp, sender_id, body, message_id FROM messages WHERE thread_id = ?1 ORDER BY COALESCE(timestamp, 0) "@
        + (if newest {
        "DESC"@
    } else {
        "ASC"@
    }) + " LIMIT ?2"@
}

/// The messages are those of the thread, from the latest on where the newest are wanted, and else
/// from the earliest on.
pub proof fn law_messages_come_in_the_wanted_order()
    ensures
        contains_text(messages_sql(true), " WHERE thread_id = ?1 "@),
        contains_text(messages_sql(false), " WHERE thread_id = ?1 "@),
        contains_text(messages_sql(true), " ORDER BY COALESCE(timestamp, 0) DESC LIMIT ?2"@),
        contains_text(messages_sql(false), " ORDER BY COALESCE(timestamp, 0) ASC LIMIT ?2"@),
{
    lemma_messages_sql("DESC"@);
    lemma_messages_sql("ASC"@);
    reveal_strlit(" ORDER BY COALESCE(timestamp, 0) DESC LIMIT ?2");
    reveal_strlit(" ORDER BY COALESCE(timestamp, 0) ASC LIMIT ?2");
    reveal_strlit(" ORDER BY COALESCE(timestamp, 0) ");
    reveal_strlit("DESC");
    reveal_strlit("ASC");
    reveal_strlit(" LIMIT ?2");
    assert(" ORDER BY COALESCE(timestamp, 0) "@ + "DESC"@ + " LIMIT ?2"@
        =~= " ORDER BY COALESCE(timestamp, 0) DESC LIMIT ?2"@);
    assert(" ORDER BY COALESCE(timestamp, 0) "@ + "ASC"@ + " LIMIT ?2"@
        =~= " ORDER BY COALESCE(timestamp, 0) ASC LIMIT ?2"@);
}

proof fn lemma_messages_sql(order: Text)
    ensures
        ({
            let sql =
                "SELECT timestamp, sender_id, body, message_id FROM messages WHERE thread_id = ?1 ORDER BY COALESCE(timestamp, 0) "@
                + order + " LIMIT ?2"@;
            &&& contains_text(sql, " WHERE thread_id = ?1 "@)
            &&& contains_text(sql, " ORDER BY COALESCE(timestamp, 0) "@ + order + " LIMIT ?2"@)
        }),
{
    let head =
        "SELECT timestamp, sender_id, body, message_id FROM messages WHERE thread_id = ?1 ORDER BY COALESCE(timestamp, 0) "@;
    let start = "SELECT timestamp, sender_id, body, message_id FROM messages"@;
    let condition = " WHERE thread_id = ?1 "@;
    let sorted = "ORDER BY COALESCE(timestamp, 0) "@;
    let before =
        "SELECT timestamp, sender_id, body, message_id FROM messages WHERE thread_id = ?1"@;
    let wanted = " ORDER BY COALESCE(timestamp, 0) "@;
    reveal_strlit(
        "SELECT timestamp, sender_id, body, message_id FROM messages WHERE thread_id = ?1 ORDER BY COALESCE(timestamp, 0) ",
    );
    reveal_strlit("SELECT timestamp, sender_id, body, message_id FROM messages");
    reveal_strlit(" WHERE thread_id = ?1 ");
    reveal_strlit("ORDER BY COALESCE(timestamp, 0) ");
    reveal_strlit(
        "SELECT timestamp, sender_id, body, message_id FROM messages WHERE thread_id = ?1",
    );
    reveal_strlit(" ORDER BY COALESCE(timestamp, 0) ");
    assert(head =~= start + condition + sorted);
    lemma_part_is_found(start, condition, sorted);
    lemma_found_stays(head, condition, order);
    lemma_found_stays(head + order, condition, " LIMIT ?2"@);
    assert(head =~= before + wanted);
    let p = wanted + order + " LIMIT ?2"@;
    assert(head + order + " LIMIT ?2"@ =~= before + p);
    lemma_end_is_found(before, p);
}

/// The query for the messages of a thread.
pub fn messages_query(args: &MessagesArgs) -> (r: String)
    ensures
        r@ == messages_sql(args@.newest),
        r@
            == "SELECT timestamp, sender_id, body, message_id FROM messages WHERE thread_id = ?1 ORDER BY COALESCE(timestamp, 0) "@
            + (if args@.newest {
            "DESC"@
        } else {
            "ASC"@
        }) + " LIMIT ?2"@,
{
    let order = if args.newest {
        "DESC"
    } else {
        "ASC"
    };
    joined3(
        "SELECT timestamp, sender_id, body, message_id FROM messages WHERE thread_id = ?1 ORDER BY COALESCE(timestamp, 0) ",
        order,
        " LIMIT ?2",
    )
}

/// The query for the messages that hold some words.
pub open spec fn search_sql(in_thread: bool) -> Text {
    "SELECT rank, timestamp, thread_id, sender_id, body FROM message_fts WHERE message_fts MATCH ?1"@
        + (if in_thread {
        " AND thread_id = ?2 LIMIT ?3"@
    } else {
        " LIMIT ?2"@
    })
}

/// The words are looked for in all messages, or in those of one thread where it is named.
pub proof fn law_search_keeps_to_the_thread()
    ensures
        contains_text(search_sql(true), " WHERE message_fts MATCH ?1 AND thread_id = ?2 LIMIT ?3"@),
        contains_text(search_sql(false), " WHERE message_fts MATCH ?1 LIMIT ?2"@),
{
    let start = "SELECT rank, timestamp, thread_id, sender_id, body FROM message_fts"@;
    let matching = " WHERE message_fts MATCH ?1"@;
    reveal_strlit(
        "SELECT rank, timestamp, thread_id, sender_id, body FROM message_fts WHERE message_fts MATCH ?1",
    );
    reveal_strlit("SELECT rank, timestamp, thread_id, sender_id, body FROM message_fts");
    reveal_strlit(" WHERE message_fts MATCH ?1");
    reveal_strlit(" AND thread_id = ?2 LIMIT ?3");
    reveal_strlit(" LIMIT ?2");
    reveal_strlit(" WHERE message_fts MATCH ?1 AND thread_id = ?2 LIMIT ?3");
    reveal_strlit(" WHERE message_fts MATCH ?1 LIMIT ?2");
    let one = " WHERE message_fts MATCH ?1 AND thread_id = ?2 LIMIT ?3"@;
    let all = " WHERE message_fts MATCH ?1 LIMIT ?2"@;
    assert(one =~= matching + " AND thread_id = ?2 LIMIT ?3"@);
    assert(all =~= matching + " LIMIT ?2"@);
    assert(search_sql(true) =~= start + one);
    assert(search_sql(false) =~= start + all);
    lemma_end_is_found(start, one);
    lemma_end_is_found(start, all);
}

/// The query for the messages that hold some words.
pub fn search_query(args: &SearchArgs) -> (r: String)
    ensures
        r@ == search_sql(args@.thread_id is Some),
        r@
            == "SELECT rank, timestamp, thread_id, sender_id, body FROM message_fts WHERE message_fts MATCH ?1"@
            + (if args@.thread_id is Some {
            " AND thread_id = ?2 LIMIT ?3"@
        } else {
            " LIMIT ?2"@
        }),
{
    let mut sql =
        "SELECT rank, timestamp, thread_id, sender_id, body FROM message_fts WHERE message_fts MATCH ?1".to_owned();
    if args.thread_id.is_some() {
        sql.append(" AND thread_id = ?2 LIMIT ?3");
    } else {
        sql.append(" LIMIT ?2");
    }
    sql
}

/// A thread as it is shown.
#[derive(Debug)]
pub struct ThreadRow {
    pub thread_id: String,
    pub name: String,
    pub participants: usize,
    pub messages: String,
    pub unread: String,
    pub updated: String,
    pub snippet: String,
}

/// What the archive holds of a thread that is shown.
#[derive(Debug)]
pub struct ThreadEntry {
    pub thread_id: String,
    pub name: Option<String>,
    /// The identifiers of the participants, as a JSON text.
    pub participant_ids: String,
    pub message_count: Option<i64>,
    pub unread_count: Option<i64>,
    pub updated_at: Option<i64>,
    pub snippet: Option<String>,
}

/// The decimal text of an optional number, nothing where there is none.
pub open spec fn number_or_empty(n: Option<int>) -> Text {
    match n {
        Some(v) => int_text(v),
        None => Seq::empty(),
    }
}

/// The time as it is shown, nothing where there is none.
pub open spec fn time_or_empty(t: Option<int>) -> Text {
    match t {
        Some(v) => stamp(v),
        None => Seq::empty(),
    }
}

fn opt_number_text(n: Option<i64>) -> (r: String)
    ensures
        r@ == number_or_empty(opt_int(n)),
{
    match n {
        Some(v) => i64_text(v),
        None => String::new(),
    }
}

/// The row shows what is stored, with a number of participants.
pub open spec fn shows_thread(row: ThreadRow, e: ThreadEntry, participants: int) -> bool {
    &&& row.thread_id@ == e.thread_id@
    &&& row.name@ == text_or_empty(opt_text(e.name))
    &&& row.participants == participants
    &&& row.messages@ == number_or_empty(opt_int(e.message_count))
    &&& row.unread@ == number_or_empty(opt_int(e.unread_count))
    &&& row.updated@ == time_or_empty(opt_int(e.updated_at))
    &&& row.snippet@ == shortened(text_or_empty(opt_text(e.snippet)), 80)
}

/// A thread as it is shown, given the number of its participants.
pub fn thread_row_of(e: &ThreadEntry, participants: usize) -> (r: ThreadRow)
    ensures
        shows_thread(r, *e, participants as int),
{
    ThreadRow {
        thread_id: e.thread_id.clone(),
        name: or_empty(&e.name),
        participants,
        messages: opt_number_text(e.message_count),
        unread: opt_number_text(e.unread_count),
        updated: fmt_ts(e.updated_at),
        snippet: truncate(or_empty(&e.snippet).as_str(), 80),
    }
}

/// A thread as it is shown.
pub fn thread_row(e: &ThreadEntry) -> (r: ThreadRow)
    ensures
        shows_thread(r, *e, string_count(parsed_value(e.participant_ids@))),
{
    thread_row_of(e, string_list_len(e.participant_ids.as_str()))
}

/// A message as it is shown.
#[derive(Debug)]
pub struct MessageRow {
    pub time: String,
    pub sender: String,
    pub body: String,
    pub message_id: String,
}

/// The row shows a message.
pub open spec fn shows_message(
    row: MessageRow,
    timestamp: Option<int>,
    sender: Option<Text>,
    body: Option<Text>,
    message_id: Text,
) -> bool {
    &&& row.time@ == time_or_empty(timestamp)
    &&& row.sender@ == text_or_empty(sender)
    &&& row.body@ == shortened(text_or_empty(body), 140)
    &&& row.message_id@ == message_id
}

/// A message is shown with its own time, sender, text and identifier; only the text is cut where it
/// is longer than 140 characters, and what is not there is left empty.
pub proof fn law_message_is_shown_as_it_is(
    row: MessageRow,
    timestamp: Option<int>,
    sender: Option<Text>,
    body: Option<Text>,
    message_id: Text,
)
    requires
        shows_message(row, timestamp, sender, body, message_id),
    ensures
        row.message_id@ == message_id,
        sender matches Some(s) ==> row.sender@ == s,
        sender is None ==> row.sender@.len() == 0,
        body matches Some(b) ==> (b.len() <= 140 ==> row.body@ == b),
        body matches Some(b) ==> (b.len() > 140 ==> row.body@.drop_last() == b.take(140)
            && row.body@.last() == '\u{2026}'),
        body is None ==> row.body@.len() == 0,
        timestamp matches Some(t) ==> row.time@ == stamp(t),
        timestamp is None ==> row.time@.len() == 0,
{
    law_shortened_is_short(text_or_empty(body), 140);
}

/// A message as it is shown.
pub fn message_row(
    timestamp: Option<i64>,
    sender: &Option<String>,
    body: &Option<String>,
    message_id: String,
) -> (r: MessageRow)
    ensures
        shows_message(
            r,
            opt_int(timestamp),
            opt_text(*sender),
            opt_text(*body),
            message_id@,
        ),
        r.time@ == time_or_empty(opt_int(timestamp)),
        r.sender@ == text_or_empty(opt_text(*sender)),
        r.body@ == shortened(text_or_empty(opt_text(*body)), 140),
        r.message_id@ == message_id@,
{
    MessageRow {
        time: fmt_ts(timestamp),
        sender: or_empty(sender),
        body: truncate(or_empty(body).as_str(), 140),
        message_id,
    }
}

/// A message that was found, as it is shown.
#[derive(Debug)]
pub struct SearchRow {
    pub score: String,
    pub time: String,
    pub thread_id: String,
    pub sender: String,
    pub body: String,
}

/// The row shows a message that was found.
pub open spec fn shows_found(
    row: SearchRow,
    score: Text,
    timestamp: Option<int>,
    thread_id: Option<Text>,
    sender: Option<Text>,
    body: Option<Text>,
) -> bool {
    &&& row.score@ == score
    &&& row.time@ == time_or_empty(timestamp)
    &&& row.thread_id@ == text_or_empty(thread_id)
    &&& row.sender@ == text_or_empty(sender)
    &&& row.body@ == shortened(text_or_empty(body), 180)
}

/// A message that was found is shown with its own score, time, thread, sender and text; only the
/// text is cut where it is longer than 180 characters, and what is not there is left empty.
pub proof fn law_found_message_is_shown_as_it_is(
    row: SearchRow,
    score: Text,
    timestamp: Option<int>,
    thread_id: Option<Text>,
    sender: Option<Text>,
    body: Option<Text>,
)
    requires
        shows_found(row, score, timestamp, thread_id, sender, body),
    ensures
        row.score@ == score,
        thread_id matches Some(id) ==> row.thread_id@ == id,
        thread_id is None ==> row.thread_id@.len() == 0,
        sender matches Some(s) ==> row.sender@ == s,
        sender is None ==> row.sender@.len() == 0,
        body matches Some(b) ==> (b.len() <= 180 ==> row.body@ == b),
        body matches Some(b) ==> (b.len() > 180 ==> row.body@.drop_last() == b.take(180)
            && row.body@.last() == '\u{2026}'),
        body is None ==> row.body@.len() == 0,
        timestamp matches Some(t) ==> row.time@ == stamp(t),
        timestamp is None ==> row.time@.len() == 0,
{
    law_shortened_is_short(text_or_empty(body), 180);
}

/// A message that was found, as it is shown.
pub fn search_row(
    score: String,
    timestamp: Option<i64>,
    thread_id: &Option<String>,
    sender: &Option<String>,
    body: &Option<String>,
) -> (r: SearchRow)
    ensures
        shows_found(
            r,
            score@,
            opt_int(timestamp),
            opt_text(*thread_id),
            opt_text(*sender),
            opt_text(*body),
        ),
        r.score@ == score@,
        r.time@ == time_or_empty(opt_int(timestamp)),
        r.thread_id@ == text_or_empty(opt_text(*thread_id)),
        r.sender@ == text_or_empty(opt_text(*sender)),
        r.body@ == shortened(text_or_empty(opt_text(*body)), 180),
{
    SearchRow {
        score,
        time: fmt_ts(timestamp),
        thread_id: or_empty(thread_id),
        sender: or_empty(sender),
        body: truncate(or_empty(body).as_str(), 180),
    }
}

/// A thread is shown with what is stored of it, each under its own name; only the beginning of its
/// last message is cut, where it is longer than 80 characters, and what is not there is left empty.
pub proof fn law_thread_is_shown_as_it_is(row: ThreadRow, e: ThreadEntry, participants: int)
    requires
        shows_thread(row, e, participants),
    ensures
        row.thread_id@ == e.thread_id@,
        e.name matches Some(name) ==> row.name@ == name@,
        e.name is None ==> row.name@.len() == 0,
        row.participants == participants,
        e.message_count matches Some(n) ==> row.messages@ == int_text(n as int),
        e.message_count is None ==> row.messages@.len() == 0,
        e.unread_count matches Some(n) ==> row.unread@ == int_text(n as int),
        e.unread_count is None ==> row.unread@.len() == 0,
        e.updated_at matches Some(t) ==> row.updated@ == stamp(t as int),
        e.updated_at is None ==> row.updated@.len() == 0,
        e.snippet matches Some(s) ==> (s@.len() <= 80 ==> row.snippet@ == s@),
        e.snippet matches Some(s) ==> (s@.len() > 80 ==> row.snippet@.drop_last() == s@.take(80)
            && row.snippet@.last() == '\u{2026}'),
        e.snippet is None ==> row.snippet@.len() == 0,
{
    law_shortened_is_short(text_or_empty(opt_text(e.snippet)), 80);
}

/// Archived threads are left out unless they are wanted, and words are looked for only where there
/// are some: in the identifier, the name, the names of the participants and the last message.
pub proof fn law_threads_are_chosen_as_wanted(archived: bool, searched: bool)
    ensures
        thread_conditions(archived, searched).contains("is_archived = 0"@) <==> !archived,
        thread_conditions(archived, searched).contains(
            "(thread_id LIKE ?1 OR name LIKE ?1 OR participant_names LIKE ?1 OR snippet LIKE ?1)"@,
        ) <==> searched,
        thread_conditions(archived, searched).len() == (if archived {
            0int
        } else {
            1
        }) + (if searched {
            1int
        } else {
            0
        }),
        thread_conditions(archived, searched).len() > 0 ==> contains_text(
            threads_sql(archived, searched),
            " WHERE "@ + join(thread_conditions(archived, searched), " AND "@),
        ),
        contains_text(
            threads_sql(archived, searched),
            " ORDER BY COALESCE(updated_at, 0) DESC LIMIT ?2"@,
        ),
{
    let conditions = thread_conditions(archived, searched);
    let open = "is_archived = 0"@;
    let words =
        "(thread_id LIKE ?1 OR name LIKE ?1 OR participant_names LIKE ?1 OR snippet LIKE ?1)"@;
    reveal_strlit("is_archived = 0");
    reveal_strlit(
        "(thread_id LIKE ?1 OR name LIKE ?1 OR participant_names LIKE ?1 OR snippet LIKE ?1)",
    );
    assert(open[0] != words[0]);
    if !archived {
        assert(conditions[0] == open);
    }
    if searched {
        assert(conditions[conditions.len() - 1] == words);
    }
    let start =
        "SELECT thread_id, name, participant_ids, message_count, unread_count, updated_at, snippet FROM threads"@;
    let sorted = " ORDER BY COALESCE(updated_at, 0) DESC LIMIT ?2"@;
    if conditions.len() > 0 {
        let p = " WHERE "@ + join(conditions, " AND "@);
        lemma_part_is_found(start, p, sorted);
        lemma_end_is_found(start + p, sorted);
    } else {
        assert(start + Seq::<char>::empty() =~= start);
        lemma_end_is_found(start, sorted);
    }
}

/// The words are looked for anywhere; without words anything is found.
pub proof fn law_words_are_looked_for_anywhere(words: Text)
    ensures
        pattern_of(Some(words)).len() == words.len() + 2,
        pattern_of(Some(words))[0] == '%',
        pattern_of(Some(words)).last() == '%',
        pattern_of(Some(words)).subrange(1, (words.len() + 1) as int) == words,
        pattern_of(None) == seq!['%'],
{
    reveal_strlit("%");
    assert(pattern_of(Some(words)).subrange(1, (words.len() + 1) as int) =~= words);
    assert("%"@ =~= seq!['%']);
}

} // verus!
