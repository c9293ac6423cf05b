//! Writing conversations out.
use vstd::prelude::*;

use crate::cli::ExportFormat;
use crate::json::{
    array_field, field_views, json_get, json_pretty, json_pretty_text, json_str, lemma_array_view,
    lemma_field_at, lemma_object_view, named_field, normal, number_of, str_field, views, Fields, JsonValue, JsonView,
};
use crate::rows::time_or_empty;
use crate::text::{
    contains_text, joined2, lemma_end_is_found, lemma_found_behind, lemma_found_stays,
    lemma_joined_either_way, same, text_or_empty, Text,
};
use crate::time::{fmt_ts, opt_ts_millis, parse_ts_millis, stamp, ts_millis};

verus! {

/// The query for the threads to write out.
pub open spec fn export_sql(one: bool) -> Text {
    "SELECT raw_json FROM threads"@ + (if one {
        " WHERE thread_id = ?1"@
    } else {
        Seq::empty()
    }) + " ORDER BY COALESCE(updated_at, 0) DESC"@
}

/// The threads that are written out are all, or the one that is named; those changed last come
/// first.
pub proof fn law_named_thread_is_the_only_one_written()
    ensures
        export_sql(true) == "SELECT raw_json FROM threads"@ + " WHERE thread_id = ?1"@
            + " ORDER BY COALESCE(updated_at, 0) DESC"@,
        export_sql(false) == "SELECT raw_json FROM threads"@
            + " ORDER BY COALESCE(updated_at, 0) DESC"@,
{
    assert("SELECT raw_json FROM threads"@ + Seq::<char>::empty()
        =~= "SELECT raw_json FROM threads"@);
}

/// The query for the threads to write out.
pub fn export_query(thread_id: Option<&str>) -> (r: String)
    ensures
        r@ == export_sql(thread_id is Some),
        r@ == "SELECT raw_json FROM threads"@ + (if thread_id is Some {
            " WHERE thread_id = ?1"@
        } else {
            Seq::empty()
        }) + " ORDER BY COALESCE(updated_at, 0) DESC"@,
{
    let mut sql = "SELECT raw_json FROM threads".to_owned();
    if thread_id.is_some() {
        sql.append(" WHERE thread_id = ?1");
    }
    sql.append(" ORDER BY COALESCE(updated_at, 0) DESC");
    proof {
        assert(sql@ =~= "SELECT raw_json FROM threads"@ + (if thread_id is Some {
            " WHERE thread_id = ?1"@
        } else {
            Seq::empty()
        }) + " ORDER BY COALESCE(updated_at, 0) DESC"@);
    }
    sql
}

/// The identifier of a stored thread, empty where it has none.
pub open spec fn stored_id(thread: JsonView) -> Text {
    text_or_empty(str_field(thread, "threadID"@))
}

/// The messages of a thread are looked up under the identifier that the thread has.
pub proof fn law_stored_thread_keeps_its_identifier(thread: JsonView, id: Text)
    ensures
        json_get(thread, "threadID"@) == Some(JsonView::String(id)) ==> stored_id(thread) == id,
        json_get(thread, "threadID"@) is None ==> stored_id(thread).len() == 0,
{
}

/// The identifier of a stored thread, empty where it has none.
pub fn stored_thread_id(thread: &JsonValue) -> (r: String)
    ensures
        r@ == stored_id(thread@),
        r@ == text_or_empty(str_field(thread@, "threadID"@)),
{
    match thread.get_str("threadID") {
        Some(id) => id.to_owned(),
        None => String::new(),
    }
}

/// The fields with one of the given name set: in place of the first that has it, or else at the
/// end.
pub open spec fn with_field(
    fields: Seq<(Text, JsonView)>,
    name: Text,
    value: JsonView,
) -> Seq<(Text, JsonView)>
    decreases fields.len(),
{
    if fields.len() == 0 {
        seq![(name, value)]
    } else if fields[0].0 == name {
        seq![(name, value)] + fields.skip(1)
    } else {
        seq![fields[0]] + with_field(fields.skip(1), name, value)
    }
}

/// A thread with its messages. Nothing becomes an object.
pub open spec fn thread_with_messages(thread: JsonView, messages: Seq<JsonView>) -> JsonView {
    match thread {
        JsonView::Object(fields) => JsonView::Object(
            with_field(fields, "messages"@, JsonView::Array(messages)),
        ),
        _ => JsonView::Object(seq![("messages"@, JsonView::Array(messages))]),
    }
}

/// Setting a field changes that field and no other.
pub proof fn law_field_is_set(
    fields: Seq<(Text, JsonView)>,
    name: Text,
    value: JsonView,
    other: Text,
)
    ensures
        named_field(with_field(fields, name, value), name) == Some(value),
        other != name ==> named_field(with_field(fields, name, value), other) == named_field(
            fields,
            other,
        ),
    decreases fields.len(),
{
    let set = with_field(fields, name, value);
    if fields.len() == 0 {
        assert(set.skip(1) =~= Seq::<(Text, JsonView)>::empty());
        assert(named_field(set.skip(1), other) is None);
    } else if fields[0].0 == name {
        assert(set.skip(1) =~= fields.skip(1));
    } else {
        law_field_is_set(fields.skip(1), name, value, other);
        assert(set.skip(1) =~= with_field(fields.skip(1), name, value));
    }
}

/// What is written out of a thread holds its messages.
pub proof fn law_messages_are_attached(thread: JsonView, messages: Seq<JsonView>)
    requires
        thread is Object || thread is Null,
    ensures
        array_field(thread_with_messages(thread, messages), "messages"@) == Some(messages),
{
    match thread {
        JsonView::Object(fields) => {
            law_field_is_set(fields, "messages"@, JsonView::Array(messages), ""@);
        },
        _ => {},
    }
}

/// The value can take fields.
pub fn takes_fields(value: &JsonValue) -> (r: bool)
    ensures
        r == (value@ is Object || value@ is Null),
{
    match value {
        JsonValue::Object(_) => true,
        JsonValue::Null => true,
        _ => false,
    }
}

/// A thread with its messages.
pub fn attach_messages(thread: JsonValue, messages: Vec<JsonValue>) -> (r: JsonValue)
    requires
        thread@ is Object || thread@ is Null,
    ensures
        r@ == thread_with_messages(thread@, views(messages@)),
{
    let ghost value = JsonView::Array(views(messages@));
    proof {
        lemma_array_view(messages);
    }
    match thread {
        JsonValue::Object(fields) => {
            let ghost all = field_views(fields@);
            let mut out: Vec<(String, JsonValue)> = Vec::new();
            proof {
                lemma_object_view(fields);
                assert(field_views(out@) + with_field(all.skip(0), "messages"@, value)
                    =~= with_field(all.skip(0), "messages"@, value));
                assert(all.skip(0) =~= all);
            }
            let mut set = false;
            let mut pending: Option<Vec<JsonValue>> = Some(messages);
            for field in it: fields
                invariant
                    it.seq() == fields@,
                    all == field_views(fields@),
                    pending is Some <==> !set,
                    !set ==> JsonValue::Array(pending->0)@ == value,
                    !set ==> with_field(all, "messages"@, value) == field_views(out@)
                        + with_field(all.skip(it.index()), "messages"@, value),
                    set ==> with_field(all, "messages"@, value) == field_views(out@) + all.skip(
                        it.index(),
                    ),
            {
                let ghost k = it.index();
                let ghost before = field_views(out@);
                proof {
                    assert(all[k] == (field.0@, field.1@));
                    assert(all.skip(k)[0] == all[k]);
                    assert(all.skip(k).skip(1) =~= all.skip(k + 1));
                    assert(all.skip(k) =~= seq![all[k]] + all.skip(k + 1));
                }
                let (name, inner) = field;
                let item = match pending {
                    Some(list) => {
                        if same(name.as_str(), "messages") {
                            pending = None;
                            set = true;
                            (name, JsonValue::Array(list))
                        } else {
                            pending = Some(list);
                            (name, inner)
                        }
                    },
                    None => {
                        pending = None;
                        (name, inner)
                    },
                };
                proof {
                    assert(field_views(out@.push(item)) =~= before.push((item.0@, item.1@)));
                }
                out.push(item);
                proof {
                    if set {
                        assert(field_views(out@) + all.skip(k + 1) =~= before + (seq![
                            (item.0@, item.1@),
                        ] + all.skip(k + 1)));
                    } else {
                        assert(field_views(out@) + with_field(all.skip(k + 1), "messages"@, value)
                            =~= before + (seq![all[k]] + with_field(
                            all.skip(k + 1),
                            "messages"@,
                            value,
                        )));
                    }
                }
            }
            proof {
                assert(all.skip(all.len() as int) =~= Seq::<(Text, JsonView)>::empty());
            }
            match pending {
                Some(list) => {
                    let item = ("messages".to_owned(), JsonValue::Array(list));
                    proof {
                        assert(field_views(out@.push(item)) =~= field_views(out@).push(
                            ("messages"@, value),
                        ));
                        assert(field_views(out@) + seq![("messages"@, value)] =~= field_views(
                            out@,
                        ).push(("messages"@, value)));
                    }
                    out.push(item);
                },
                None => {},
            }
            proof {
                assert(field_views(out@) =~= with_field(all, "messages"@, value));
                lemma_object_view(out);
            }
            JsonValue::Object(out)
        },
        _ => {
            let mut out = Fields::new();
            out.add("messages", JsonValue::Array(messages));
            proof {
                assert(out@ =~= seq![("messages"@, value)]);
            }
            out.object()
        },
    }
}

/// All that is written out.
pub open spec fn export_view(now: int, threads: Seq<JsonView>) -> JsonView {
    JsonView::Object(
        seq![
            ("exported_at"@, JsonView::Number(number_of(now))),
            ("threads"@, JsonView::Array(threads)),
        ],
    )
}

/// All that is written out.
pub fn export_document(now: i64, threads: Vec<JsonValue>) -> (r: JsonValue)
    ensures
        r@ == export_view(now as int, views(threads@)),
{
    proof {
        lemma_array_view(threads);
    }
    let mut out = Fields::new();
    out.add("exported_at", JsonValue::integer(now));
    out.add("threads", JsonValue::Array(threads));
    proof {
        assert(out@ =~= export_view(now as int, views(threads@))->Object_0);
    }
    out.object()
}

/// The identifier of a thread as it is written out.
pub open spec fn shown_id(thread: JsonView) -> Text {
    match str_field(thread, "threadID"@) {
        Some(id) => id,
        None => "unknown"@,
    }
}

/// The name of a thread as it is written out: of the first of two fields that it has, or else its
/// identifier.
pub open spec fn shown_name(thread: JsonView) -> Text {
    let field = match json_get(thread, "threadName"@) {
        Some(v) => Some(v),
        None => json_get(thread, "name"@),
    };
    match json_str(field) {
        Some(name) => name,
        None => shown_id(thread),
    }
}

/// The lines of a message.
pub open spec fn message_markdown(message: JsonView) -> Text {
    "- **"@ + time_or_empty(opt_ts_millis(str_field(message, "timestamp"@))) + "** `"@
        + text_or_empty(str_field(message, "senderID"@)) + "`: "@ + text_or_empty(
        str_field(message, "body"@),
    ) + "\n"@
}

/// The lines of some messages.
pub open spec fn messages_markdown(messages: Seq<JsonView>) -> Text
    decreases messages.len(),
{
    if messages.len() == 0 {
        Seq::empty()
    } else {
        messages_markdown(messages.drop_last()) + message_markdown(messages.last())
    }
}

/// The lines of a thread.
pub open spec fn thread_markdown(thread: JsonView) -> Text {
    thread_heading(thread) + (match array_field(thread, "messages"@) {
        Some(messages) => messages_markdown(messages),
        None => Seq::empty(),
    }) + "\n"@
}

/// The lines of some threads.
pub open spec fn threads_markdown(threads: Seq<JsonView>) -> Text
    decreases threads.len(),
{
    if threads.len() == 0 {
        "# Facebook Messenger export\n\n"@
    } else {
        threads_markdown(threads.drop_last()) + thread_markdown(threads.last())
    }
}

fn push_str_field(out: &mut String, value: &JsonValue, name: &str)
    ensures
        final(out)@ == old(out)@ + text_or_empty(str_field(value@, name@)),
{
    let ghost before = out@;
    match value.get_str(name) {
        Some(s) => {
            out.append(s);
        },
        None => {
            proof {
                assert(before + Seq::<char>::empty() =~= before);
            }
        },
    }
}

fn push_message(out: &mut String, message: &JsonValue)
    ensures
        final(out)@ == old(out)@ + message_markdown(message@),
{
    let ghost before = out@;
    out.append("- **");
    let time = fmt_ts(parse_ts_millis(message.get_str("timestamp")));
    out.append(time.as_str());
    out.append("** `");
    push_str_field(out, message, "senderID");
    out.append("`: ");
    push_str_field(out, message, "body");
    out.append("\n");
    proof {
        assert(out@ =~= before + message_markdown(message@));
    }
}

fn push_messages(out: &mut String, messages: &[JsonValue])
    ensures
        final(out)@ == old(out)@ + messages_markdown(views(messages@)),
{
    let ghost head = out@;
    let ghost all = views(messages@);
    let mut i: usize = 0;
    proof {
        assert(all.take(0) =~= Seq::<JsonView>::empty());
        assert(head + messages_markdown(all.take(0)) =~= head);
    }
    while i < messages.len()
        invariant
            0 <= i <= messages@.len(),
            all == views(messages@),
            out@ == head + messages_markdown(all.take(i as int)),
        decreases messages@.len() - i,
    {
        push_message(out, &messages[i]);
        proof {
            assert(all.take(i + 1).drop_last() =~= all.take(i as int));
            assert(all.take(i + 1).last() == messages@[i as int]@);
            assert(out@ =~= head + messages_markdown(all.take(i + 1)));
        }
        i += 1;
    }
    proof {
        assert(all.take(all.len() as int) =~= all);
    }
}

/// The heading of a thread.
pub open spec fn thread_heading(thread: JsonView) -> Text {
    "## "@ + shown_name(thread) + " (`"@ + shown_id(thread) + "`)\n\n"@
}

fn push_heading(out: &mut String, thread: &JsonValue)
    ensures
        final(out)@ == old(out)@ + thread_heading(thread@),
{
    let ghost before = out@;
    let id = match thread.get_str("threadID") {
        Some(id) => id,
        None => "unknown",
    };
    let field = match thread.get("threadName") {
        Some(v) => Some(v),
        None => thread.get("name"),
    };
    let name = match field {
        Some(v) => match v.as_str() {
            Some(name) => name,
            None => id,
        },
        None => id,
    };
    proof {
        assert(id@ == shown_id(thread@));
        assert(name@ == shown_name(thread@));
    }
    out.append("## ");
    out.append(name);
    out.append(" (`");
    out.append(id);
    out.append("`)\n\n");
    proof {
        assert(out@ =~= before + thread_heading(thread@));
    }
}

fn push_thread(out: &mut String, thread: &JsonValue)
    ensures
        final(out)@ == old(out)@ + thread_markdown(thread@),
{
    let ghost before = out@;
    push_heading(out, thread);
    match thread.get_array("messages") {
        Some(messages) => {
            push_messages(out, messages);
        },
        None => {
            proof {
                assert(out@ + Seq::<char>::empty() =~= out@);
            }
        },
    }
    out.append("\n");
    proof {
        assert(out@ =~= before + thread_markdown(thread@));
    }
}

/// Threads with their messages, as Markdown.
pub fn export_markdown(threads: &[JsonValue]) -> (r: String)
    ensures
        r@ == threads_markdown(views(threads@)),
{
    let ghost all = views(threads@);
    let mut out = "# Facebook Messenger export\n\n".to_owned();
    let mut i: usize = 0;
    proof {
        assert(all.take(0) =~= Seq::<JsonView>::empty());
    }
    while i < threads.len()
        invariant
            0 <= i <= threads@.len(),
            all == views(threads@),
            out@ == threads_markdown(all.take(i as int)),
        decreases threads@.len() - i,
    {
        push_thread(&mut out, &threads[i]);
        proof {
            assert(all.take(i + 1).drop_last() =~= all.take(i as int));
            assert(all.take(i + 1).last() == threads@[i as int]@);
        }
        i += 1;
    }
    proof {
        assert(all.take(all.len() as int) =~= all);
    }
    out
}

/// What is written out in the wanted form: indented JSON text, or Markdown.
pub open spec fn content_of(format: ExportFormat, now: int, threads: Seq<JsonView>) -> Text {
    match format {
        ExportFormat::Markdown => threads_markdown(threads),
        ExportFormat::Json => json_pretty(normal(export_view(now, threads))),
    }
}

/// The threads are written in the form that is wanted.
pub proof fn law_export_is_in_the_wanted_form(now: int, threads: Seq<JsonView>)
    ensures
        content_of(ExportFormat::Markdown, now, threads) == threads_markdown(threads),
        content_of(ExportFormat::Json, now, threads) == json_pretty(
            normal(export_view(now, threads)),
        ),
{
}

/// What is written out in the wanted form: indented JSON text, or Markdown.
pub fn export_content(format: ExportFormat, now: i64, threads: Vec<JsonValue>) -> (r: String)
    ensures
        r@ == content_of(format, now as int, views(threads@)),
        r@ == (match format {
            ExportFormat::Markdown => threads_markdown(views(threads@)),
            ExportFormat::Json => json_pretty(normal(export_view(now as int, views(threads@)))),
        }),
{
    match format {
        ExportFormat::Markdown => export_markdown(&threads),
        ExportFormat::Json => json_pretty_text(&export_document(now, threads)),
    }
}

/// What is said when a file was written.
pub fn exported_note(path: &str) -> (r: String)
    ensures
        r@ == "exported "@ + path@,
{
    joined2("exported ", path)
}

/// What is written out holds the threads that were given, in their order, and the time.
pub proof fn law_export_holds_all_threads(now: int, threads: Seq<JsonView>)
    ensures
        json_get(export_view(now, threads), "exported_at"@) == Some(JsonView::Number(number_of(now))),
        json_get(export_view(now, threads), "threads"@) == Some(JsonView::Array(threads)),
{
    reveal_strlit("exported_at");
    reveal_strlit("threads");
    let fields = export_view(now, threads)->Object_0;
    assert(fields[0].0 == "exported_at"@);
    lemma_field_at(fields, 0);
    assert(fields[1].0 == "threads"@);
    assert("exported_at"@.len() != "threads"@.len());
    lemma_field_at(fields, 1);
}

/// A message is written with its time, its sender and its whole text.
pub proof fn law_message_is_written_whole(
    message: JsonView,
    time: Text,
    at: int,
    sender: Text,
    body: Text,
)
    requires
        json_get(message, "timestamp"@) == Some(JsonView::String(time)),
        ts_millis(time) == Some(at),
        json_get(message, "senderID"@) == Some(JsonView::String(sender)),
        json_get(message, "body"@) == Some(JsonView::String(body)),
    ensures
        message_markdown(message) == "- **"@ + stamp(at) + "** `"@ + sender + "`: "@ + body
            + "\n"@,
{
}

/// What a message does not say is left out of its line.
pub proof fn law_missing_parts_of_a_message_are_empty(message: JsonView)
    requires
        json_get(message, "timestamp"@) is None,
        json_get(message, "senderID"@) is None,
        json_get(message, "body"@) is None,
    ensures
        message_markdown(message) == "- **"@ + "** `"@ + "`: "@ + "\n"@,
{
    let none = Seq::<char>::empty();
    assert("- **"@ + none =~= "- **"@);
    assert("- **"@ + "** `"@ + none =~= "- **"@ + "** `"@);
    assert("- **"@ + "** `"@ + "`: "@ + none =~= "- **"@ + "** `"@ + "`: "@);
}

/// Messages are written one behind the other, in their order.
pub proof fn law_messages_are_written_in_order(a: Seq<JsonView>, b: Seq<JsonView>, m: JsonView)
    ensures
        messages_markdown(a + b) == messages_markdown(a) + messages_markdown(b),
        messages_markdown(seq![m]) == message_markdown(m),
    decreases b.len(),
{
    if b.len() == 0 {
        assert(a + b =~= a);
        lemma_joined_either_way(messages_markdown(a), Seq::empty(), Seq::empty());
    } else {
        law_messages_are_written_in_order(a, b.drop_last(), m);
        assert((a + b).drop_last() =~= a + b.drop_last());
        assert((a + b).last() == b.last());
        lemma_joined_either_way(
            messages_markdown(a),
            messages_markdown(b.drop_last()),
            message_markdown(b.last()),
        );
    }
    assert(seq![m].drop_last() =~= Seq::<JsonView>::empty());
    assert(messages_markdown(seq![m].drop_last()) == Seq::<char>::empty());
    lemma_joined_either_way(message_markdown(m), Seq::empty(), Seq::empty());
}

/// A thread is written with its name, or else its identifier, then its identifier, and then all of
/// its messages.
pub proof fn law_thread_is_written_whole(thread: JsonView, id: Text, messages: Seq<JsonView>)
    requires
        json_get(thread, "threadID"@) == Some(JsonView::String(id)),
        json_get(thread, "messages"@) == Some(JsonView::Array(messages)),
    ensures
        thread_markdown(thread) == "## "@ + shown_name(thread) + " (`"@ + id + "`)\n\n"@
            + messages_markdown(messages) + "\n"@,
        json_get(thread, "threadName"@) matches Some(JsonView::String(name)) ==> shown_name(thread)
            == name,
        json_get(thread, "threadName"@) is None && json_get(thread, "name"@) is Some && json_get(
            thread,
            "name"@,
        )->0 is String ==> shown_name(thread) == json_get(thread, "name"@)->0->String_0,
        json_get(thread, "threadName"@) is None && json_get(thread, "name"@) is None ==> shown_name(
            thread,
        ) == id,
{
}

/// Threads are written one behind the other, in their order, below one heading.
pub proof fn law_threads_are_written_in_order(threads: Seq<JsonView>, thread: JsonView)
    ensures
        threads_markdown(Seq::empty()) == "# Facebook Messenger export\n\n"@,
        threads_markdown(threads.push(thread)) == threads_markdown(threads) + thread_markdown(
            thread,
        ),
{
    assert(threads.push(thread).drop_last() =~= threads);
}

/// Every message of every thread stands in what is written out as Markdown.
pub proof fn law_every_message_is_written(threads: Seq<JsonView>, i: int, messages: Seq<JsonView>, j: int)
    requires
        0 <= i < threads.len(),
        json_get(threads[i], "messages"@) == Some(JsonView::Array(messages)),
        0 <= j < messages.len(),
    ensures
        contains_text(threads_markdown(threads), message_markdown(messages[j])),
    decreases threads.len(),
{
    let p = message_markdown(messages[j]);
    if i == threads.len() - 1 {
        lemma_message_is_found(messages, j);
        let heading = thread_heading(threads[i]);
        lemma_found_behind(heading, messages_markdown(messages), p);
        lemma_found_stays(heading + messages_markdown(messages), p, "\n"@);
        lemma_found_behind(threads_markdown(threads.drop_last()), thread_markdown(threads[i]), p);
    } else {
        law_every_message_is_written(threads.drop_last(), i, messages, j);
        lemma_found_stays(
            threads_markdown(threads.drop_last()),
            p,
            thread_markdown(threads.last()),
        );
    }
}

proof fn lemma_message_is_found(messages: Seq<JsonView>, j: int)
    requires
        0 <= j < messages.len(),
    ensures
        contains_text(messages_markdown(messages), message_markdown(messages[j])),
    decreases messages.len(),
{
    let before = messages_markdown(messages.drop_last());
    if j == messages.len() - 1 {
        lemma_end_is_found(before, message_markdown(messages[j]));
    } else {
        lemma_message_is_found(messages.drop_last(), j);
        lemma_found_stays(before, message_markdown(messages[j]), message_markdown(messages.last()));
    }
}

} // verus!
