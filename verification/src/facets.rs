//! What the archive derives from its threads and messages: dimensions, and the categories that
//! follow from them.
use vstd::prelude::*;

use crate::categories::{
    component, count_bucket, law_participants_name_tells_the_bounds,
    law_volume_name_tells_the_bounds, participant_bucket, participants_name, path_component, volume_name,
};
use crate::json::{
    json_get, law_strings_are_counted, lemma_array_view, lemma_field_at, number_of, parsed_value, string_count, string_list_len, views, Fields,
    JsonValue, JsonView,
};
use crate::number::{i64_text, int_text, opt_int, zero_padded};
use crate::sync::{history_complete, is_history_complete};
use crate::text::{
    contains_text, joined2, lemma_end_is_found, lemma_found_behind, lemma_found_stays,
    lemma_overlap_is_found, lemma_two_more, opt_text, Text,
};
use crate::time::{time_parts, time_path, time_path_text, utc_time, TimeDepth};

verus! {

/// What the archive holds of a thread.
#[derive(Debug)]
pub struct ThreadFacts {
    pub folder: Option<String>,
    pub is_archived: i64,
    pub is_group: i64,
    /// The identifiers of the participants, as a JSON text.
    pub participant_ids: Option<String>,
    pub message_count: Option<i64>,
    pub updated_at: Option<i64>,
    pub stored_messages: i64,
    pub marked_complete: i64,
}

/// The dimensions of a thread.
#[derive(Debug)]
pub struct ThreadDimensions {
    pub folder: String,
    pub archive_state: &'static str,
    pub thread_kind: &'static str,
    pub participant_count: usize,
    pub participant_bucket: &'static str,
    pub remote_message_count: Option<i64>,
    pub stored_message_count: i64,
    pub volume_bucket: &'static str,
    pub history_state: &'static str,
    pub activity_year: Option<i64>,
    pub activity_month: Option<i64>,
    /// The path of the month of the last change.
    pub activity_path: Option<String>,
}

/// The values of [`ThreadDimensions`].
pub struct DimensionsView {
    pub folder: Text,
    pub archive_state: Text,
    pub thread_kind: Text,
    pub participant_count: int,
    pub participant_bucket: Text,
    pub remote_message_count: Option<int>,
    pub stored_message_count: int,
    pub volume_bucket: Text,
    pub history_state: Text,
    pub activity_year: Option<int>,
    pub activity_month: Option<int>,
    pub activity_path: Option<Text>,
}

impl View for ThreadDimensions {
    type V = DimensionsView;

    open spec fn view(&self) -> DimensionsView {
        DimensionsView {
            folder: self.folder@,
            archive_state: self.archive_state@,
            thread_kind: self.thread_kind@,
            participant_count: self.participant_count as int,
            participant_bucket: self.participant_bucket@,
            remote_message_count: opt_int(self.remote_message_count),
            stored_message_count: self.stored_message_count as int,
            volume_bucket: self.volume_bucket@,
            history_state: self.history_state@,
            activity_year: opt_int(self.activity_year),
            activity_month: opt_int(self.activity_month),
            activity_path: opt_text(self.activity_path),
        }
    }
}

/// The dimensions of a thread, given the part of a path that stands for its folder and the number
/// of its participants. The volume goes by the number of messages on the other side, where it is
/// known, and else by those stored.
pub open spec fn dimensions_of(facts: ThreadFacts, folder: Text, participants: int) -> DimensionsView {
    let remote = opt_int(facts.message_count);
    let stored = facts.stored_messages as int;
    DimensionsView {
        folder,
        archive_state: if facts.is_archived != 0 {
            "archived"@
        } else {
            "active"@
        },
        thread_kind: if facts.is_group != 0 {
            "group"@
        } else {
            "direct"@
        },
        participant_count: participants,
        participant_bucket: participants_name(participants),
        remote_message_count: remote,
        stored_message_count: stored,
        volume_bucket: volume_name(
            match remote {
                Some(n) => n,
                None => stored,
            },
        ),
        history_state: if facts.marked_complete != 0 || history_complete(remote, stored) {
            "complete"@
        } else {
            "incomplete"@
        },
        activity_year: match facts.updated_at {
            Some(t) => Some(utc_time(t as int).date.year),
            None => None,
        },
        activity_month: match facts.updated_at {
            Some(t) => Some(utc_time(t as int).date.month),
            None => None,
        },
        activity_path: match facts.updated_at {
            Some(t) => if t < 0 {
                None
            } else {
                Some(time_path_text(t as int, TimeDepth::Month))
            },
            None => None,
        },
    }
}

/// The dimensions of a thread, given the part of a path that stands for its folder and the number
/// of its participants.
pub fn thread_dimensions(
    facts: &ThreadFacts,
    folder: String,
    participants: usize,
) -> (r: ThreadDimensions)
    ensures
        r@ == dimensions_of(*facts, folder@, participants as int),
{
    let complete = facts.marked_complete != 0 || is_history_complete(
        facts.message_count,
        facts.stored_messages,
    );
    let volume: i64 = match facts.message_count {
        Some(n) => n,
        None => facts.stored_messages,
    };
    let (activity_year, activity_month, _, _) = time_parts(facts.updated_at);
    let activity_path = match facts.updated_at {
        Some(t) => time_path(t, TimeDepth::Month),
        None => None,
    };
    ThreadDimensions {
        folder,
        archive_state: if facts.is_archived != 0 {
            "archived"
        } else {
            "active"
        },
        thread_kind: if facts.is_group != 0 {
            "group"
        } else {
            "direct"
        },
        participant_count: participants,
        participant_bucket: participant_bucket(participants),
        remote_message_count: facts.message_count,
        stored_message_count: facts.stored_messages,
        volume_bucket: count_bucket(volume),
        history_state: if complete {
            "complete"
        } else {
            "incomplete"
        },
        activity_year,
        activity_month,
        activity_path,
    }
}

/// The dimensions of a thread: its folder is the part of a path that stands for the folder's name,
/// its participants are the strings in the list of them.
pub open spec fn described(facts: ThreadFacts) -> DimensionsView {
    dimensions_of(
        facts,
        component(
            match facts.folder {
                Some(s) => s@,
                None => "unknown"@,
            },
        ),
        string_count(
            parsed_value(
                match facts.participant_ids {
                    Some(s) => s@,
                    None => "[]"@,
                },
            ),
        ),
    )
}

/// The dimensions of a thread.
pub fn describe_thread(facts: &ThreadFacts) -> (r: ThreadDimensions)
    ensures
        r@ == described(*facts),
        r@ == dimensions_of(
            *facts,
            component(
                match facts.folder {
                    Some(s) => s@,
                    None => "unknown"@,
                },
            ),
            string_count(
                parsed_value(
                    match facts.participant_ids {
                        Some(s) => s@,
                        None => "[]"@,
                    },
                ),
            ),
        ),
{
    let folder = match &facts.folder {
        Some(s) => path_component(s.as_str()),
        None => path_component("unknown"),
    };
    let participants: usize = match &facts.participant_ids {
        Some(s) => string_list_len(s.as_str()),
        None => string_list_len("[]"),
    };
    thread_dimensions(facts, folder, participants)
}

/// A category of a thread or message: a path on an axis.
#[derive(Debug)]
pub struct Facet {
    pub axis: &'static str,
    pub path: String,
}

/// The values of [`Facet`].
pub struct FacetView {
    pub axis: Text,
    pub path: Text,
}

impl View for Facet {
    type V = FacetView;

    open spec fn view(&self) -> FacetView {
        FacetView { axis: self.axis@, path: self.path@ }
    }
}

/// The values of some facets.
pub open spec fn facet_views(facets: Seq<Facet>) -> Seq<FacetView> {
    facets.map_values(|f: Facet| f@)
}

/// The categories that every thread has.
pub open spec fn fixed_facets(d: DimensionsView) -> Seq<FacetView> {
    seq![
        FacetView { axis: "source.folder"@, path: "folder/"@ + d.folder },
        FacetView { axis: "thread.archive"@, path: "archive/"@ + d.archive_state },
        FacetView { axis: "thread.kind"@, path: "kind/"@ + d.thread_kind },
        FacetView { axis: "participants.size"@, path: "participants/"@ + d.participant_bucket },
        FacetView { axis: "volume.messages"@, path: "volume/"@ + d.volume_bucket },
        FacetView { axis: "thread.history"@, path: "history/"@ + d.history_state },
    ]
}

/// The categories of a thread.
pub open spec fn facets_of(d: DimensionsView) -> Seq<FacetView> {
    match d.activity_path {
        Some(path) => fixed_facets(d).push(FacetView { axis: "time.activity"@, path }),
        None => fixed_facets(d),
    }
}

impl ThreadDimensions {
    /// The categories of the thread.
    pub fn facets(&self) -> (r: Vec<Facet>)
        ensures
            facet_views(r@) == facets_of(self@),
    {
        let mut out = vec![
            Facet { axis: "source.folder", path: joined2("folder/", self.folder.as_str()) },
            Facet { axis: "thread.archive", path: joined2("archive/", self.archive_state) },
            Facet { axis: "thread.kind", path: joined2("kind/", self.thread_kind) },
            Facet {
                axis: "participants.size",
                path: joined2("participants/", self.participant_bucket),
            },
            Facet { axis: "volume.messages", path: joined2("volume/", self.volume_bucket) },
            Facet { axis: "thread.history", path: joined2("history/", self.history_state) },
        ];
        proof {
            assert(facet_views(out@) =~= fixed_facets(self@));
        }
        match &self.activity_path {
            Some(path) => {
                out.push(Facet { axis: "time.activity", path: path.clone() });
                proof {
                    assert(facet_views(out@) =~= facets_of(self@));
                }
            },
            None => {},
        }
        out
    }
}

/// A thread has at most one category on each axis.
pub proof fn law_axes_are_distinct(d: DimensionsView, i: int, j: int)
    requires
        0 <= i < j < facets_of(d).len(),
    ensures
        facets_of(d)[i].axis != facets_of(d)[j].axis,
{
    reveal_strlit("source.folder");
    reveal_strlit("thread.archive");
    reveal_strlit("thread.kind");
    reveal_strlit("participants.size");
    reveal_strlit("volume.messages");
    reveal_strlit("thread.history");
    reveal_strlit("time.activity");
    assert("thread.archive"@[7] == 'a' && "thread.history"@[7] == 'h');
    assert("source.folder"@[0] == 's' && "time.activity"@[0] == 't');
    let axes = seq![
        "source.folder"@,
        "thread.archive"@,
        "thread.kind"@,
        "participants.size"@,
        "volume.messages"@,
        "thread.history"@,
        "time.activity"@,
    ];
    assert(facets_of(d)[i].axis == axes[i]);
    assert(facets_of(d)[j].axis == axes[j]);
}

/// The statement that puts all messages into one category each, on one axis.
pub open spec fn category_statement(axis: Text, path: Text, condition: Text, now: int) -> Text {
    "INSERT OR REPLACE INTO message_categories(message_id, axis, path, source, confidence, updated_at) SELECT message_id, '"@
        + axis + "', "@ + path + ", 'derived', 1.0, "@ + int_text(now) + " FROM message_dimensions"@
        + condition + ";\n"@
}

/// Adds the statement that puts all messages into one category each, on one axis.
fn push_statement(out: &mut String, axis: &str, path: &str, condition: &str, now: i64)
    ensures
        final(out)@ == old(out)@ + category_statement(axis@, path@, condition@, now as int),
{
    let ghost before = out@;
    out.append(
        "INSERT OR REPLACE INTO message_categories(message_id, axis, path, source, confidence, updated_at) SELECT message_id, '",
    );
    out.append(axis);
    out.append("', ");
    out.append(path);
    out.append(", 'derived', 1.0, ");
    out.append(i64_text(now).as_str());
    out.append(" FROM message_dimensions");
    out.append(condition);
    out.append(";\n");
    proof {
        assert(out@ =~= before + category_statement(axis@, path@, condition@, now as int));
    }
}

/// The statements that put all messages into categories.
pub open spec fn category_statements(now: int) -> Text {
    category_statement("message.kind"@, "'kind/' || lower(message_kind)"@, ""@, now)
        + category_statement("message.text"@, "'text/' || text_state"@, ""@, now)
        + category_statement("volume.body"@, "'body/' || body_bucket"@, ""@, now)
        + category_statement("message.attachment"@, "'attachment/' || attachment_class"@, ""@, now)
        + category_statement("message.reactions"@, "'reactions/' || reaction_state"@, ""@, now)
        + category_statement("message.mentions"@, "'mentions/' || mention_state"@, ""@, now)
        + category_statement("sender.scope"@, "'sender/' || sender_scope"@, ""@, now)
        + category_statement(
        "time.sent"@,
        "printf('time/%04d/%02d/%02d/%02d', sent_year, sent_month, sent_day, sent_hour)"@,
        " WHERE sent_year IS NOT NULL"@,
        now,
    )
}

/// The statements that put all messages into categories.
pub fn message_category_statements(now: i64) -> (r: String)
    ensures
        r@ == category_statements(now as int),
{
    let mut out = String::new();
    push_statement(&mut out, "message.kind", "'kind/' || lower(message_kind)", "", now);
    push_statement(&mut out, "message.text", "'text/' || text_state", "", now);
    push_statement(&mut out, "volume.body", "'body/' || body_bucket", "", now);
    push_statement(&mut out, "message.attachment", "'attachment/' || attachment_class", "", now);
    push_statement(&mut out, "message.reactions", "'reactions/' || reaction_state", "", now);
    push_statement(&mut out, "message.mentions", "'mentions/' || mention_state", "", now);
    push_statement(&mut out, "sender.scope", "'sender/' || sender_scope", "", now);
    push_statement(
        &mut out,
        "time.sent",
        "printf('time/%04d/%02d/%02d/%02d', sent_year, sent_month, sent_day, sent_hour)",
        " WHERE sent_year IS NOT NULL",
        now,
    );
    proof {
        assert(out@ =~= category_statements(now as int));
    }
    out
}

/// The query for the largest categories, of one axis or of all.
pub open spec fn counts_sql(one: bool) -> Text {
    if one {
        "SELECT scope, axis, path, item_count FROM v_category_counts WHERE axis = ?1 ORDER BY item_count DESC, path LIMIT ?2"@
    } else {
        "SELECT scope, axis, path, item_count FROM v_category_counts ORDER BY item_count DESC, axis, path LIMIT ?1"@
    }
}

/// The largest categories come first, and only those of the axis that is named, if one is.
pub proof fn law_largest_categories_come_first()
    ensures
        contains_text(counts_sql(true), " WHERE axis = ?1 ORDER BY item_count DESC, path LIMIT ?2"@),
        contains_text(
            counts_sql(false),
            " FROM v_category_counts ORDER BY item_count DESC, axis, path LIMIT ?1"@,
        ),
{
    let start = "SELECT scope, axis, path, item_count FROM v_category_counts"@;
    let one = " WHERE axis = ?1 ORDER BY item_count DESC, path LIMIT ?2"@;
    let head = "SELECT scope, axis, path, item_count"@;
    let all = " FROM v_category_counts ORDER BY item_count DESC, axis, path LIMIT ?1"@;
    reveal_strlit(
        "SELECT scope, axis, path, item_count FROM v_category_counts WHERE axis = ?1 ORDER BY item_count DESC, path LIMIT ?2",
    );
    reveal_strlit(
        "SELECT scope, axis, path, item_count FROM v_category_counts ORDER BY item_count DESC, axis, path LIMIT ?1",
    );
    reveal_strlit("SELECT scope, axis, path, item_count FROM v_category_counts");
    reveal_strlit(" WHERE axis = ?1 ORDER BY item_count DESC, path LIMIT ?2");
    reveal_strlit("SELECT scope, axis, path, item_count");
    reveal_strlit(" FROM v_category_counts ORDER BY item_count DESC, axis, path LIMIT ?1");
    assert(counts_sql(true) =~= start + one);
    assert(counts_sql(false) =~= head + all);
    lemma_end_is_found(start, one);
    lemma_end_is_found(head, all);
}

/// The query for the largest categories, of one axis or of all.
pub fn category_count_query(axis: Option<&str>) -> (r: &'static str)
    ensures
        r@ == counts_sql(axis is Some),
        r@ == (if axis is Some {
            "SELECT scope, axis, path, item_count FROM v_category_counts WHERE axis = ?1 ORDER BY item_count DESC, path LIMIT ?2"@
        } else {
            "SELECT scope, axis, path, item_count FROM v_category_counts ORDER BY item_count DESC, axis, path LIMIT ?1"@
        }),
{
    match axis {
        Some(_) => "SELECT scope, axis, path, item_count FROM v_category_counts WHERE axis = ?1 ORDER BY item_count DESC, path LIMIT ?2",
        None => "SELECT scope, axis, path, item_count FROM v_category_counts ORDER BY item_count DESC, axis, path LIMIT ?1",
    }
}

/// The size of a category.
#[derive(Debug)]
pub struct CategoryCountRow {
    pub scope: String,
    pub axis: String,
    pub path: String,
    pub count: i64,
}

/// The number of categories, and of what is in them.
#[derive(Debug)]
pub struct CategorizationSummary {
    pub threads: i64,
    pub messages: i64,
    pub category_nodes: i64,
    pub thread_assignments: i64,
    pub message_assignments: i64,
    /// The number of categories of each axis.
    pub axes: Vec<(String, i64)>,
}

/// The number of categories of each axis, as an object.
pub open spec fn axes_view(axes: Seq<(String, i64)>) -> JsonView {
    JsonView::Object(
        axes.map_values(|a: (String, i64)| (a.0@, JsonView::Number(number_of(a.1 as int)))),
    )
}

impl CategorizationSummary {
    /// What is reported of the numbers.
    pub open spec fn spec_report(self) -> JsonView {
        JsonView::Object(
            seq![
                ("threads"@, JsonView::Number(number_of(self.threads as int))),
                ("messages"@, JsonView::Number(number_of(self.messages as int))),
                ("category_nodes"@, JsonView::Number(number_of(self.category_nodes as int))),
                (
                    "thread_assignments"@,
                    JsonView::Number(number_of(self.thread_assignments as int)),
                ),
                (
                    "message_assignments"@,
                    JsonView::Number(number_of(self.message_assignments as int)),
                ),
                ("axes"@, axes_view(self.axes@)),
            ],
        )
    }

    /// What is reported of the numbers.
    pub fn report(&self) -> (r: JsonValue)
        ensures
            r@ == self.spec_report(),
    {
        let mut axes = Fields::new();
        let ghost all = axes_view(self.axes@)->Object_0;
        let mut i: usize = 0;
        while i < self.axes.len()
            invariant
                0 <= i <= self.axes@.len(),
                all == axes_view(self.axes@)->Object_0,
                axes@ == all.take(i as int),
            decreases self.axes@.len() - i,
        {
            axes.add(self.axes[i].0.as_str(), JsonValue::integer(self.axes[i].1));
            proof {
                assert(all.take(i + 1) =~= all.take(i as int).push(all[i as int]));
            }
            i += 1;
        }
        proof {
            assert(all.take(all.len() as int) =~= all);
        }
        let mut out = Fields::new();
        out.add("threads", JsonValue::integer(self.threads));
        out.add("messages", JsonValue::integer(self.messages));
        out.add("category_nodes", JsonValue::integer(self.category_nodes));
        out.add("thread_assignments", JsonValue::integer(self.thread_assignments));
        out.add("message_assignments", JsonValue::integer(self.message_assignments));
        out.add("axes", axes.object());
        proof {
            assert(out@ =~= self.spec_report()->Object_0);
        }
        out.object()
    }

    /// What `categorize` says.
    pub open spec fn spec_summary(self) -> Text {
        "categorized "@ + int_text(self.threads as int) + " threads and "@ + int_text(
            self.messages as int,
        ) + " messages into "@ + int_text(self.category_nodes as int) + " taxonomy nodes ("@
            + int_text(self.thread_assignments as int) + " thread facets, "@ + int_text(
            self.message_assignments as int,
        ) + " message facets)"@
    }

    /// What `categorize` says.
    pub fn summary(&self) -> (r: String)
        ensures
            r@ == self.spec_summary(),
            r@ == "categorized "@ + int_text(self.threads as int) + " threads and "@ + int_text(
                self.messages as int,
            ) + " messages into "@ + int_text(self.category_nodes as int) + " taxonomy nodes ("@
                + int_text(self.thread_assignments as int) + " thread facets, "@ + int_text(
                self.message_assignments as int,
            ) + " message facets)"@,
    {
        let mut out = "categorized ".to_owned();
        out.append(i64_text(self.threads).as_str());
        out.append(" threads and ");
        out.append(i64_text(self.messages).as_str());
        out.append(" messages into ");
        out.append(i64_text(self.category_nodes).as_str());
        out.append(" taxonomy nodes (");
        out.append(i64_text(self.thread_assignments).as_str());
        out.append(" thread facets, ");
        out.append(i64_text(self.message_assignments).as_str());
        out.append(" message facets)");
        out
    }
}

/// What is reported of the size of a category.
pub open spec fn count_view(row: CategoryCountRow) -> JsonView {
    JsonView::Object(
        seq![
            ("scope"@, JsonView::String(row.scope@)),
            ("axis"@, JsonView::String(row.axis@)),
            ("path"@, JsonView::String(row.path@)),
            ("count"@, JsonView::Number(number_of(row.count as int))),
        ],
    )
}

/// What `categorize` reports.
pub open spec fn categorize_report_view(
    summary: CategorizationSummary,
    counts: Seq<CategoryCountRow>,
) -> JsonView {
    JsonView::Object(
        seq![
            ("summary"@, summary.spec_report()),
            ("counts"@, JsonView::Array(counts.map_values(|c: CategoryCountRow| count_view(c)))),
        ],
    )
}

/// What is reported of the size of a category.
pub fn count_report(row: &CategoryCountRow) -> (r: JsonValue)
    ensures
        r@ == count_view(*row),
{
    let mut out = Fields::new();
    out.add("scope", JsonValue::text(row.scope.as_str()));
    out.add("axis", JsonValue::text(row.axis.as_str()));
    out.add("path", JsonValue::text(row.path.as_str()));
    out.add("count", JsonValue::integer(row.count));
    proof {
        assert(out@ =~= count_view(*row)->Object_0);
    }
    out.object()
}

/// What `categorize` reports.
pub fn categorize_report(
    summary: &CategorizationSummary,
    counts: &[CategoryCountRow],
) -> (r: JsonValue)
    ensures
        r@ == categorize_report_view(*summary, counts@),
{
    let ghost all = counts@.map_values(|c: CategoryCountRow| count_view(c));
    let mut rows: Vec<JsonValue> = Vec::new();
    let mut i: usize = 0;
    while i < counts.len()
        invariant
            0 <= i <= counts@.len(),
            all == counts@.map_values(|c: CategoryCountRow| count_view(c)),
            views(rows@) == all.take(i as int),
        decreases counts@.len() - i,
    {
        let row = count_report(&counts[i]);
        proof {
            assert(views(rows@.push(row)) =~= views(rows@).push(row@));
            assert(all.take(i + 1) =~= all.take(i as int).push(all[i as int]));
        }
        rows.push(row);
        i += 1;
    }
    proof {
        assert(all.take(all.len() as int) =~= all);
        lemma_array_view(rows);
    }
    let mut out = Fields::new();
    out.add("summary", summary.report());
    out.add("counts", JsonValue::Array(rows));
    proof {
        assert(out@ =~= categorize_report_view(*summary, counts@)->Object_0);
    }
    out.object()
}

/// What `categorize` reports are the numbers that were counted, each under its own name.
pub proof fn law_categorization_is_reported(summary: CategorizationSummary)
    ensures
        json_get(summary.spec_report(), "threads"@) == Some(JsonView::Number(number_of(summary.threads as int))),
        json_get(summary.spec_report(), "messages"@) == Some(JsonView::Number(number_of(summary.messages as int))),
        json_get(summary.spec_report(), "category_nodes"@) == Some(JsonView::Number(number_of(summary.category_nodes as int))),
        json_get(summary.spec_report(), "thread_assignments"@) == Some(JsonView::Number(number_of(summary.thread_assignments as int))),
        json_get(summary.spec_report(), "message_assignments"@) == Some(JsonView::Number(number_of(summary.message_assignments as int))),
        json_get(summary.spec_report(), "axes"@) == Some(axes_view(summary.axes@)),
{
    reveal_strlit("threads");
    reveal_strlit("messages");
    reveal_strlit("category_nodes");
    reveal_strlit("thread_assignments");
    reveal_strlit("message_assignments");
    reveal_strlit("axes");
    let fields = summary.spec_report()->Object_0;
    assert(fields[0].0 == "threads"@);
    lemma_field_at(fields, 0);
    assert(fields[1].0 == "messages"@);
    assert("threads"@.len() != "messages"@.len());
    lemma_field_at(fields, 1);
    assert(fields[2].0 == "category_nodes"@);
    assert("threads"@.len() != "category_nodes"@.len());
    assert("messages"@.len() != "category_nodes"@.len());
    lemma_field_at(fields, 2);
    assert(fields[3].0 == "thread_assignments"@);
    assert("threads"@.len() != "thread_assignments"@.len());
    assert("messages"@.len() != "thread_assignments"@.len());
    assert("category_nodes"@.len() != "thread_assignments"@.len());
    lemma_field_at(fields, 3);
    assert(fields[4].0 == "message_assignments"@);
    assert("threads"@.len() != "message_assignments"@.len());
    assert("messages"@.len() != "message_assignments"@.len());
    assert("category_nodes"@.len() != "message_assignments"@.len());
    assert("thread_assignments"@.len() != "message_assignments"@.len());
    lemma_field_at(fields, 4);
    assert(fields[5].0 == "axes"@);
    assert("threads"@.len() != "axes"@.len());
    assert("messages"@.len() != "axes"@.len());
    assert("category_nodes"@.len() != "axes"@.len());
    assert("thread_assignments"@.len() != "axes"@.len());
    assert("message_assignments"@.len() != "axes"@.len());
    lemma_field_at(fields, 5);
}

/// What is reported of a category is what was counted of it.
pub proof fn law_category_size_is_reported(row: CategoryCountRow)
    ensures
        json_get(count_view(row), "scope"@) == Some(JsonView::String(row.scope@)),
        json_get(count_view(row), "axis"@) == Some(JsonView::String(row.axis@)),
        json_get(count_view(row), "path"@) == Some(JsonView::String(row.path@)),
        json_get(count_view(row), "count"@) == Some(JsonView::Number(number_of(row.count as int))),
{
    reveal_strlit("scope");
    reveal_strlit("axis");
    reveal_strlit("path");
    reveal_strlit("count");
    let fields = count_view(row)->Object_0;
    assert(fields[0].0 == "scope"@);
    lemma_field_at(fields, 0);
    assert(fields[1].0 == "axis"@);
    assert("scope"@.len() != "axis"@.len());
    lemma_field_at(fields, 1);
    assert(fields[2].0 == "path"@);
    assert("scope"@.len() != "path"@.len());
    assert("axis"@[0] != "path"@[0]);
    lemma_field_at(fields, 2);
    assert(fields[3].0 == "count"@);
    assert("scope"@[0] != "count"@[0]);
    assert("axis"@.len() != "count"@.len());
    assert("path"@.len() != "count"@.len());
    lemma_field_at(fields, 3);
}

/// The volume of a thread is named by the bounds that its number of messages lies in: the number
/// that the other side counts where it is known, whatever is stored, and else the number of those
/// that are stored.
pub proof fn law_volume_is_the_number_of_messages(facts: ThreadFacts, folder: Text, participants: int)
    ensures
        ({
            let bucket = dimensions_of(facts, folder, participants).volume_bucket;
            let n = if facts.message_count is Some {
                facts.message_count->0 as int
            } else {
                facts.stored_messages as int
            };
            &&& bucket == "0"@ <==> n <= 0
            &&& bucket == "1_9"@ <==> 1 <= n <= 9
            &&& bucket == "10_99"@ <==> 10 <= n <= 99
            &&& bucket == "100_999"@ <==> 100 <= n <= 999
            &&& bucket == "1000_plus"@ <==> n >= 1000
        }),
{
    law_volume_name_tells_the_bounds(
        match facts.message_count {
            Some(n) => n as int,
            None => facts.stored_messages as int,
        },
    );
}

/// A thread is complete where it is noted so, or where no fewer messages are stored than the other
/// side counts; a number of messages that is not known is never reached.
pub proof fn law_history_is_complete_when_all_is_stored(
    facts: ThreadFacts,
    folder: Text,
    participants: int,
)
    ensures
        ({
            let state = dimensions_of(facts, folder, participants).history_state;
            &&& state == "complete"@ || state == "incomplete"@
            &&& state == "complete"@ <==> facts.marked_complete != 0 || (facts.message_count is Some
                && facts.message_count->0 <= facts.stored_messages)
        }),
{
    reveal_strlit("complete");
    reveal_strlit("incomplete");
    assert("complete"@.len() == 8);
    assert("incomplete"@.len() == 10);
}

/// A thread is archived or active, a group or direct, as the archive says.
pub proof fn law_states_are_what_the_archive_says(
    facts: ThreadFacts,
    folder: Text,
    participants: int,
)
    ensures
        ({
            let d = dimensions_of(facts, folder, participants);
            &&& d.archive_state == "archived"@ <==> facts.is_archived != 0
            &&& d.archive_state == "active"@ <==> facts.is_archived == 0
            &&& d.thread_kind == "group"@ <==> facts.is_group != 0
            &&& d.thread_kind == "direct"@ <==> facts.is_group == 0
            &&& d.folder == folder
            &&& d.remote_message_count is Some <==> facts.message_count is Some
            &&& facts.message_count matches Some(n) ==> d.remote_message_count == Some(n as int)
            &&& d.stored_message_count == facts.stored_messages
        }),
{
    reveal_strlit("archived");
    reveal_strlit("active");
    reveal_strlit("group");
    reveal_strlit("direct");
    assert("archived"@.len() == 8);
    assert("active"@.len() == 6);
    assert("group"@.len() == 5);
    assert("direct"@.len() == 6);
}

/// The participants of a thread are counted, and named by the bounds that their number lies in.
pub proof fn law_participants_are_counted(facts: ThreadFacts, folder: Text, participants: int)
    ensures
        ({
            let d = dimensions_of(facts, folder, participants);
            &&& d.participant_count == participants
            &&& d.participant_bucket == "1_or_less"@ <==> participants <= 1
            &&& d.participant_bucket == "2"@ <==> participants == 2
            &&& d.participant_bucket == "3_5"@ <==> 3 <= participants <= 5
            &&& d.participant_bucket == "6_10"@ <==> 6 <= participants <= 10
            &&& d.participant_bucket == "11_25"@ <==> 11 <= participants <= 25
            &&& d.participant_bucket == "26_plus"@ <==> participants >= 26
        }),
{
    law_participants_name_tells_the_bounds(participants);
}

/// The activity of a thread is the month in which it was last changed: the point in time lies in
/// it, and from 1970 on the path of the month names it.
pub proof fn law_activity_is_the_last_change(facts: ThreadFacts, folder: Text, participants: int)
    ensures
        ({
            let d = dimensions_of(facts, folder, participants);
            &&& facts.updated_at is None ==> d.activity_year is None && d.activity_month is None
                && d.activity_path is None
            &&& facts.updated_at matches Some(t) ==> d.activity_year == Some(
                utc_time(t as int).date.year,
            ) && d.activity_month == Some(utc_time(t as int).date.month)
            &&& facts.updated_at matches Some(t) ==> (d.activity_path is Some <==> t >= 0)
            &&& facts.updated_at matches Some(t) ==> (t >= 0 ==> d.activity_path == Some(
                "time/"@ + zero_padded(d.activity_year->0, 4) + "/"@ + zero_padded(
                    d.activity_month->0,
                    2,
                ),
            ))
        }),
{
}

/// A thread is described by its own folder and participants: by the part of a path that stands for
/// the name of the folder, and by the strings in the list of participants.
pub proof fn law_thread_is_described_by_its_own(facts: ThreadFacts)
    ensures
        facts.folder matches Some(name) ==> described(facts).folder == component(name@),
        facts.folder is None ==> described(facts).folder == component("unknown"@),
        facts.participant_ids matches Some(list) ==> (parsed_value(list@) matches Some(
            JsonView::Array(items),
        ) ==> ((forall|i: int| 0 <= i < items.len() ==> (#[trigger] items[i]) is String)
            ==> described(facts).participant_count == items.len())),
        facts.participant_ids matches Some(list) ==> (parsed_value(list@) is None ==> described(
            facts,
        ).participant_count == 0),
        described(facts) == dimensions_of(
            facts,
            described(facts).folder,
            described(facts).participant_count,
        ),
{
    if let Some(list) = facts.participant_ids {
        if let Some(v) = parsed_value(list@) {
            law_strings_are_counted(v);
        }
    }
}

/// Every dimension of a thread is a category on its axis, and there are no other categories.
pub proof fn law_every_dimension_is_a_category(d: DimensionsView, facet: FacetView)
    ensures
        facets_of(d).contains(facet) <==> {
            ||| facet.axis == "source.folder"@ && facet.path == "folder/"@ + d.folder
            ||| facet.axis == "thread.archive"@ && facet.path == "archive/"@ + d.archive_state
            ||| facet.axis == "thread.kind"@ && facet.path == "kind/"@ + d.thread_kind
            ||| facet.axis == "participants.size"@ && facet.path == "participants/"@
                + d.participant_bucket
            ||| facet.axis == "volume.messages"@ && facet.path == "volume/"@ + d.volume_bucket
            ||| facet.axis == "thread.history"@ && facet.path == "history/"@ + d.history_state
            ||| d.activity_path is Some && facet.axis == "time.activity"@ && facet.path
                == d.activity_path->0
        },
{
    let all = facets_of(d);
    assert(all[0].axis == "source.folder"@ && all[1].axis == "thread.archive"@ && all[2].axis
        == "thread.kind"@ && all[3].axis == "participants.size"@ && all[4].axis
        == "volume.messages"@ && all[5].axis == "thread.history"@);
    if d.activity_path is Some {
        assert(all[6].axis == "time.activity"@);
    }
}

/// Every message gets a category on each axis of messages: for each there is a statement that takes
/// the path from the column of that axis.
pub proof fn law_messages_are_categorized_on_every_axis(now: int)
    ensures
        contains_text(
            category_statements(now),
            "SELECT message_id, 'message.kind', 'kind/' || lower(message_kind), "@,
        ),
        contains_text(
            category_statements(now),
            "SELECT message_id, 'message.text', 'text/' || text_state, "@,
        ),
        contains_text(
            category_statements(now),
            "SELECT message_id, 'volume.body', 'body/' || body_bucket, "@,
        ),
        contains_text(
            category_statements(now),
            "SELECT message_id, 'message.attachment', 'attachment/' || attachment_class, "@,
        ),
        contains_text(
            category_statements(now),
            "SELECT message_id, 'message.reactions', 'reactions/' || reaction_state, "@,
        ),
        contains_text(
            category_statements(now),
            "SELECT message_id, 'message.mentions', 'mentions/' || mention_state, "@,
        ),
        contains_text(
            category_statements(now),
            "SELECT message_id, 'sender.scope', 'sender/' || sender_scope, "@,
        ),
        contains_text(
            category_statements(now),
            "SELECT message_id, 'time.sent', printf('time/%04d/%02d/%02d/%02d', sent_year, sent_month, sent_day, sent_hour), "@,
        ),
{
    let none = ""@;
    let s1 = category_statement("message.kind"@, "'kind/' || lower(message_kind)"@, none, now);
    let s2 = category_statement("message.text"@, "'text/' || text_state"@, none, now);
    let s3 = category_statement("volume.body"@, "'body/' || body_bucket"@, none, now);
    let s4 = category_statement(
        "message.attachment"@,
        "'attachment/' || attachment_class"@,
        none,
        now,
    );
    let s5 = category_statement("message.reactions"@, "'reactions/' || reaction_state"@, none, now);
    let s6 = category_statement("message.mentions"@, "'mentions/' || mention_state"@, none, now);
    let s7 = category_statement("sender.scope"@, "'sender/' || sender_scope"@, none, now);
    let s8 = category_statement(
        "time.sent"@,
        "printf('time/%04d/%02d/%02d/%02d', sent_year, sent_month, sent_day, sent_hour)"@,
        " WHERE sent_year IS NOT NULL"@,
        now,
    );
    assert("SELECT message_id, '"@ + "message.kind"@ + "', "@ + "'kind/' || lower(message_kind)"@ + ", "@ =~= "SELECT message_id, 'message.kind', 'kind/' || lower(message_kind), "@) by {
        reveal_strlit("SELECT message_id, '");
        reveal_strlit("message.kind");
        reveal_strlit("', ");
        reveal_strlit("'kind/' || lower(message_kind)");
        reveal_strlit(", ");
        reveal_strlit("SELECT message_id, 'message.kind', 'kind/' || lower(message_kind), ");
    }
    lemma_statement_selects("message.kind"@, "'kind/' || lower(message_kind)"@, none, now);
    assert("SELECT message_id, '"@ + "message.text"@ + "', "@ + "'text/' || text_state"@ + ", "@ =~= "SELECT message_id, 'message.text', 'text/' || text_state, "@) by {
        reveal_strlit("SELECT message_id, '");
        reveal_strlit("message.text");
        reveal_strlit("', ");
        reveal_strlit("'text/' || text_state");
        reveal_strlit(", ");
        reveal_strlit("SELECT message_id, 'message.text', 'text/' || text_state, ");
    }
    lemma_statement_selects("message.text"@, "'text/' || text_state"@, none, now);
    assert("SELECT message_id, '"@ + "volume.body"@ + "', "@ + "'body/' || body_bucket"@ + ", "@ =~= "SELECT message_id, 'volume.body', 'body/' || body_bucket, "@) by {
        reveal_strlit("SELECT message_id, '");
        reveal_strlit("volume.body");
        reveal_strlit("', ");
        reveal_strlit("'body/' || body_bucket");
        reveal_strlit(", ");
        reveal_strlit("SELECT message_id, 'volume.body', 'body/' || body_bucket, ");
    }
    lemma_statement_selects("volume.body"@, "'body/' || body_bucket"@, none, now);
    assert("SELECT message_id, '"@ + "message.attachment"@ + "', "@ + "'attachment/' || attachment_class"@ + ", "@ =~= "SELECT message_id, 'message.attachment', 'attachment/' || attachment_class, "@) by {
        reveal_strlit("SELECT message_id, '");
        reveal_strlit("message.attachment");
        reveal_strlit("', ");
        reveal_strlit("'attachment/' || attachment_class");
        reveal_strlit(", ");
        reveal_strlit("SELECT message_id, 'message.attachment', 'attachment/' || attachment_class, ");
    }
    lemma_statement_selects("message.attachment"@, "'attachment/' || attachment_class"@, none, now);
    assert("SELECT message_id, '"@ + "message.reactions"@ + "', "@ + "'reactions/' || reaction_state"@ + ", "@ =~= "SELECT message_id, 'message.reactions', 'reactions/' || reaction_state, "@) by {
        reveal_strlit("SELECT message_id, '");
        reveal_strlit("message.reactions");
        reveal_strlit("', ");
        reveal_strlit("'reactions/' || reaction_state");
        reveal_strlit(", ");
        reveal_strlit("SELECT message_id, 'message.reactions', 'reactions/' || reaction_state, ");
    }
    lemma_statement_selects("message.reactions"@, "'reactions/' || reaction_state"@, none, now);
    assert("SELECT message_id, '"@ + "message.mentions"@ + "', "@ + "'mentions/' || mention_state"@ + ", "@ =~= "SELECT message_id, 'message.mentions', 'mentions/' || mention_state, "@) by {
        reveal_strlit("SELECT message_id, '");
        reveal_strlit("message.mentions");
        reveal_strlit("', ");
        reveal_strlit("'mentions/' || mention_state");
        reveal_strlit(", ");
        reveal_strlit("SELECT message_id, 'message.mentions', 'mentions/' || mention_state, ");
    }
    lemma_statement_selects("message.mentions"@, "'mentions/' || mention_state"@, none, now);
    assert("SELECT message_id, '"@ + "sender.scope"@ + "', "@ + "'sender/' || sender_scope"@ + ", "@ =~= "SELECT message_id, 'sender.scope', 'sender/' || sender_scope, "@) by {
        reveal_strlit("SELECT message_id, '");
        reveal_strlit("sender.scope");
        reveal_strlit("', ");
        reveal_strlit("'sender/' || sender_scope");
        reveal_strlit(", ");
        reveal_strlit("SELECT message_id, 'sender.scope', 'sender/' || sender_scope, ");
    }
    lemma_statement_selects("sender.scope"@, "'sender/' || sender_scope"@, none, now);
    assert("SELECT message_id, '"@ + "time.sent"@ + "', "@ + "printf('time/%04d/%02d/%02d/%02d', sent_year, sent_month, sent_day, sent_hour)"@ + ", "@ =~= "SELECT message_id, 'time.sent', printf('time/%04d/%02d/%02d/%02d', sent_year, sent_month, sent_day, sent_hour), "@) by {
        reveal_strlit("SELECT message_id, '");
        reveal_strlit("time.sent");
        reveal_strlit("', ");
        reveal_strlit("printf('time/%04d/%02d/%02d/%02d', sent_year, sent_month, sent_day, sent_hour)");
        reveal_strlit(", ");
        reveal_strlit("SELECT message_id, 'time.sent', printf('time/%04d/%02d/%02d/%02d', sent_year, sent_month, sent_day, sent_hour), ");
    }
    lemma_statement_selects("time.sent"@, "printf('time/%04d/%02d/%02d/%02d', sent_year, sent_month, sent_day, sent_hour)"@, " WHERE sent_year IS NOT NULL"@, now);
    let t2 = s1 + s2;
    let t3 = t2 + s3;
    let t4 = t3 + s4;
    let t5 = t4 + s5;
    let t6 = t5 + s6;
    let t7 = t6 + s7;
    lemma_found_stays(s1, "SELECT message_id, 'message.kind', 'kind/' || lower(message_kind), "@, s2);
    lemma_found_stays(t2, "SELECT message_id, 'message.kind', 'kind/' || lower(message_kind), "@, s3);
    lemma_found_stays(t3, "SELECT message_id, 'message.kind', 'kind/' || lower(message_kind), "@, s4);
    lemma_found_stays(t4, "SELECT message_id, 'message.kind', 'kind/' || lower(message_kind), "@, s5);
    lemma_found_stays(t5, "SELECT message_id, 'message.kind', 'kind/' || lower(message_kind), "@, s6);
    lemma_found_stays(t6, "SELECT message_id, 'message.kind', 'kind/' || lower(message_kind), "@, s7);
    lemma_found_stays(t7, "SELECT message_id, 'message.kind', 'kind/' || lower(message_kind), "@, s8);
    lemma_found_behind(s1, s2, "SELECT message_id, 'message.text', 'text/' || text_state, "@);
    lemma_found_stays(t2, "SELECT message_id, 'message.text', 'text/' || text_state, "@, s3);
    lemma_found_stays(t3, "SELECT message_id, 'message.text', 'text/' || text_state, "@, s4);
    lemma_found_stays(t4, "SELECT message_id, 'message.text', 'text/' || text_state, "@, s5);
    lemma_found_stays(t5, "SELECT message_id, 'message.text', 'text/' || text_state, "@, s6);
    lemma_found_stays(t6, "SELECT message_id, 'message.text', 'text/' || text_state, "@, s7);
    lemma_found_stays(t7, "SELECT message_id, 'message.text', 'text/' || text_state, "@, s8);
    lemma_found_behind(t2, s3, "SELECT message_id, 'volume.body', 'body/' || body_bucket, "@);
    lemma_found_stays(t3, "SELECT message_id, 'volume.body', 'body/' || body_bucket, "@, s4);
    lemma_found_stays(t4, "SELECT message_id, 'volume.body', 'body/' || body_bucket, "@, s5);
    lemma_found_stays(t5, "SELECT message_id, 'volume.body', 'body/' || body_bucket, "@, s6);
    lemma_found_stays(t6, "SELECT message_id, 'volume.body', 'body/' || body_bucket, "@, s7);
    lemma_found_stays(t7, "SELECT message_id, 'volume.body', 'body/' || body_bucket, "@, s8);
    lemma_found_behind(t3, s4, "SELECT message_id, 'message.attachment', 'attachment/' || attachment_class, "@);
    lemma_found_stays(t4, "SELECT message_id, 'message.attachment', 'attachment/' || attachment_class, "@, s5);
    lemma_found_stays(t5, "SELECT message_id, 'message.attachment', 'attachment/' || attachment_class, "@, s6);
    lemma_found_stays(t6, "SELECT message_id, 'message.attachment', 'attachment/' || attachment_class, "@, s7);
    lemma_found_stays(t7, "SELECT message_id, 'message.attachment', 'attachment/' || attachment_class, "@, s8);
    lemma_found_behind(t4, s5, "SELECT message_id, 'message.reactions', 'reactions/' || reaction_state, "@);
    lemma_found_stays(t5, "SELECT message_id, 'message.reactions', 'reactions/' || reaction_state, "@, s6);
    lemma_found_stays(t6, "SELECT message_id, 'message.reactions', 'reactions/' || reaction_state, "@, s7);
    lemma_found_stays(t7, "SELECT message_id, 'message.reactions', 'reactions/' || reaction_state, "@, s8);
    lemma_found_behind(t5, s6, "SELECT message_id, 'message.mentions', 'mentions/' || mention_state, "@);
    lemma_found_stays(t6, "SELECT message_id, 'message.mentions', 'mentions/' || mention_state, "@, s7);
    lemma_found_stays(t7, "SELECT message_id, 'message.mentions', 'mentions/' || mention_state, "@, s8);
    lemma_found_behind(t6, s7, "SELECT message_id, 'sender.scope', 'sender/' || sender_scope, "@);
    lemma_found_stays(t7, "SELECT message_id, 'sender.scope', 'sender/' || sender_scope, "@, s8);
    lemma_found_behind(t7, s8, "SELECT message_id, 'time.sent', printf('time/%04d/%02d/%02d/%02d', sent_year, sent_month, sent_day, sent_hour), "@);
}

/// A statement selects the given path for the given axis.
proof fn lemma_statement_selects(axis: Text, path: Text, condition: Text, now: int)
    ensures
        contains_text(
            category_statement(axis, path, condition, now),
            "SELECT message_id, '"@ + axis + "', "@ + path + ", "@,
        ),
{
    let head =
        "INSERT OR REPLACE INTO message_categories(message_id, axis, path, source, confidence, updated_at) "@;
    reveal_strlit(
        "INSERT OR REPLACE INTO message_categories(message_id, axis, path, source, confidence, updated_at) SELECT message_id, '",
    );
    reveal_strlit(
        "INSERT OR REPLACE INTO message_categories(message_id, axis, path, source, confidence, updated_at) ",
    );
    reveal_strlit("SELECT message_id, '");
    reveal_strlit(", 'derived', 1.0, ");
    reveal_strlit(", ");
    reveal_strlit("'derived', 1.0, ");
    let select = "SELECT message_id, '"@ + axis + "', "@ + path;
    let start =
        "INSERT OR REPLACE INTO message_categories(message_id, axis, path, source, confidence, updated_at) SELECT message_id, '"@
        + axis + "', "@ + path;
    assert(start =~= head + select);
    assert(", 'derived', 1.0, "@ =~= ", "@ + "'derived', 1.0, "@);
    let p = select + ", "@;
    assert(start + ", 'derived', 1.0, "@ =~= (head + p) + "'derived', 1.0, "@);
    lemma_end_is_found(head, p);
    lemma_found_stays(head + p, p, "'derived', 1.0, "@);
    let a1 = start + ", 'derived', 1.0, "@;
    let a2 = a1 + int_text(now);
    let a3 = a2 + " FROM message_dimensions"@;
    let a4 = a3 + condition;
    lemma_found_stays(a1, p, int_text(now));
    lemma_found_stays(a2, p, " FROM message_dimensions"@);
    lemma_found_stays(a3, p, condition);
    lemma_found_stays(a4, p, ";\n"@);
}

/// What `categorize` says names each number before the word for what was counted.
pub proof fn law_categorize_says_what_it_counted(summary: CategorizationSummary)
    ensures
        contains_text(
            summary.spec_summary(),
            "categorized "@ + int_text(summary.threads as int) + " threads and "@,
        ),
        contains_text(
            summary.spec_summary(),
            " and "@ + int_text(summary.messages as int) + " messages into "@,
        ),
        contains_text(
            summary.spec_summary(),
            " into "@ + int_text(summary.category_nodes as int) + " taxonomy nodes ("@,
        ),
        contains_text(
            summary.spec_summary(),
            "("@ + int_text(summary.thread_assignments as int) + " thread facets, "@,
        ),
        contains_text(
            summary.spec_summary(),
            ", "@ + int_text(summary.message_assignments as int) + " message facets)"@,
        ),
{
    let a = int_text(summary.threads as int);
    let b = int_text(summary.messages as int);
    let c = int_text(summary.category_nodes as int);
    let d = int_text(summary.thread_assignments as int);
    let e = int_text(summary.message_assignments as int);
    reveal_strlit(" threads and ");
    reveal_strlit(" threads");
    reveal_strlit(" and ");
    reveal_strlit(" messages into ");
    reveal_strlit(" messages");
    reveal_strlit(" into ");
    reveal_strlit(" taxonomy nodes (");
    reveal_strlit(" taxonomy nodes ");
    reveal_strlit("(");
    reveal_strlit(" thread facets, ");
    reveal_strlit(" thread facets");
    reveal_strlit(", ");
    assert(" threads and "@ =~= " threads"@ + " and "@);
    assert(" messages into "@ =~= " messages"@ + " into "@);
    assert(" taxonomy nodes ("@ =~= " taxonomy nodes "@ + "("@);
    assert(" thread facets, "@ =~= " thread facets"@ + ", "@);
    let s1 = "categorized "@ + a + " threads and "@;
    let s2 = s1 + b + " messages into "@;
    let s3 = s2 + c + " taxonomy nodes ("@;
    let s4 = s3 + d + " thread facets, "@;
    let p1 = s1;
    let p2 = " and "@ + b + " messages into "@;
    let p3 = " into "@ + c + " taxonomy nodes ("@;
    let p4 = "("@ + d + " thread facets, "@;
    let none = Seq::<char>::empty();
    lemma_end_is_found(none, p1);
    assert(none + p1 =~= p1);
    lemma_overlap_is_found("categorized "@ + a, " threads"@, " and "@, b, " messages into "@);
    lemma_overlap_is_found(s1 + b, " messages"@, " into "@, c, " taxonomy nodes ("@);
    lemma_overlap_is_found(s2 + c, " taxonomy nodes "@, "("@, d, " thread facets, "@);
    lemma_overlap_is_found(s3 + d, " thread facets"@, ", "@, e, " message facets)"@);
    lemma_two_more(s1, p1, b, " messages into "@);
    lemma_two_more(s2, p1, c, " taxonomy nodes ("@);
    lemma_two_more(s3, p1, d, " thread facets, "@);
    lemma_two_more(s4, p1, e, " message facets)"@);
    lemma_two_more(s2, p2, c, " taxonomy nodes ("@);
    lemma_two_more(s3, p2, d, " thread facets, "@);
    lemma_two_more(s4, p2, e, " message facets)"@);
    lemma_two_more(s3, p3, d, " thread facets, "@);
    lemma_two_more(s4, p3, e, " message facets)"@);
    lemma_two_more(s4, p4, e, " message facets)"@);
}

/// The number of categories of each axis is reported under the name of the axis, in the order given.
pub proof fn law_axes_are_reported_in_order(axes: Seq<(String, i64)>, i: int)
    requires
        0 <= i < axes.len(),
    ensures
        axes_view(axes) is Object,
        axes_view(axes)->Object_0.len() == axes.len(),
        axes_view(axes)->Object_0[i] == (
            axes[i].0@,
            JsonView::Number(number_of(axes[i].1 as int)),
        ),
{
}

/// What `categorize` reports holds the numbers of the whole and each category that was counted, in
/// the order given.
pub proof fn law_categories_are_reported_in_order(
    summary: CategorizationSummary,
    counts: Seq<CategoryCountRow>,
    i: int,
)
    ensures
        json_get(categorize_report_view(summary, counts), "summary"@) == Some(
            summary.spec_report(),
        ),
        json_get(categorize_report_view(summary, counts), "counts"@) is Some,
        ({
            let listed = json_get(categorize_report_view(summary, counts), "counts"@)->0;
            &&& listed is Array
            &&& listed->Array_0.len() == counts.len()
            &&& 0 <= i < counts.len() ==> listed->Array_0[i] == count_view(counts[i])
        }),
{
    reveal_strlit("summary");
    reveal_strlit("counts");
    let fields = categorize_report_view(summary, counts)->Object_0;
    assert(fields[0].0 == "summary"@);
    lemma_field_at(fields, 0);
    assert(fields[1].0 == "counts"@);
    assert("summary"@.len() != "counts"@.len());
    lemma_field_at(fields, 1);
}

} // verus!
