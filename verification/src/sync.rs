//! Fetching conversations and their history page by page. A [`SyncRun`] decides what is to be asked
//! for next; the answers are handed back to it.
use vstd::prelude::*;

use crate::cli::{SyncArgs, SyncView};
use crate::error::{outcome, simple_error, SimpleError};
use crate::json::{
    json_get, json_opt_int, json_texts, lemma_array_view, lemma_field_at, number_of, views, Fields,
    JsonValue, JsonView,
};
use crate::number::{int_text, opt_int, usize_text};
use crate::records::{
    by_time, law_by_time_sorts, message_key, message_time, millisecond_before, of_time,
    opt_just_before, record_time, sort_by_time, thread_time, MessageRecord, ThreadRecord,
};
use crate::text::{
    contains_text, copy_list, lemma_end_is_found, lemma_overlap_is_found, lemma_texts_push,
    lemma_two_more, list_has, same, texts, Text,
};

verus! {

/// A thread is complete when no fewer messages are stored than the other side counts.
pub open spec fn history_complete(remote: Option<int>, stored: int) -> bool {
    match remote {
        Some(n) => n <= stored,
        None => false,
    }
}

/// A thread is complete when no fewer messages are stored than the other side counts.
pub fn is_history_complete(
    remote_message_count: Option<i64>,
    stored_message_count: i64,
) -> (r: bool)
    ensures
        r == history_complete(opt_int(remote_message_count), stored_message_count as int),
{
    match remote_message_count {
        Some(n) => n <= stored_message_count,
        None => false,
    }
}

/// The values of some groups of strings.
pub open spec fn groups_view(groups: Seq<Vec<String>>) -> Seq<Seq<Text>> {
    groups.map_values(|g: Vec<String>| texts(g@))
}

/// The groups of folders to go through, one after the other: all reachable folders, each by itself,
/// where everything is wanted and no other choice of folders was made; or else the folders that
/// were named, together.
pub open spec fn tag_groups(all: bool, tags: Seq<Text>) -> Seq<Seq<Text>> {
    if all && tags == seq!["INBOX"@] {
        seq![
            seq!["INBOX"@],
            seq!["ARCHIVED"@],
            seq!["OTHER"@],
            seq!["PENDING"@],
            seq!["SPAM"@],
        ]
    } else {
        seq![tags]
    }
}

/// The group of one folder.
fn single(tag: &str) -> (r: Vec<String>)
    ensures
        texts(r@) == seq![tag@],
{
    let r = vec![tag.to_owned()];
    proof {
        assert(texts(r@) =~= seq![tag@]);
    }
    r
}

/// The groups of folders to go through, one after the other.
pub fn sync_tag_groups(all: bool, tags: &[String]) -> (r: Vec<Vec<String>>)
    ensures
        groups_view(r@) == tag_groups(all, texts(tags@)),
{
    let usual = tags.len() == 1 && same(tags[0].as_str(), "INBOX");
    proof {
        assert(texts(tags@).len() == tags@.len());
        if tags@.len() == 1 {
            assert(texts(tags@)[0] == tags@[0]@);
            assert(usual ==> texts(tags@) =~= seq!["INBOX"@]);
        }
        assert(texts(tags@) == seq!["INBOX"@] ==> tags@.len() == 1 && texts(tags@)[0]
            == "INBOX"@);
        assert(usual == (texts(tags@) == seq!["INBOX"@]));
    }
    if all && usual {
        let r = vec![
            single("INBOX"),
            single("ARCHIVED"),
            single("OTHER"),
            single("PENDING"),
            single("SPAM"),
        ];
        proof {
            assert(groups_view(r@) =~= tag_groups(all, texts(tags@)));
        }
        r
    } else {
        let r = vec![copy_list(tags)];
        proof {
            assert(groups_view(r@) =~= tag_groups(all, texts(tags@)));
        }
        r
    }
}

/// The earliest of the times at which the threads were last changed.
pub open spec fn oldest_time(threads: Seq<ThreadRecord>) -> Option<int>
    decreases threads.len(),
{
    if threads.len() == 0 {
        None
    } else {
        let rest = oldest_time(threads.drop_last());
        match (rest, thread_time(threads.last())) {
            (Some(a), Some(b)) => Some(if b < a { b } else { a }),
            (None, Some(b)) => Some(b),
            (a, None) => a,
        }
    }
}

/// Where the page behind these threads begins: just before the earliest of them.
pub open spec fn thread_cursor(threads: Seq<ThreadRecord>) -> Option<int> {
    opt_just_before(oldest_time(threads))
}

/// Where the page behind these threads begins.
pub fn next_thread_before(threads: &[ThreadRecord]) -> (r: Option<i64>)
    ensures
        opt_int(r) == thread_cursor(threads@),
{
    let mut oldest: Option<i64> = None;
    let mut i: usize = 0;
    while i < threads.len()
        invariant
            0 <= i <= threads@.len(),
            opt_int(oldest) == oldest_time(threads@.take(i as int)),
        decreases threads@.len() - i,
    {
        let time = record_time(&threads[i].timestamp);
        proof {
            assert(threads@.take(i + 1).drop_last() =~= threads@.take(i as int));
            assert(threads@.take(i + 1).last() == threads@[i as int]);
        }
        oldest =
        match (oldest, time) {
            (Some(a), Some(b)) => Some(
                if b < a {
                    b
                } else {
                    a
                },
            ),
            (None, Some(b)) => Some(b),
            (a, None) => a,
        };
        i += 1;
    }
    proof {
        assert(threads@.take(threads@.len() as int) =~= threads@);
    }
    match oldest {
        Some(t) => Some(millisecond_before(t)),
        None => None,
    }
}

proof fn lemma_oldest_time(threads: Seq<ThreadRecord>, i: int)
    requires
        0 <= i < threads.len(),
        thread_time(threads[i]) is Some,
    ensures
        oldest_time(threads) is Some,
        oldest_time(threads)->0 <= thread_time(threads[i])->0,
    decreases threads.len(),
{
    if i < threads.len() - 1 {
        lemma_oldest_time(threads.drop_last(), i);
    }
}

/// The next page of threads is asked for before all threads of this one.
pub proof fn law_thread_pages_go_back(threads: Seq<ThreadRecord>, i: int)
    requires
        0 <= i < threads.len(),
        thread_time(threads[i]) is Some,
        thread_time(threads[i])->0 > i64::MIN,
    ensures
        thread_cursor(threads) is Some,
        thread_cursor(threads)->0 < thread_time(threads[i])->0,
{
    lemma_oldest_time(threads, i);
}

/// Another page of the history is wanted: the whole history is, this page was a full one, and the
/// limit on pages is not reached.
pub open spec fn goes_on(
    full: bool,
    pages: int,
    max_pages: int,
    page_len: int,
    page_size: int,
) -> bool {
    full && page_len >= page_size && (max_pages == 0 || pages < max_pages)
}

/// Another page of the history is wanted.
pub fn should_continue_history(
    full: bool,
    pages_completed: usize,
    max_pages: usize,
    page_len: usize,
    page_size: usize,
) -> (r: bool)
    ensures
        r == goes_on(
            full,
            pages_completed as int,
            max_pages as int,
            page_len as int,
            page_size as int,
        ),
{
    full && page_len >= page_size && (max_pages == 0 || pages_completed < max_pages)
}

/// What a run is waiting for.
#[derive(Clone, Copy, Debug)]
enum Phase {
    /// A page of the threads in a group of folders.
    Listing { group: usize, before: Option<i64> },
    /// What the archive holds of a thread.
    Checking { at: usize },
    /// The time of the earliest stored message of a thread.
    Resuming { at: usize },
    /// A page of the messages of a thread.
    Reading { at: usize, before: Option<i64>, pages: usize },
    /// Nothing more.
    Done,
}

/// What a run is waiting for, in numbers without bounds.
pub enum PhaseView {
    Listing { group: int, before: Option<int> },
    Checking { at: int },
    Resuming { at: int },
    Reading { at: int, before: Option<int>, pages: int },
    Done,
}

impl View for Phase {
    type V = PhaseView;

    closed spec fn view(&self) -> PhaseView {
        match *self {
            Phase::Listing { group, before } => PhaseView::Listing {
                group: group as int,
                before: opt_int(before),
            },
            Phase::Checking { at } => PhaseView::Checking { at: at as int },
            Phase::Resuming { at } => PhaseView::Resuming { at: at as int },
            Phase::Reading { at, before, pages } => PhaseView::Reading {
                at: at as int,
                before: opt_int(before),
                pages: pages as int,
            },
            Phase::Done => PhaseView::Done,
        }
    }
}

/// A run of `sync`.
#[derive(Debug)]
pub struct SyncRun {
    /// What was asked for.
    args: SyncArgs,
    /// The groups of folders to go through.
    groups: Vec<Vec<String>>,
    /// The threads found, in the order in which they were found.
    ids: Vec<String>,
    /// The messages stored.
    messages: usize,
    /// The pages of threads asked for.
    thread_pages: usize,
    /// The pages of messages received.
    history_pages: usize,
    /// The threads whose messages were asked for.
    processed: usize,
    /// The threads passed over as complete.
    skipped: usize,
    /// What the run is waiting for.
    phase: Phase,
}

/// The values of [`SyncRun`].
#[verifier::ext_equal]
pub struct RunView {
    pub args: SyncView,
    pub groups: Seq<Seq<Text>>,
    pub ids: Seq<Text>,
    pub messages: int,
    pub thread_pages: int,
    pub history_pages: int,
    pub processed: int,
    pub skipped: int,
    pub phase: PhaseView,
}

impl View for SyncRun {
    type V = RunView;

    closed spec fn view(&self) -> RunView {
        RunView {
            args: self.args@,
            groups: groups_view(self.groups@),
            ids: texts(self.ids@),
            messages: self.messages as int,
            thread_pages: self.thread_pages as int,
            history_pages: self.history_pages as int,
            processed: self.processed as int,
            skipped: self.skipped as int,
            phase: self.phase@,
        }
    }
}

impl RunView {
    /// The whole history of each thread is wanted.
    pub open spec fn full_history(self) -> bool {
        self.args.full || self.args.all
    }

    /// The most pages of one thread, 0 for no limit.
    pub open spec fn page_limit(self) -> int {
        if self.args.all {
            0
        } else {
            self.args.max_pages as int
        }
    }

    /// The most pages that are asked for of one thread in this run, 0 for no limit.
    pub open spec fn pages_per_thread(self) -> int {
        if self.full_history() {
            self.page_limit()
        } else {
            1
        }
    }

    /// No more pages were received than the limit on pages allows for the threads taken up.
    pub open spec fn bounded(self) -> bool {
        let limit = self.pages_per_thread();
        limit > 0 ==> match self.phase {
            PhaseView::Listing { group, before } => self.history_pages == 0,
            PhaseView::Checking { at } => self.history_pages <= self.processed * limit,
            PhaseView::Resuming { at } => self.history_pages <= (self.processed - 1) * limit,
            PhaseView::Reading { at, before, pages } => self.history_pages <= (self.processed - 1)
                * limit + pages - 1,
            PhaseView::Done => self.history_pages <= self.processed * limit,
        }
    }

    /// The number of threads that were fetched; a thread that was named is not.
    pub open spec fn threads(self) -> int {
        if self.args.thread_id is Some {
            0
        } else {
            self.ids.len() as int
        }
    }

    /// What holds of a run at all times.
    pub open spec fn wf(self) -> bool {
        &&& self.args.threads > 0
        &&& self.args.messages > 0
        &&& self.groups == tag_groups(self.args.all, self.args.tags)
        &&& self.ids.no_duplicates()
        &&& self.messages >= 0
        &&& self.thread_pages >= 0
        &&& self.history_pages >= 0
        &&& self.processed >= 0
        &&& self.skipped >= 0
        &&& self.args.history_threads > 0 ==> self.processed <= self.args.history_threads
        &&& self.bounded()
        &&& match self.args.thread_id {
            Some(id) => self.ids == seq![id] && self.thread_pages == 0 && !(self.phase is Listing),
            None => self.thread_pages >= 1,
        }
        &&& match self.phase {
            PhaseView::Listing { group, before } => {
                &&& 0 <= group < self.groups.len()
                &&& self.processed == 0
                &&& self.skipped == 0
                &&& self.thread_pages > group
                &&& self.within_cap()
                &&& !self.args.all ==> self.thread_pages == group + 1
            },
            PhaseView::Checking { at } => {
                &&& 0 <= at < self.ids.len()
                &&& self.processed + self.skipped == at
                &&& self.listed()
            },
            PhaseView::Resuming { at } => {
                &&& 0 <= at < self.ids.len()
                &&& self.processed + self.skipped == at + 1
                &&& self.listed()
            },
            PhaseView::Reading { at, before, pages } => {
                &&& 0 <= at < self.ids.len()
                &&& self.processed + self.skipped == at + 1
                &&& pages >= 1
                &&& self.page_limit() > 0 ==> pages <= self.page_limit()
                &&& !self.full_history() ==> pages == 1
                &&& self.listed()
            },
            PhaseView::Done => {
                &&& self.processed + self.skipped <= self.ids.len()
                &&& self.processed + self.skipped == self.ids.len() || (self.args.history_threads
                    > 0 && self.processed == self.args.history_threads)
                &&& self.listed()
            },
        }
    }

    /// There is a limit on the pages of threads, and no page is left of it.
    pub open spec fn at_cap(self) -> bool {
        self.args.max_thread_pages > 0 && self.thread_pages >= self.args.max_thread_pages
    }

    /// No more pages of threads were asked for than the limit on them allows.
    pub open spec fn within_cap(self) -> bool {
        self.args.all && self.args.max_thread_pages > 0 && self.args.thread_id is None
            ==> self.thread_pages <= self.args.max_thread_pages
    }

    /// What holds once the threads are listed: each group of folders was asked for at least once,
    /// unless the limit on pages ended the listing.
    pub open spec fn listed(self) -> bool {
        self.args.thread_id is None ==> {
            &&& self.thread_pages >= self.groups.len() || self.at_cap()
            &&& self.within_cap()
            &&& !self.args.all ==> self.thread_pages == 1
        }
    }

    /// The counters have room for a page of the given length.
    pub open spec fn has_room(self, page_len: int) -> bool {
        &&& self.messages + page_len <= usize::MAX
        &&& self.thread_pages < usize::MAX
        &&& self.history_pages < usize::MAX
        &&& match self.phase {
            PhaseView::Reading { at, before, pages } => pages < usize::MAX,
            _ => true,
        }
    }

    /// The run when it comes to the thread in the given place, or is done where there is none.
    pub open spec fn at_thread(self, at: int) -> RunView {
        RunView {
            phase: if at < self.ids.len() {
                PhaseView::Checking { at }
            } else {
                PhaseView::Done
            },
            ..self
        }
    }

    /// The run when it is through with a group of folders.
    pub open spec fn after_group(self, group: int) -> RunView {
        if group + 1 < self.groups.len() {
            RunView {
                thread_pages: self.thread_pages + 1,
                phase: PhaseView::Listing { group: group + 1, before: None },
                ..self
            }
        } else {
            self.at_thread(0)
        }
    }

    /// The run when it has a page of threads. The limit on pages is one on the whole listing, not
    /// on each group of folders.
    pub open spec fn after_threads(self, page: Seq<ThreadRecord>) -> RunView {
        match self.phase {
            PhaseView::Listing { group, before } => {
                let cursor = thread_cursor(page);
                let seen = RunView { ids: with_ids(self.ids, page), ..self };
                if self.at_cap() {
                    seen.at_thread(0)
                } else if page.len() == 0 || !self.args.all || page.len() < self.args.threads
                    || cursor is None {
                    seen.after_group(group)
                } else {
                    RunView {
                        thread_pages: self.thread_pages + 1,
                        phase: PhaseView::Listing { group, before: cursor },
                        ..seen
                    }
                }
            },
            _ => self,
        }
    }

    /// The run when it knows what the archive holds of a thread: a complete one is passed over;
    /// another one is taken up as long as the limit on threads is not reached.
    pub open spec fn after_check(self, marked: bool, remote: Option<int>, stored: int) -> RunView {
        match self.phase {
            PhaseView::Checking { at } => if marked || history_complete(remote, stored) {
                RunView { skipped: self.skipped + 1, ..self }.at_thread(at + 1)
            } else if self.args.history_threads > 0 && self.processed >= self.args.history_threads {
                RunView { phase: PhaseView::Done, ..self }
            } else {
                RunView {
                    processed: self.processed + 1,
                    phase: PhaseView::Resuming { at },
                    ..self
                }
            },
            _ => self,
        }
    }

    /// The run when it knows the time of the earliest stored message: it goes on just before it.
    pub open spec fn after_earliest(self, earliest: Option<int>) -> RunView {
        match self.phase {
            PhaseView::Resuming { at } => RunView {
                phase: PhaseView::Reading { at, before: opt_just_before(earliest), pages: 1 },
                ..self
            },
            _ => self,
        }
    }

    /// The run when it has a page of messages.
    pub open spec fn after_history(self, page: Seq<MessageRecord>) -> RunView {
        match self.phase {
            PhaseView::Reading { at, before, pages } => if page.len() == 0 {
                self.at_thread(at + 1)
            } else {
                let counted = RunView {
                    history_pages: self.history_pages + 1,
                    messages: self.messages + page.len(),
                    ..self
                };
                if goes_on(
                    self.full_history(),
                    pages,
                    self.page_limit(),
                    page.len() as int,
                    self.args.messages as int,
                ) {
                    RunView {
                        phase: PhaseView::Reading {
                            at,
                            before: history_cursor(page),
                            pages: pages + 1,
                        },
                        ..counted
                    }
                } else {
                    counted.at_thread(at + 1)
                }
            },
            _ => self,
        }
    }

    /// What is noted of a thread when a page of its messages is there: where the next page begins,
    /// and that the history is complete when there was nothing more, or a short page while the
    /// whole history is wanted.
    pub open spec fn mark(self, page: Seq<MessageRecord>) -> MarkView {
        match self.phase {
            PhaseView::Reading { at, before, pages } => if page.len() == 0 {
                MarkView { thread_id: self.ids[at], before, complete: true }
            } else {
                MarkView {
                    thread_id: self.ids[at],
                    before: history_cursor(page),
                    complete: self.full_history() && page.len() < self.args.messages,
                }
            },
            _ => MarkView { thread_id: Seq::empty(), before: None, complete: false },
        }
    }
}

/// The identifiers with those of the threads added that are not among them yet.
pub open spec fn with_ids(ids: Seq<Text>, page: Seq<ThreadRecord>) -> Seq<Text>
    decreases page.len(),
{
    if page.len() == 0 {
        ids
    } else {
        let rest = with_ids(ids, page.drop_last());
        let id = page.last().thread_id@;
        if rest.contains(id) {
            rest
        } else {
            rest.push(id)
        }
    }
}

/// Where the page behind these messages begins: just before the earliest of them.
pub open spec fn history_cursor(page: Seq<MessageRecord>) -> Option<int> {
    opt_just_before(message_time(by_time(page)[0]))
}

/// What is to be noted of a thread.
#[derive(Debug)]
pub struct HistoryMark {
    pub thread_id: String,
    pub before: Option<i64>,
    pub complete: bool,
}

/// The values of [`HistoryMark`].
pub struct MarkView {
    pub thread_id: Text,
    pub before: Option<int>,
    pub complete: bool,
}

impl View for HistoryMark {
    type V = MarkView;

    open spec fn view(&self) -> MarkView {
        MarkView {
            thread_id: self.thread_id@,
            before: opt_int(self.before),
            complete: self.complete,
        }
    }
}

proof fn lemma_with_ids(ids: Seq<Text>, page: Seq<ThreadRecord>)
    requires
        ids.no_duplicates(),
    ensures
        with_ids(ids, page).no_duplicates(),
        with_ids(ids, page).len() >= ids.len(),
        forall|i: int| 0 <= i < ids.len() ==> #[trigger] with_ids(ids, page)[i] == ids[i],
    decreases page.len(),
{
    if page.len() > 0 {
        lemma_with_ids(ids, page.drop_last());
    }
}

/// Every thread of a page is among the identifiers, once, and those found before keep their place.
pub proof fn law_threads_are_listed_once(ids: Seq<Text>, page: Seq<ThreadRecord>, i: int)
    requires
        ids.no_duplicates(),
        0 <= i < page.len(),
    ensures
        with_ids(ids, page).no_duplicates(),
        with_ids(ids, page).contains(page[i].thread_id@),
        with_ids(ids, page).len() >= ids.len(),
        with_ids(ids, page).subrange(0, ids.len() as int) == ids,
    decreases page.len(),
{
    lemma_with_ids(ids, page);
    assert(with_ids(ids, page).subrange(0, ids.len() as int) =~= ids);
    let rest = with_ids(ids, page.drop_last());
    if i < page.len() - 1 {
        law_threads_are_listed_once(ids, page.drop_last(), i);
        let k = choose|k: int| 0 <= k < rest.len() && rest[k] == page[i].thread_id@;
        assert(with_ids(ids, page)[k] == page[i].thread_id@);
    } else if !rest.contains(page[i].thread_id@) {
        assert(with_ids(ids, page).last() == page[i].thread_id@);
        assert(with_ids(ids, page)[with_ids(ids, page).len() - 1] == page[i].thread_id@);
    }
}

/// A run keeps its invariant when it comes to the next group of folders before the limit on pages
/// is reached.
proof fn lemma_after_group(run: RunView, group: int)
    requires
        run.wf(),
        run.phase matches PhaseView::Listing { group: g, before: b } && g == group,
        !run.at_cap(),
    ensures
        run.after_group(group).wf(),
{
}

/// A run keeps its invariant, whatever the answers are.
pub proof fn law_run_stays_valid(
    run: RunView,
    threads: Seq<ThreadRecord>,
    marked: bool,
    remote: Option<int>,
    stored: int,
    earliest: Option<int>,
    messages: Seq<MessageRecord>,
)
    requires
        run.wf(),
    ensures
        run.after_threads(threads).wf(),
        run.after_check(marked, remote, stored).wf(),
        run.after_earliest(earliest).wf(),
        run.after_history(messages).wf(),
{
    lemma_with_ids(run.ids, threads);
    match run.phase {
        PhaseView::Listing { group, before } => {
            let seen = RunView { ids: with_ids(run.ids, threads), ..run };
            if !run.at_cap() {
                lemma_after_group(seen, group);
            }
        },
        _ => {},
    }
    lemma_budget(run.processed, run.pages_per_thread());
}

/// One more thread allows for as many more pages as the limit says.
proof fn lemma_budget(processed: int, limit: int)
    ensures
        (processed - 1) * limit + limit == processed * limit,
        (processed + 1 - 1) * limit == processed * limit,
        0 * limit == 0,
        processed >= 0 && limit > 0 ==> processed * limit >= 0,
{
    assert((processed - 1) * limit + limit == processed * limit) by (nonlinear_arith);
    assert(processed >= 0 && limit > 0 ==> processed * limit >= 0) by (nonlinear_arith);
}

/// No more pages of threads are asked for than the limit on them allows, in all groups of folders
/// together.
pub proof fn law_thread_pages_are_capped(run: RunView)
    requires
        run.wf(),
        run.args.all,
        run.args.max_thread_pages > 0,
    ensures
        run.thread_pages <= run.args.max_thread_pages,
{
}

/// The page that reaches the limit is the last one: what follows it are the threads.
pub proof fn law_cap_ends_the_listing(run: RunView, page: Seq<ThreadRecord>)
    requires
        run.wf(),
        run.phase is Listing,
        run.at_cap(),
    ensures
        run.after_threads(page) == (RunView { ids: with_ids(run.ids, page), ..run }).at_thread(0),
        !(run.after_threads(page).phase is Listing),
{
}

/// As long as the limit on pages is not reached, no group of folders is passed over: a page leads to
/// another one of its group, to the group behind it, or, from the last group only, to the threads.
pub proof fn law_every_group_is_listed(run: RunView, page: Seq<ThreadRecord>)
    requires
        run.wf(),
        run.phase is Listing,
        !run.at_cap(),
    ensures
        ({
            let group = run.phase->Listing_group;
            match run.after_threads(page).phase {
                PhaseView::Listing { group: next, before } => next == group || next == group + 1,
                _ => group == run.groups.len() - 1,
            }
        }),
{
}

/// A history that is wanted whole, without a limit, is read on as long as the pages are full.
pub proof fn law_full_pages_are_followed(run: RunView, page: Seq<MessageRecord>)
    requires
        run.wf(),
        run.phase is Reading,
        run.full_history(),
        run.page_limit() == 0,
        page.len() >= run.args.messages,
    ensures
        run.after_history(page).phase == (PhaseView::Reading {
            at: run.phase->Reading_at,
            before: history_cursor(page),
            pages: run.phase->pages + 1,
        }),
{
}

/// A run that is done has received no more pages than the limit on pages allows for the threads
/// taken up: without further wishes one page of each.
pub proof fn law_run_is_bounded(run: RunView)
    requires
        run.wf(),
        run.phase is Done,
    ensures
        run.pages_per_thread() > 0 ==> run.history_pages <= run.processed * run.pages_per_thread(),
        !run.args.all && !run.args.full ==> run.history_pages <= run.processed,
        run.args.history_threads > 0 ==> run.processed <= run.args.history_threads,
        run.processed + run.skipped <= run.ids.len(),
        run.args.history_threads == 0 ==> run.processed + run.skipped == run.ids.len(),
{
    lemma_budget(run.processed, run.pages_per_thread());
    if !run.args.all && !run.args.full {
        assert(run.processed * 1 == run.processed);
    }
}

impl RunView {
    /// The most pages of threads that may still be asked for.
    pub open spec fn thread_pages_left(self) -> int {
        let limit = if self.args.all {
            self.args.max_thread_pages as int
        } else {
            1
        };
        limit - self.thread_pages
    }

    /// The most answers that the threads at hand may still need.
    pub open spec fn answers_left(self) -> int {
        let each = self.pages_per_thread() + 3;
        match self.phase {
            PhaseView::Listing { group, before } => 0,
            PhaseView::Checking { at } => (self.ids.len() - at) * each,
            PhaseView::Resuming { at } => (self.ids.len() - at) * each - 1,
            PhaseView::Reading { at, before, pages } => (self.ids.len() - at) * each - 1 - pages,
            PhaseView::Done => 0,
        }
    }
}

/// Listing comes to an end where there is a limit on its pages: each page leaves fewer to be asked
/// for, or is the last.
pub proof fn law_listing_ends(run: RunView, page: Seq<ThreadRecord>)
    requires
        run.wf(),
        run.phase is Listing,
        run.args.all ==> run.args.max_thread_pages > 0,
    ensures
        run.thread_pages_left() >= 0,
        run.after_threads(page).phase is Listing ==> 0 <= run.after_threads(
            page,
        ).thread_pages_left() < run.thread_pages_left(),
{
}

/// Reading comes to an end where there is a limit on the pages of a thread: each answer leaves
/// fewer to wait for.
pub proof fn law_reading_ends(
    run: RunView,
    marked: bool,
    remote: Option<int>,
    stored: int,
    earliest: Option<int>,
    page: Seq<MessageRecord>,
)
    requires
        run.wf(),
        run.pages_per_thread() > 0,
    ensures
        run.phase is Checking ==> 0 <= run.after_check(marked, remote, stored).answers_left()
            < run.answers_left(),
        run.phase is Resuming ==> 0 <= run.after_earliest(earliest).answers_left()
            < run.answers_left(),
        run.phase is Reading ==> 0 <= run.after_history(page).answers_left() < run.answers_left(),
{
    let each = run.pages_per_thread() + 3;
    let n = run.ids.len() as int;
    match run.phase {
        PhaseView::Checking { at } => {
            lemma_share(n - at, each);
        },
        PhaseView::Resuming { at } => {
            lemma_share(n - at, each);
        },
        PhaseView::Reading { at, before, pages } => {
            lemma_share(n - at, each);
        },
        _ => {},
    }
}

/// What one thread less leaves.
proof fn lemma_share(threads: int, each: int)
    requires
        threads >= 1,
        each >= 0,
    ensures
        threads * each == (threads - 1) * each + each,
        (threads - 1) * each >= 0,
{
    assert(threads * each == (threads - 1) * each + each) by (nonlinear_arith);
    assert((threads - 1) * each >= 0) by (nonlinear_arith)
        requires
            threads >= 1,
            each >= 0,
    ;
}

/// A complete thread is passed over: none of its messages are asked for.
pub proof fn law_complete_threads_are_passed_over(
    run: RunView,
    marked: bool,
    remote: Option<int>,
    stored: int,
)
    requires
        run.wf(),
        run.phase is Checking,
        marked || history_complete(remote, stored),
    ensures
        ({
            let next = run.after_check(marked, remote, stored);
            &&& next.processed == run.processed
            &&& next.skipped == run.skipped + 1
            &&& next.phase == (if run.phase->Checking_at + 1 < run.ids.len() {
                PhaseView::Checking { at: run.phase->Checking_at + 1 }
            } else {
                PhaseView::Done
            })
        }),
{
}

/// The next page of messages is asked for before all messages of this one, where the earliest of
/// them has a time.
pub proof fn law_history_pages_go_back(page: Seq<MessageRecord>, i: int)
    requires
        0 <= i < page.len(),
        message_time(by_time(page)[0]) is Some,
        message_time(by_time(page)[i]) is Some,
        message_time(by_time(page)[i])->0 > i64::MIN,
    ensures
        history_cursor(page) is Some,
        history_cursor(page)->0 < message_time(by_time(page)[i])->0,
{
    law_by_time_sorts(page, 0);
    reveal(message_key);
    assert(message_key(by_time(page)[0]) <= message_key(by_time(page)[i]));
}

/// A run that is taken up again asks for what lies before the earliest stored message.
pub proof fn law_run_resumes_before_the_earliest(run: RunView, earliest: int)
    requires
        run.wf(),
        run.phase is Resuming,
        earliest > i64::MIN,
    ensures
        run.after_earliest(Some(earliest)).phase == (PhaseView::Reading {
            at: run.phase->Resuming_at,
            before: Some(earliest - 1),
            pages: 1,
        }),
{
}

/// A thread is noted as complete exactly when the page was empty, or a short one while the whole
/// history is wanted; then no more of it is asked for.
pub proof fn law_marked_complete(run: RunView, page: Seq<MessageRecord>)
    requires
        run.wf(),
        run.phase is Reading,
    ensures
        run.mark(page).complete <==> page.len() == 0 || (run.full_history() && page.len()
            < run.args.messages),
        run.mark(page).complete ==> (run.after_history(page).phase is Checking || run.after_history(
            page,
        ).phase is Done),
        run.mark(page).thread_id == run.ids[run.phase->Reading_at],
{
}

impl RunView {
    /// The place of the thread that the run is at.
    pub open spec fn place(self) -> int {
        match self.phase {
            PhaseView::Listing { .. } => -1,
            PhaseView::Checking { at } => at,
            PhaseView::Resuming { at } => at,
            PhaseView::Reading { at, .. } => at,
            PhaseView::Done => self.ids.len() as int,
        }
    }

    /// The run when it has an answer to what it wanted.
    pub open spec fn answered(self, answer: Answer) -> RunView {
        match self.phase {
            PhaseView::Listing { .. } => self.after_threads(answer.threads),
            PhaseView::Checking { .. } => self.after_check(
                answer.marked,
                answer.remote,
                answer.stored,
            ),
            PhaseView::Resuming { .. } => self.after_earliest(answer.earliest),
            PhaseView::Reading { .. } => self.after_history(answer.messages),
            PhaseView::Done => self,
        }
    }

    /// The run when it has all these answers.
    pub open spec fn answered_all(self, answers: Seq<Answer>) -> RunView
        decreases answers.len(),
    {
        if answers.len() == 0 {
            self
        } else {
            self.answered(answers[0]).answered_all(answers.skip(1))
        }
    }

    /// The threads that are looked up in the archive while these answers come.
    pub open spec fn threads_checked(self, answers: Seq<Answer>) -> Seq<Text>
        decreases answers.len(),
    {
        if answers.len() == 0 {
            Seq::empty()
        } else {
            let rest = self.answered(answers[0]).threads_checked(answers.skip(1));
            match self.wanted_action() {
                ActionView::CheckThread { thread_id } => seq![thread_id] + rest,
                _ => rest,
            }
        }
    }
}

/// An answer to whatever a run may want: what it is not about is passed over.
pub struct Answer {
    pub threads: Seq<ThreadRecord>,
    pub marked: bool,
    pub remote: Option<int>,
    pub stored: int,
    pub earliest: Option<int>,
    pub messages: Seq<MessageRecord>,
}

/// A run goes through the threads one by one: an answer leaves it at the thread that it is at, or
/// leads to the one behind it; only behind the last one, or at the limit on threads, is it done.
pub proof fn law_threads_are_taken_in_turn(run: RunView, answer: Answer)
    requires
        run.wf(),
        !(run.phase is Listing),
        !(run.phase is Done),
    ensures
        ({
            let next = run.answered(answer);
            &&& next.ids == run.ids
            &&& match next.phase {
                PhaseView::Listing { .. } => false,
                PhaseView::Checking { at } => at == run.place() + 1,
                PhaseView::Resuming { at } => at == run.place() && run.phase is Checking,
                PhaseView::Reading { at, .. } => at == run.place() && !(run.phase is Checking),
                PhaseView::Done => run.place() == run.ids.len() - 1 || (run.phase is Checking
                    && run.args.history_threads > 0 && run.processed == run.args.history_threads),
            }
        }),
{
}

/// What a run wants while it is at a thread is about that thread.
pub proof fn law_actions_are_about_the_thread(run: RunView)
    requires
        run.wf(),
        0 <= run.place() < run.ids.len(),
    ensures
        match run.wanted_action() {
            ActionView::CheckThread { thread_id } => run.phase is Checking && thread_id
                == run.ids[run.place()],
            ActionView::FindEarliest { thread_id } => run.phase is Resuming && thread_id
                == run.ids[run.place()],
            ActionView::FetchHistory { thread_id, amount, before } => run.phase is Reading
                && thread_id == run.ids[run.place()] && amount == run.args.messages && before
                == run.phase->Reading_before,
            _ => false,
        },
{
}

/// Every listed thread is looked up in the archive, once, in the order of the list: those looked up
/// from the first one on until the run is done are all that were listed, unless there is a limit on
/// threads.
pub proof fn law_every_listed_thread_is_checked(run: RunView, answers: Seq<Answer>)
    requires
        run.wf(),
        run.args.history_threads == 0,
        !(run.phase is Listing),
        run.answered_all(answers).phase is Done,
    ensures
        run.threads_checked(answers) == run.ids.skip(
            if run.phase is Checking || run.phase is Done {
                run.place()
            } else {
                run.place() + 1
            },
        ),
        run.answered_all(answers).processed + run.answered_all(answers).skipped == run.ids.len(),
    decreases answers.len(),
{
    if answers.len() == 0 {
        assert(run.ids.skip(run.ids.len() as int) =~= Seq::<Text>::empty());
    } else {
        let a = answers[0];
        let next = run.answered(a);
        law_run_stays_valid(run, a.threads, a.marked, a.remote, a.stored, a.earliest, a.messages);
        if !(run.phase is Done) {
            law_threads_are_taken_in_turn(run, a);
        }
        law_every_listed_thread_is_checked(next, answers.skip(1));
        if run.phase is Checking {
            let at = run.place();
            assert(run.ids.skip(at) =~= seq![run.ids[at]] + run.ids.skip(at + 1));
        }
    }
}

/// Messages are asked for of every thread that is neither noted as complete nor has as many
/// messages stored as the other side counts, as long as the limit on threads is not reached; of
/// any other thread none are.
pub proof fn law_incomplete_threads_are_read(
    run: RunView,
    marked: bool,
    remote: Option<int>,
    stored: int,
    earliest: Option<int>,
)
    requires
        run.wf(),
        run.phase is Checking,
        run.args.history_threads == 0 || run.processed < run.args.history_threads,
    ensures
        ({
            let checked = run.after_check(marked, remote, stored);
            let wanted = !marked && (remote matches Some(n) ==> n > stored);
            &&& checked.phase is Resuming <==> wanted
            &&& wanted ==> checked.processed == run.processed + 1 && checked.skipped
                == run.skipped
            &&& !wanted ==> checked.processed == run.processed && checked.skipped == run.skipped
                + 1
            &&& checked.messages == run.messages && checked.history_pages == run.history_pages
            &&& wanted ==> checked.after_earliest(earliest).wanted_action() == (
            ActionView::FetchHistory {
                thread_id: run.ids[run.place()],
                amount: run.args.messages as int,
                before: match earliest {
                    Some(t) => Some(
                        if t == i64::MIN {
                            t
                        } else {
                            t - 1
                        },
                    ),
                    None => None,
                },
            })
        }),
{
}

/// The limit on threads ends a run only where a further thread would have to be read.
pub proof fn law_thread_limit_ends_the_run(
    run: RunView,
    marked: bool,
    remote: Option<int>,
    stored: int,
)
    requires
        run.wf(),
        run.phase is Checking,
        run.args.history_threads > 0,
        run.processed == run.args.history_threads,
    ensures
        ({
            let checked = run.after_check(marked, remote, stored);
            let complete = marked || (remote is Some && remote->0 <= stored);
            &&& !complete ==> checked.phase is Done && checked.skipped == run.skipped
            &&& complete && run.place() < run.ids.len() - 1 ==> checked.phase is Checking
            &&& checked.processed == run.processed
        }),
{
}

/// The earliest of the messages in the order of time is one of them, and none is earlier.
proof fn lemma_first_by_time(page: Seq<MessageRecord>)
    requires
        page.len() > 0,
    ensures
        by_time(page).len() == page.len(),
        page.contains(by_time(page)[0]),
        forall|i: int|
            0 <= i < page.len() ==> message_key(by_time(page)[0]) <= message_key(
                #[trigger] page[i],
            ),
{
    let sorted = by_time(page);
    law_by_time_sorts(page, message_key(sorted[0]));
    lemma_of_time_has(sorted, 0);
    let k = lemma_of_time_from(page, message_key(sorted[0]), sorted[0]);
    assert(page[k] == sorted[0]);
    assert forall|i: int| 0 <= i < page.len() implies message_key(sorted[0]) <= message_key(
        #[trigger] page[i],
    ) by {
        let key = message_key(page[i]);
        law_by_time_sorts(page, key);
        lemma_of_time_has(page, i);
        let j = lemma_of_time_from(sorted, key, page[i]);
        assert(message_key(sorted[0]) <= message_key(sorted[j]));
    }
}

/// A message is among those of its time.
proof fn lemma_of_time_has(s: Seq<MessageRecord>, i: int)
    requires
        0 <= i < s.len(),
    ensures
        of_time(s, message_key(s[i])).contains(s[i]),
{
    let key = message_key(s[i]);
    let pred = |m: MessageRecord| message_key(m) == key;
    s.lemma_filter_contains(pred, i);
}

/// A message of a time is among all.
proof fn lemma_of_time_from(s: Seq<MessageRecord>, key: int, m: MessageRecord) -> (i: int)
    requires
        of_time(s, key).contains(m),
    ensures
        0 <= i < s.len(),
        s[i] == m,
{
    let pred = |x: MessageRecord| message_key(x) == key;
    s.lemma_filter_contains_rev(pred, m);
    choose|i: int| 0 <= i < s.len() && s[i] == m
}

/// A page of messages is counted message by message, and the history is read on exactly where it
/// is wanted whole, the page was full and the limit on pages is not reached. Then the next page is
/// asked for of the same thread, from just before the earliest of these messages.
pub proof fn law_history_is_read_on(run: RunView, page: Seq<MessageRecord>)
    requires
        run.wf(),
        run.phase is Reading,
        page.len() > 0,
        forall|i: int|
            0 <= i < page.len() ==> message_time(#[trigger] page[i]) is Some && message_time(
                page[i],
            )->0 > i64::MIN,
    ensures
        ({
            let next = run.after_history(page);
            let whole = run.args.full || run.args.all;
            let within = run.args.all || run.args.max_pages == 0 || run.phase->pages
                < run.args.max_pages;
            &&& next.messages == run.messages + page.len()
            &&& next.history_pages == run.history_pages + 1
            &&& next.processed == run.processed && next.skipped == run.skipped
            &&& next.phase is Reading <==> whole && within && page.len() >= run.args.messages
            &&& next.phase is Reading ==> next.place() == run.place() && next.phase->pages
                == run.phase->pages + 1
            &&& next.phase is Reading ==> next.phase->Reading_before is Some
            &&& next.phase is Reading ==> exists|i: int|
                0 <= i < page.len() && next.phase->Reading_before->0 + 1 == message_time(
                    #[trigger] page[i],
                )->0
            &&& next.phase is Reading ==> forall|i: int|
                0 <= i < page.len() ==> next.phase->Reading_before->0 < message_time(
                    #[trigger] page[i],
                )->0
            &&& run.mark(page).before is Some
            &&& next.phase is Reading ==> run.mark(page).before == next.phase->Reading_before
            &&& exists|i: int|
                0 <= i < page.len() && run.mark(page).before->0 + 1 == message_time(
                    #[trigger] page[i],
                )->0
            &&& forall|i: int|
                0 <= i < page.len() ==> run.mark(page).before->0 < message_time(
                    #[trigger] page[i],
                )->0
        }),
{
    lemma_first_by_time(page);
    reveal(message_key);
    let first = by_time(page)[0];
    let k = choose|k: int| 0 <= k < page.len() && page[k] == first;
    assert(message_time(page[k]) is Some);
    assert(history_cursor(page) == Some(message_time(page[k])->0 - 1));
    assert forall|i: int| 0 <= i < page.len() implies message_time(page[k])->0 <= message_time(
        #[trigger] page[i],
    )->0 by {
        assert(message_key(first) <= message_key(page[i]));
    }
}

/// An empty page ends the reading of a thread, and changes no counter; what is noted of the thread
/// is where the page was to begin.
pub proof fn law_empty_page_ends_the_thread(run: RunView)
    requires
        run.wf(),
        run.phase is Reading,
    ensures
        ({
            let next = run.after_history(Seq::empty());
            &&& next.messages == run.messages
            &&& next.history_pages == run.history_pages
            &&& next.processed == run.processed && next.skipped == run.skipped
            &&& next.phase is Checking || next.phase is Done
            &&& run.mark(Seq::empty()).complete
            &&& run.mark(Seq::empty()).before == run.phase->Reading_before
        }),
{
}

/// Only threads that were listed before or stand on the page are among the threads; a thread that
/// is new stands behind those that were known, and the threads of two pages are those of the first
/// and then those of the second.
pub proof fn law_listed_threads_stem_from_pages(
    ids: Seq<Text>,
    page: Seq<ThreadRecord>,
    more: Seq<ThreadRecord>,
    k: int,
)
    requires
        0 <= k < with_ids(ids, page).len(),
    ensures
        k < ids.len() ==> with_ids(ids, page)[k] == ids[k],
        k >= ids.len() ==> exists|i: int|
            0 <= i < page.len() && (#[trigger] page[i]).thread_id@ == with_ids(ids, page)[k],
        with_ids(ids, page + more) == with_ids(with_ids(ids, page), more),
    decreases page.len() + more.len(),
{
    if more.len() > 0 {
        law_listed_threads_stem_from_pages(ids, page, more.drop_last(), k);
        assert((page + more).drop_last() =~= page + more.drop_last());
    } else {
        assert(page + more =~= page);
        if page.len() > 0 {
            let rest = page.drop_last();
            if k < with_ids(ids, rest).len() {
                law_listed_threads_stem_from_pages(ids, rest, more, k);
                if k >= ids.len() {
                    let i = choose|i: int|
                        0 <= i < rest.len() && (#[trigger] rest[i]).thread_id@ == with_ids(
                            ids,
                            rest,
                        )[k];
                    assert(page[i] == rest[i]);
                }
            } else {
                lemma_with_ids_grow(ids, rest);
                assert(page[page.len() - 1].thread_id@ == with_ids(ids, page)[k]);
            }
        }
    }
}

proof fn lemma_with_ids_grow(ids: Seq<Text>, page: Seq<ThreadRecord>)
    ensures
        with_ids(ids, page).len() >= ids.len(),
    decreases page.len(),
{
    if page.len() > 0 {
        lemma_with_ids_grow(ids, page.drop_last());
    }
}

proof fn lemma_oldest_is_one(threads: Seq<ThreadRecord>) -> (i: int)
    requires
        oldest_time(threads) is Some,
    ensures
        0 <= i < threads.len(),
        thread_time(threads[i]) == oldest_time(threads),
    decreases threads.len(),
{
    let rest = threads.drop_last();
    if thread_time(threads.last()) == oldest_time(threads) {
        threads.len() - 1
    } else {
        lemma_oldest_is_one(rest)
    }
}

/// Where everything is wanted, a full page of threads is followed by the next page of the same
/// folders, from just before the earliest of these threads; a short one ends these folders.
pub proof fn law_folders_are_listed_on(run: RunView, page: Seq<ThreadRecord>, i: int)
    requires
        run.wf(),
        run.phase is Listing,
        !run.at_cap(),
        0 <= i < page.len(),
        thread_time(page[i]) is Some,
        forall|j: int|
            0 <= j < page.len() && thread_time(#[trigger] page[j]) is Some ==> thread_time(
                page[j],
            )->0 > i64::MIN,
    ensures
        ({
            let next = run.after_threads(page);
            let on = run.args.all && page.len() >= run.args.threads;
            &&& on ==> next.phase is Listing && next.phase->Listing_group
                == run.phase->Listing_group && next.phase->Listing_before is Some
                && next.thread_pages == run.thread_pages + 1
            &&& on ==> next.phase->Listing_before->0 < thread_time(page[i])->0
            &&& on ==> exists|j: int|
                0 <= j < page.len() && thread_time(#[trigger] page[j]) is Some
                    && next.phase->Listing_before->0 + 1 == thread_time(page[j])->0
            &&& !on && next.phase is Listing ==> next.phase->Listing_group
                == run.phase->Listing_group + 1 && next.phase->Listing_before is None
            &&& !on && run.phase->Listing_group + 1 < run.groups.len() ==> next.phase is Listing
        }),
{
    lemma_oldest_time(page, i);
    let j = lemma_oldest_is_one(page);
    assert(thread_time(page[j])->0 > i64::MIN);
}

/// What is listed of a page is what stands on it; nothing else of the run changes but where it is.
pub proof fn law_page_of_threads_is_listed(run: RunView, page: Seq<ThreadRecord>, i: int)
    requires
        run.wf(),
        run.phase is Listing,
        0 <= i < page.len(),
    ensures
        run.after_threads(page).ids.contains(page[i].thread_id@),
        run.after_threads(page).messages == run.messages,
        run.after_threads(page).history_pages == run.history_pages,
        run.after_threads(page).processed == 0,
        run.after_threads(page).skipped == 0,
        !(run.after_threads(page).phase is Listing) ==> run.after_threads(page).phase == (
        PhaseView::Checking { at: 0 }),
{
    law_threads_are_listed_once(run.ids, page, i);
}

/// A run begins with the thread that is named, and with no other; or else with the first page of
/// the first folders. A page of threads or messages has to hold something.
pub proof fn law_run_begins(args: SyncView)
    ensures
        args.threads == 0 || args.messages == 0 <==> started(args) is Err,
        started(args) matches Ok(run) ==> {
            &&& run.args == args
            &&& run.messages == 0 && run.history_pages == 0 && run.processed == 0 && run.skipped
                == 0
            &&& args.thread_id matches Some(id) ==> run.ids == seq![id] && run.wanted_action()
                == (ActionView::CheckThread { thread_id: id }) && run.thread_pages == 0
            &&& args.thread_id is None ==> run.ids.len() == 0 && run.thread_pages == 1
                && run.wanted_action() == (ActionView::FetchThreads {
                limit: args.threads as int,
                tags: run.groups[0],
                before: None,
            })
        },
{
}

/// Every folder that was named is asked for, and where everything is wanted of the usual folder,
/// every folder that can be reached; nothing else is asked for.
pub proof fn law_wanted_folders_are_asked_for(all: bool, tags: Seq<Text>, tag: Text)
    ensures
        (exists|i: int|
            0 <= i < tag_groups(all, tags).len() && (#[trigger] tag_groups(
                all,
                tags,
            )[i]).contains(tag)) <==> tags.contains(tag) || (all && tags == seq!["INBOX"@] && (tag
            == "ARCHIVED"@ || tag == "OTHER"@ || tag == "PENDING"@ || tag == "SPAM"@)),
        !(all && tags == seq!["INBOX"@]) ==> tag_groups(all, tags).len() == 1,
{
    let groups = tag_groups(all, tags);
    if all && tags == seq!["INBOX"@] {
        assert(groups[0] == seq!["INBOX"@]);
        assert(groups[1] == seq!["ARCHIVED"@]);
        assert(groups[2] == seq!["OTHER"@]);
        assert(groups[3] == seq!["PENDING"@]);
        assert(groups[4] == seq!["SPAM"@]);
        assert(groups[0][0] == "INBOX"@ && groups[1][0] == "ARCHIVED"@ && groups[2][0]
            == "OTHER"@ && groups[3][0] == "PENDING"@ && groups[4][0] == "SPAM"@);
    } else {
        assert(groups[0] == tags);
    }
}

/// What a run wants done next.
#[derive(Debug)]
pub enum SyncAction {
    /// Fetch a page of threads, and store them.
    FetchThreads { limit: usize, tags: Vec<String>, before: Option<i64> },
    /// Look up what the archive holds of a thread.
    CheckThread { thread_id: String },
    /// Look up the time of the earliest stored message of a thread.
    FindEarliest { thread_id: String },
    /// Fetch a page of the messages of a thread.
    FetchHistory { thread_id: String, amount: usize, before: Option<i64> },
    /// Nothing: the run is done.
    Finish,
}

/// The values of [`SyncAction`].
pub enum ActionView {
    FetchThreads { limit: int, tags: Seq<Text>, before: Option<int> },
    CheckThread { thread_id: Text },
    FindEarliest { thread_id: Text },
    FetchHistory { thread_id: Text, amount: int, before: Option<int> },
    Finish,
}

impl View for SyncAction {
    type V = ActionView;

    open spec fn view(&self) -> ActionView {
        match self {
            SyncAction::FetchThreads { limit, tags, before } => ActionView::FetchThreads {
                limit: *limit as int,
                tags: texts(tags@),
                before: opt_int(*before),
            },
            SyncAction::CheckThread { thread_id } => ActionView::CheckThread {
                thread_id: thread_id@,
            },
            SyncAction::FindEarliest { thread_id } => ActionView::FindEarliest {
                thread_id: thread_id@,
            },
            SyncAction::FetchHistory { thread_id, amount, before } => ActionView::FetchHistory {
                thread_id: thread_id@,
                amount: *amount as int,
                before: opt_int(*before),
            },
            SyncAction::Finish => ActionView::Finish,
        }
    }
}

impl RunView {
    /// What the run wants done next.
    pub open spec fn wanted_action(self) -> ActionView {
        match self.phase {
            PhaseView::Listing { group, before } => ActionView::FetchThreads {
                limit: self.args.threads as int,
                tags: self.groups[group],
                before,
            },
            PhaseView::Checking { at } => ActionView::CheckThread { thread_id: self.ids[at] },
            PhaseView::Resuming { at } => ActionView::FindEarliest { thread_id: self.ids[at] },
            PhaseView::Reading { at, before, pages } => ActionView::FetchHistory {
                thread_id: self.ids[at],
                amount: self.args.messages as int,
                before,
            },
            PhaseView::Done => ActionView::Finish,
        }
    }
}

/// The run that begins with the given arguments: with the thread that they name, or else with the
/// first group of folders. Pages have to hold something.
pub open spec fn started(args: SyncView) -> Result<RunView, Text> {
    if args.threads == 0 {
        Err("--threads must be greater than 0"@)
    } else if args.messages == 0 {
        Err("--messages must be greater than 0"@)
    } else {
        let run = RunView {
            args,
            groups: tag_groups(args.all, args.tags),
            ids: Seq::empty(),
            messages: 0,
            thread_pages: 0,
            history_pages: 0,
            processed: 0,
            skipped: 0,
            phase: PhaseView::Done,
        };
        Ok(
            match args.thread_id {
                Some(id) => RunView {
                    ids: seq![id],
                    phase: PhaseView::Checking { at: 0 },
                    ..run
                },
                None => RunView {
                    thread_pages: 1,
                    phase: PhaseView::Listing { group: 0, before: None },
                    ..run
                },
            },
        )
    }
}

impl SyncRun {
    /// Begins a run.
    pub fn start(args: SyncArgs) -> (r: Result<SyncRun, SimpleError>)
        ensures
            outcome(r) == started(args@),
            r matches Ok(run) ==> run@.wf(),
    {
        if args.threads == 0 {
            return Err(simple_error("--threads must be greater than 0".to_owned()));
        }
        if args.messages == 0 {
            return Err(simple_error("--messages must be greater than 0".to_owned()));
        }
        let groups = sync_tag_groups(args.all, &args.tags);
        let mut ids: Vec<String> = Vec::new();
        let mut thread_pages: usize = 0;
        let phase = match &args.thread_id {
            Some(id) => {
                ids.push(id.clone());
                Phase::Checking { at: 0 }
            },
            None => {
                thread_pages = 1;
                Phase::Listing { group: 0, before: None }
            },
        };
        let run = SyncRun {
            args,
            groups,
            ids,
            messages: 0,
            thread_pages,
            history_pages: 0,
            processed: 0,
            skipped: 0,
            phase,
        };
        proof {
            match args@.thread_id {
                Some(id) => {
                    assert(texts(run.ids@) =~= seq![id]);
                },
                None => {
                    assert(texts(run.ids@) =~= Seq::<Text>::empty());
                },
            }
        }
        Ok(run)
    }

    /// What the run wants done next.
    pub fn action(&self) -> (r: SyncAction)
        requires
            self@.wf(),
        ensures
            r@ == self@.wanted_action(),
    {
        proof {
            assert(self@.ids.len() == self.ids@.len());
            assert(self@.groups.len() == self.groups@.len());
        }
        match self.phase {
            Phase::Listing { group, before } => SyncAction::FetchThreads {
                limit: self.args.threads,
                tags: copy_list(&self.groups[group]),
                before,
            },
            Phase::Checking { at } => SyncAction::CheckThread { thread_id: self.ids[at].clone() },
            Phase::Resuming { at } => SyncAction::FindEarliest { thread_id: self.ids[at].clone() },
            Phase::Reading { at, before, pages } => SyncAction::FetchHistory {
                thread_id: self.ids[at].clone(),
                amount: self.args.messages,
                before,
            },
            Phase::Done => SyncAction::Finish,
        }
    }

    /// The counters have room for a page of the given length.
    pub fn room_for(&self, page_len: usize) -> (r: bool)
        ensures
            r == self@.has_room(page_len as int),
    {
        self.messages <= usize::MAX - page_len && self.thread_pages < usize::MAX
            && self.history_pages < usize::MAX && match self.phase {
            Phase::Reading { at, before, pages } => pages < usize::MAX,
            _ => true,
        }
    }

    /// Comes to the first thread.
    fn enter_threads(&mut self)
        ensures
            final(self)@ == old(self)@.at_thread(0),
    {
        proof {
            assert(self@.ids.len() == self.ids@.len());
        }
        if self.ids.len() > 0 {
            self.phase = Phase::Checking { at: 0 };
        } else {
            self.phase = Phase::Done;
        }
    }

    /// Comes to the thread behind the one in the given place.
    fn leave_thread(&mut self, at: usize)
        requires
            at < old(self).ids@.len(),
        ensures
            final(self)@ == old(self)@.at_thread(at + 1),
    {
        proof {
            assert(self@.ids.len() == self.ids@.len());
        }
        if at < self.ids.len() - 1 {
            self.phase = Phase::Checking { at: at + 1 };
        } else {
            self.phase = Phase::Done;
        }
    }

    /// Takes a page of threads.
    pub fn take_threads(&mut self, page: &[ThreadRecord])
        requires
            old(self)@.wf(),
            old(self)@.phase is Listing,
            old(self)@.has_room(0),
        ensures
            final(self)@ == old(self)@.after_threads(page@),
            final(self)@.wf(),
    {
        proof {
            assert(self@.after_threads(page@).wf()) by {
                law_run_stays_valid(self@, page@, false, None, 0, None, Seq::empty());
            }
            assert(self@.groups.len() == self.groups@.len());
        }
        let ghost start = self@;
        if let Phase::Listing { group, before } = self.phase {
            let mut i: usize = 0;
            proof {
                assert(with_ids(start.ids, page@.take(0)) =~= start.ids);
                assert(self@ =~= (RunView { ids: with_ids(start.ids, page@.take(0)), ..start }));
            }
            while i < page.len()
                invariant
                    0 <= i <= page@.len(),
                    self@ == (RunView { ids: with_ids(start.ids, page@.take(i as int)), ..start }),
                    self.groups@.len() == start.groups.len(),
                    self.phase == (Phase::Listing { group, before }),
                decreases page@.len() - i,
            {
                proof {
                    assert(page@.take(i + 1).drop_last() =~= page@.take(i as int));
                    assert(page@.take(i + 1).last() == page@[i as int]);
                }
                if !list_has(&self.ids, page[i].thread_id.as_str()) {
                    proof {
                        lemma_texts_push(self.ids@, page@[i as int].thread_id);
                    }
                    self.ids.push(page[i].thread_id.clone());
                }
                proof {
                    assert(self@.ids =~= with_ids(start.ids, page@.take(i + 1)));
                }
                i += 1;
            }
            proof {
                assert(page@.take(page@.len() as int) =~= page@);
            }
            let cursor = next_thread_before(page);
            let limit = self.args.max_thread_pages;
            let at_limit = limit > 0 && self.thread_pages >= limit;
            if at_limit {
                self.enter_threads();
                return;
            }
            let last_page = page.len() == 0 || !self.args.all || page.len() < self.args.threads;
            match cursor {
                Some(t) if !last_page => {
                    self.thread_pages += 1;
                    self.phase = Phase::Listing { group, before: Some(t) };
                },
                _ => {
                    if group + 1 < self.groups.len() {
                        self.thread_pages += 1;
                        self.phase = Phase::Listing { group: group + 1, before: None };
                    } else {
                        self.enter_threads();
                    }
                },
            }
        }
    }

    /// Takes what the archive holds of a thread.
    pub fn take_check(&mut self, marked: bool, remote: Option<i64>, stored: i64)
        requires
            old(self)@.wf(),
            old(self)@.phase is Checking,
        ensures
            final(self)@ == old(self)@.after_check(marked, opt_int(remote), stored as int),
            final(self)@.wf(),
    {
        proof {
            assert(self@.ids.len() == self.ids.len());
        }
        if let Phase::Checking { at } = self.phase {
            if marked || is_history_complete(remote, stored) {
                self.skipped += 1;
                self.leave_thread(at);
            } else if self.args.history_threads > 0 && self.processed >= self.args.history_threads {
                self.phase = Phase::Done;
            } else {
                self.processed += 1;
                self.phase = Phase::Resuming { at };
            }
        }
    }

    /// Takes the time of the earliest stored message.
    pub fn take_earliest(&mut self, earliest: Option<i64>)
        requires
            old(self)@.wf(),
            old(self)@.phase is Resuming,
        ensures
            final(self)@ == old(self)@.after_earliest(opt_int(earliest)),
            final(self)@.wf(),
    {
        if let Phase::Resuming { at } = self.phase {
            let before = match earliest {
                Some(t) => Some(millisecond_before(t)),
                None => None,
            };
            self.phase = Phase::Reading { at, before, pages: 1 };
        }
    }

    /// Takes a page of messages, and gives them back in the order in which they are to be stored,
    /// with what is to be noted of the thread.
    pub fn take_history(&mut self, page: Vec<MessageRecord>) -> (r: (
        Vec<MessageRecord>,
        HistoryMark,
    ))
        requires
            old(self)@.wf(),
            old(self)@.phase is Reading,
            old(self)@.has_room(page@.len() as int),
        ensures
            final(self)@ == old(self)@.after_history(page@),
            final(self)@.wf(),
            r.0@ == by_time(page@),
            r.1@ == old(self)@.mark(page@),
    {
        proof {
            assert(by_time(page@).len() == page@.len()) by {
                law_by_time_sorts(page@, 0);
            }
            assert(self@.after_history(page@).wf()) by {
                law_run_stays_valid(self@, Seq::empty(), false, None, 0, None, page@);
            }
            assert(self@.ids.len() == self.ids@.len());
        }
        let messages = sort_by_time(page);
        let (at, before, pages): (usize, Option<i64>, usize) = match self.phase {
            Phase::Reading { at, before, pages } => (at, before, pages),
            _ => (0, None, 0),
        };
        let thread_id = self.ids[at].clone();
        if messages.len() == 0 {
            self.leave_thread(at);
            return (messages, HistoryMark { thread_id, before, complete: true });
        }
        let cursor = match record_time(&messages[0].timestamp) {
            Some(t) => Some(millisecond_before(t)),
            None => None,
        };
        let full = self.args.full || self.args.all;
        let limit: usize = if self.args.all {
            0
        } else {
            self.args.max_pages
        };
        self.history_pages += 1;
        self.messages += messages.len();
        if should_continue_history(full, pages, limit, messages.len(), self.args.messages) {
            self.phase = Phase::Reading { at, before: cursor, pages: pages + 1 };
        } else {
            self.leave_thread(at);
        }
        let complete = full && messages.len() < self.args.messages;
        (messages, HistoryMark { thread_id, before: cursor, complete })
    }
}

/// The array of some groups of strings.
pub open spec fn json_groups(groups: Seq<Seq<Text>>) -> JsonView {
    JsonView::Array(groups.map_values(|g: Seq<Text>| json_texts(g)))
}

/// The array of some groups of strings.
fn group_list(groups: &[Vec<String>]) -> (r: JsonValue)
    ensures
        r@ == json_groups(groups_view(groups@)),
{
    let ghost all = json_groups(groups_view(groups@))->Array_0;
    let mut out: Vec<JsonValue> = Vec::new();
    let mut i: usize = 0;
    while i < groups.len()
        invariant
            0 <= i <= groups@.len(),
            all == json_groups(groups_view(groups@))->Array_0,
            views(out@) == all.take(i as int),
        decreases groups@.len() - i,
    {
        let item = JsonValue::text_list(&groups[i]);
        proof {
            assert(all[i as int] == item@);
            assert(views(out@.push(item)) =~= views(out@).push(item@));
            assert(all.take(i + 1) =~= all.take(i as int).push(item@));
        }
        out.push(item);
        i += 1;
    }
    proof {
        lemma_array_view(out);
        assert(all.take(all.len() as int) =~= all);
    }
    JsonValue::Array(out)
}

/// What the bridge is asked for a page of threads.
pub open spec fn threads_request_view(limit: int, tags: Seq<Text>, before: Option<int>) -> JsonView {
    JsonView::Object(
        seq![
            ("limit"@, JsonView::Number(number_of(limit))),
            ("tags"@, json_texts(tags)),
            ("timestamp"@, json_opt_int(before)),
        ],
    )
}

/// What the bridge is asked for a page of threads.
pub fn threads_request(limit: usize, tags: &[String], before: Option<i64>) -> (r: JsonValue)
    ensures
        r@ == threads_request_view(limit as int, texts(tags@), opt_int(before)),
{
    let mut out = Fields::new();
    out.add("limit", JsonValue::count(limit));
    out.add("tags", JsonValue::text_list(tags));
    out.add("timestamp", JsonValue::opt_integer(before));
    proof {
        assert(out@ =~= threads_request_view(
            limit as int,
            texts(tags@),
            opt_int(before),
        )->Object_0);
    }
    out.object()
}

/// What the bridge is asked for a page of messages.
pub open spec fn history_request_view(thread_id: Text, amount: int, before: Option<int>) -> JsonView {
    JsonView::Object(
        seq![
            ("threadID"@, JsonView::String(thread_id)),
            ("amount"@, JsonView::Number(number_of(amount))),
            ("timestamp"@, json_opt_int(before)),
        ],
    )
}

/// What the bridge is asked for a page of messages.
pub fn history_request(thread_id: &str, amount: usize, before: Option<i64>) -> (r: JsonValue)
    ensures
        r@ == history_request_view(thread_id@, amount as int, opt_int(before)),
{
    let mut out = Fields::new();
    out.add("threadID", JsonValue::text(thread_id));
    out.add("amount", JsonValue::count(amount));
    out.add("timestamp", JsonValue::opt_integer(before));
    proof {
        assert(out@ =~= history_request_view(
            thread_id@,
            amount as int,
            opt_int(before),
        )->Object_0);
    }
    out.object()
}

impl RunView {
    /// What `sync` reports.
    pub open spec fn report_view(self) -> JsonView {
        JsonView::Object(
            seq![
                ("threads"@, JsonView::Number(number_of(self.threads()))),
                ("messages"@, JsonView::Number(number_of(self.messages))),
                ("thread_pages"@, JsonView::Number(number_of(self.thread_pages))),
                ("history_pages"@, JsonView::Number(number_of(self.history_pages))),
                ("history_threads_processed"@, JsonView::Number(number_of(self.processed))),
                ("history_threads_skipped_complete"@, JsonView::Number(number_of(self.skipped))),
                ("tag_groups"@, json_groups(self.groups)),
                ("all"@, JsonView::Bool(self.args.all)),
                ("full_history"@, JsonView::Bool(self.full_history())),
            ],
        )
    }

    /// What `sync` says.
    pub open spec fn summary_text(self) -> Text {
        "synced "@ + int_text(self.threads()) + " threads and "@ + int_text(self.messages)
            + " messages ("@ + int_text(self.thread_pages) + " thread pages, "@ + int_text(
            self.history_pages,
        ) + " history pages)"@
    }
}

impl SyncRun {
    /// The number of threads that were fetched.
    pub fn thread_count(&self) -> (r: usize)
        ensures
            r == self@.threads(),
    {
        proof {
            assert(self@.ids.len() == self.ids@.len());
        }
        match &self.args.thread_id {
            Some(_) => 0,
            None => self.ids.len(),
        }
    }

    /// What `sync` reports.
    pub fn report(&self) -> (r: JsonValue)
        ensures
            r@ == self@.report_view(),
    {
        let mut out = Fields::new();
        out.add("threads", JsonValue::count(self.thread_count()));
        out.add("messages", JsonValue::count(self.messages));
        out.add("thread_pages", JsonValue::count(self.thread_pages));
        out.add("history_pages", JsonValue::count(self.history_pages));
        out.add("history_threads_processed", JsonValue::count(self.processed));
        out.add("history_threads_skipped_complete", JsonValue::count(self.skipped));
        out.add("tag_groups", group_list(&self.groups));
        out.add("all", JsonValue::Bool(self.args.all));
        out.add("full_history", JsonValue::Bool(self.args.full || self.args.all));
        proof {
            assert(out@ =~= self@.report_view()->Object_0);
        }
        out.object()
    }

    /// What `sync` says.
    pub fn summary(&self) -> (r: String)
        ensures
            r@ == self@.summary_text(),
    {
        let mut out = "synced ".to_owned();
        out.append(usize_text(self.thread_count()).as_str());
        out.append(" threads and ");
        out.append(usize_text(self.messages).as_str());
        out.append(" messages (");
        out.append(usize_text(self.thread_pages).as_str());
        out.append(" thread pages, ");
        out.append(usize_text(self.history_pages).as_str());
        out.append(" history pages)");
        out
    }
}

/// What `sync` reports are the counters of the run, each under its own name.
pub proof fn law_run_is_reported(run: RunView)
    ensures
        json_get(run.report_view(), "threads"@) == Some(JsonView::Number(number_of(if run.args.thread_id is Some {
                0
            } else {
                run.ids.len() as int
            }))),
        json_get(run.report_view(), "messages"@) == Some(JsonView::Number(number_of(run.messages))),
        json_get(run.report_view(), "thread_pages"@) == Some(JsonView::Number(number_of(run.thread_pages))),
        json_get(run.report_view(), "history_pages"@) == Some(JsonView::Number(number_of(run.history_pages))),
        json_get(run.report_view(), "history_threads_processed"@) == Some(JsonView::Number(number_of(run.processed))),
        json_get(run.report_view(), "history_threads_skipped_complete"@) == Some(JsonView::Number(number_of(run.skipped))),
        json_get(run.report_view(), "tag_groups"@) == Some(json_groups(run.groups)),
        json_get(run.report_view(), "all"@) == Some(JsonView::Bool(run.args.all)),
        json_get(run.report_view(), "full_history"@) == Some(JsonView::Bool(run.args.full || run.args.all)),
{
    reveal_strlit("threads");
    reveal_strlit("messages");
    reveal_strlit("thread_pages");
    reveal_strlit("history_pages");
    reveal_strlit("history_threads_processed");
    reveal_strlit("history_threads_skipped_complete");
    reveal_strlit("tag_groups");
    reveal_strlit("all");
    reveal_strlit("full_history");
    let fields = run.report_view()->Object_0;
    assert(fields[0].0 == "threads"@);
    lemma_field_at(fields, 0);
    assert(fields[1].0 == "messages"@);
    assert("threads"@.len() != "messages"@.len());
    lemma_field_at(fields, 1);
    assert(fields[2].0 == "thread_pages"@);
    assert("threads"@.len() != "thread_pages"@.len());
    assert("messages"@.len() != "thread_pages"@.len());
    lemma_field_at(fields, 2);
    assert(fields[3].0 == "history_pages"@);
    assert("threads"@.len() != "history_pages"@.len());
    assert("messages"@.len() != "history_pages"@.len());
    assert("thread_pages"@.len() != "history_pages"@.len());
    lemma_field_at(fields, 3);
    assert(fields[4].0 == "history_threads_processed"@);
    assert("threads"@.len() != "history_threads_processed"@.len());
    assert("messages"@.len() != "history_threads_processed"@.len());
    assert("thread_pages"@.len() != "history_threads_processed"@.len());
    assert("history_pages"@.len() != "history_threads_processed"@.len());
    lemma_field_at(fields, 4);
    assert(fields[5].0 == "history_threads_skipped_complete"@);
    assert("threads"@.len() != "history_threads_skipped_complete"@.len());
    assert("messages"@.len() != "history_threads_skipped_complete"@.len());
    assert("thread_pages"@.len() != "history_threads_skipped_complete"@.len());
    assert("history_pages"@.len() != "history_threads_skipped_complete"@.len());
    assert("history_threads_processed"@.len() != "history_threads_skipped_complete"@.len());
    lemma_field_at(fields, 5);
    assert(fields[6].0 == "tag_groups"@);
    assert("threads"@.len() != "tag_groups"@.len());
    assert("messages"@.len() != "tag_groups"@.len());
    assert("thread_pages"@.len() != "tag_groups"@.len());
    assert("history_pages"@.len() != "tag_groups"@.len());
    assert("history_threads_processed"@.len() != "tag_groups"@.len());
    assert("history_threads_skipped_complete"@.len() != "tag_groups"@.len());
    lemma_field_at(fields, 6);
    assert(fields[7].0 == "all"@);
    assert("threads"@.len() != "all"@.len());
    assert("messages"@.len() != "all"@.len());
    assert("thread_pages"@.len() != "all"@.len());
    assert("history_pages"@.len() != "all"@.len());
    assert("history_threads_processed"@.len() != "all"@.len());
    assert("history_threads_skipped_complete"@.len() != "all"@.len());
    assert("tag_groups"@.len() != "all"@.len());
    lemma_field_at(fields, 7);
    assert(fields[8].0 == "full_history"@);
    assert("threads"@.len() != "full_history"@.len());
    assert("messages"@.len() != "full_history"@.len());
    assert("thread_pages"@[0] != "full_history"@[0]);
    assert("history_pages"@.len() != "full_history"@.len());
    assert("history_threads_processed"@.len() != "full_history"@.len());
    assert("history_threads_skipped_complete"@.len() != "full_history"@.len());
    assert("tag_groups"@.len() != "full_history"@.len());
    assert("all"@.len() != "full_history"@.len());
    lemma_field_at(fields, 8);
}

/// The bridge is asked for as many threads as a page holds, in the folders that are wanted, from before
/// the point in time that was reached.
pub proof fn law_threads_request_names_what_is_wanted(limit: int, tags: Seq<Text>, before: Option<int>)
    ensures
        json_get(threads_request_view(limit, tags, before), "limit"@) == Some(JsonView::Number(number_of(limit))),
        json_get(threads_request_view(limit, tags, before), "tags"@) == Some(JsonView::Array(tags.map_values(|t: Text| JsonView::String(t)))),
        json_get(threads_request_view(limit, tags, before), "timestamp"@) == Some(match before {
                Some(n) => JsonView::Number(number_of(n)),
                None => JsonView::Null,
            }),
{
    reveal_strlit("limit");
    reveal_strlit("tags");
    reveal_strlit("timestamp");
    let fields = threads_request_view(limit, tags, before)->Object_0;
    assert(fields[0].0 == "limit"@);
    lemma_field_at(fields, 0);
    assert(fields[1].0 == "tags"@);
    assert("limit"@.len() != "tags"@.len());
    lemma_field_at(fields, 1);
    assert(fields[2].0 == "timestamp"@);
    assert("limit"@.len() != "timestamp"@.len());
    assert("tags"@.len() != "timestamp"@.len());
    lemma_field_at(fields, 2);
}

/// The bridge is asked for messages of the thread, as many as a page holds, from before the point in
/// time that was reached.
pub proof fn law_history_request_names_what_is_wanted(thread_id: Text, amount: int, before: Option<int>)
    ensures
        json_get(history_request_view(thread_id, amount, before), "threadID"@) == Some(JsonView::String(thread_id)),
        json_get(history_request_view(thread_id, amount, before), "amount"@) == Some(JsonView::Number(number_of(amount))),
        json_get(history_request_view(thread_id, amount, before), "timestamp"@) == Some(match before {
                Some(n) => JsonView::Number(number_of(n)),
                None => JsonView::Null,
            }),
{
    reveal_strlit("threadID");
    reveal_strlit("amount");
    reveal_strlit("timestamp");
    let fields = history_request_view(thread_id, amount, before)->Object_0;
    assert(fields[0].0 == "threadID"@);
    lemma_field_at(fields, 0);
    assert(fields[1].0 == "amount"@);
    assert("threadID"@.len() != "amount"@.len());
    lemma_field_at(fields, 1);
    assert(fields[2].0 == "timestamp"@);
    assert("threadID"@.len() != "timestamp"@.len());
    assert("amount"@.len() != "timestamp"@.len());
    lemma_field_at(fields, 2);
}

/// What `sync` says names each number before the word for what was counted.
pub proof fn law_sync_says_what_it_counted(run: RunView)
    ensures
        contains_text(
            run.summary_text(),
            "synced "@ + int_text(
                if run.args.thread_id is Some {
                    0
                } else {
                    run.ids.len() as int
                },
            ) + " threads and "@,
        ),
        contains_text(run.summary_text(), " and "@ + int_text(run.messages) + " messages ("@),
        contains_text(run.summary_text(), "("@ + int_text(run.thread_pages) + " thread pages, "@),
        contains_text(run.summary_text(), ", "@ + int_text(run.history_pages) + " history pages)"@),
{
    let a = int_text(run.threads());
    let b = int_text(run.messages);
    let c = int_text(run.thread_pages);
    let d = int_text(run.history_pages);
    reveal_strlit(" threads and ");
    reveal_strlit(" threads");
    reveal_strlit(" and ");
    reveal_strlit(" messages (");
    reveal_strlit(" messages ");
    reveal_strlit("(");
    reveal_strlit(" thread pages, ");
    reveal_strlit(" thread pages");
    reveal_strlit(", ");
    assert(" threads and "@ =~= " threads"@ + " and "@);
    assert(" messages ("@ =~= " messages "@ + "("@);
    assert(" thread pages, "@ =~= " thread pages"@ + ", "@);
    let s1 = "synced "@ + a + " threads and "@;
    let s2 = s1 + b + " messages ("@;
    let s3 = s2 + c + " thread pages, "@;
    let p2 = " and "@ + b + " messages ("@;
    let p3 = "("@ + c + " thread pages, "@;
    let none = Seq::<char>::empty();
    lemma_end_is_found(none, s1);
    assert(none + s1 =~= s1);
    lemma_overlap_is_found("synced "@ + a, " threads"@, " and "@, b, " messages ("@);
    lemma_overlap_is_found(s1 + b, " messages "@, "("@, c, " thread pages, "@);
    lemma_overlap_is_found(s2 + c, " thread pages"@, ", "@, d, " history pages)"@);
    lemma_two_more(s1, s1, b, " messages ("@);
    lemma_two_more(s2, s1, c, " thread pages, "@);
    lemma_two_more(s3, s1, d, " history pages)"@);
    lemma_two_more(s2, p2, c, " thread pages, "@);
    lemma_two_more(s3, p2, d, " history pages)"@);
    lemma_two_more(s3, p3, d, " history pages)"@);
}

/// While threads are listed, as many as a page holds are asked for, in the folders at hand, from
/// before the point in time that was reached there; a run that is done wants nothing.
pub proof fn law_listing_asks_for_the_folders_at_hand(run: RunView)
    ensures
        run.phase matches PhaseView::Listing { group, before } ==> run.wanted_action() == (
        ActionView::FetchThreads {
            limit: run.args.threads as int,
            tags: run.groups[group],
            before,
        }),
        run.phase is Done <==> run.wanted_action() is Finish,
{
}

/// The groups of folders are reported one by one, each with its folders in their order.
pub proof fn law_groups_are_reported_in_order(groups: Seq<Seq<Text>>, g: int, i: int)
    requires
        0 <= g < groups.len(),
        0 <= i < groups[g].len(),
    ensures
        json_groups(groups) is Array,
        json_groups(groups)->Array_0.len() == groups.len(),
        json_groups(groups)->Array_0[g] is Array,
        json_groups(groups)->Array_0[g]->Array_0.len() == groups[g].len(),
        json_groups(groups)->Array_0[g]->Array_0[i] == JsonView::String(groups[g][i]),
{
}

} // verus!
