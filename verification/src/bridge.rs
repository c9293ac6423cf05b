//! Talking to the bridge: what it is told, and what is made of its answers.
use vstd::prelude::*;

use crate::config::Config;
use crate::cookies::bytes_text;
use crate::crypto::utf8_text;
use crate::error::{error2, outcome, simple_error, SimpleError};
use crate::json::{
    json_encoding, json_get, json_opt, json_text, lemma_field_at, normal, Fields, JsonValue, JsonView,
};
use crate::parts::{lines, text_lines, trim, trim_start, trimmed, trimmed_start};
use crate::records::{message_time, record_time, MessageRecord};
use crate::rows::{shortened, time_or_empty, truncate};
use crate::text::{
    contains_text, first_is, lemma_end_is_found, lemma_found_stays, opt_text, or_empty, same,
    text_or_empty, texts, Text,
};
use crate::time::{fmt_ts, stamp, ts_millis};

verus! {

/// How the bridge is to behave.
pub open spec fn bridge_options_view() -> JsonView {
    JsonView::Object(
        seq![
            ("online"@, JsonView::Bool(true)),
            ("selfListen"@, JsonView::Bool(false)),
            ("listenEvents"@, JsonView::Bool(true)),
            ("updatePresence"@, JsonView::Bool(false)),
            ("autoMarkRead"@, JsonView::Bool(false)),
            ("autoReconnect"@, JsonView::Bool(true)),
            ("randomUserAgent"@, JsonView::Bool(false)),
        ],
    )
}

/// What the bridge is told at every call.
pub open spec fn bridge_context_view(fca_dir: Text, appstate: Text) -> JsonView {
    JsonView::Object(
        seq![
            ("fcaDir"@, JsonView::String(fca_dir)),
            ("appstate"@, JsonView::String(appstate)),
            ("options"@, bridge_options_view()),
        ],
    )
}

/// What the bridge is told at every call.
pub fn bridge_context(cfg: &Config, appstate: &str) -> (r: JsonValue)
    ensures
        r@ == bridge_context_view(cfg@.fca_dir, appstate@),
{
    let mut options = Fields::new();
    options.add("online", JsonValue::Bool(true));
    options.add("selfListen", JsonValue::Bool(false));
    options.add("listenEvents", JsonValue::Bool(true));
    options.add("updatePresence", JsonValue::Bool(false));
    options.add("autoMarkRead", JsonValue::Bool(false));
    options.add("autoReconnect", JsonValue::Bool(true));
    options.add("randomUserAgent", JsonValue::Bool(false));
    proof {
        assert(options@ =~= bridge_options_view()->Object_0);
    }
    let mut out = Fields::new();
    out.add("fcaDir", JsonValue::text(cfg.fca_dir.as_str()));
    out.add("appstate", JsonValue::text(appstate));
    out.add("options", options.object());
    proof {
        assert(out@ =~= bridge_context_view(cfg@.fca_dir, appstate@)->Object_0);
    }
    out.object()
}

/// What the bridge is told to send a message.
pub open spec fn send_request_view(thread_id: Text, body: Text, reply_to: Option<Text>) -> JsonView {
    JsonView::Object(
        seq![
            ("threadID"@, JsonView::String(thread_id)),
            ("body"@, JsonView::String(body)),
            ("replyTo"@, json_opt(reply_to)),
        ],
    )
}

/// What the bridge is told to send a message.
pub fn send_request(thread_id: &str, body: &str, reply_to: &Option<String>) -> (r: JsonValue)
    ensures
        r@ == send_request_view(thread_id@, body@, opt_text(*reply_to)),
{
    let mut out = Fields::new();
    out.add("threadID", JsonValue::text(thread_id));
    out.add("body", JsonValue::text(body));
    out.add("replyTo", JsonValue::opt_text(reply_to));
    proof {
        assert(out@ =~= send_request_view(thread_id@, body@, opt_text(*reply_to))->Object_0);
    }
    out.object()
}

/// A line looks like a JSON object.
pub open spec fn looks_like_object(line: Text) -> bool {
    trim_start(line).len() > 0 && trim_start(line)[0] == '{'
}

/// The last line that looks like a JSON object.
pub open spec fn last_object(all: Seq<Text>) -> Option<Text>
    decreases all.len(),
{
    if all.len() == 0 {
        None
    } else if looks_like_object(all.last()) {
        Some(all.last())
    } else {
        last_object(all.drop_last())
    }
}

/// The answer in the output of the bridge: its last line that looks like a JSON object.
pub open spec fn reply_of(output: Text) -> Result<Text, Text> {
    match last_object(lines(output)) {
        Some(line) => Ok(line),
        None => Err("bridge produced no JSON output"@),
    }
}

/// The answer in the output of the bridge.
pub fn reply_line(output: &str) -> (r: Result<String, SimpleError>)
    ensures
        outcome(r) == reply_of(output@),
{
    let all = text_lines(output);
    let ghost whole = lines(output@);
    let mut n: usize = all.len();
    proof {
        assert(texts(all@).len() == all@.len());
        assert(whole.take(whole.len() as int) =~= whole);
    }
    while n > 0
        invariant
            0 <= n <= all@.len(),
            texts(all@) == whole,
            whole.len() == all@.len(),
            whole == lines(output@),
            last_object(whole) == last_object(whole.take(n as int)),
        decreases n,
    {
        let line = all[n - 1].as_str();
        proof {
            assert(whole.take(n as int).last() == line@);
            assert(whole.take(n as int).drop_last() =~= whole.take(n - 1));
        }
        if first_is(trimmed_start(line).as_str(), '{') {
            return Ok(line.to_owned());
        }
        n -= 1;
    }
    Err(simple_error("bridge produced no JSON output".to_owned()))
}

/// The text that bytes stand for, with replacements for what is no UTF-8.
pub uninterp spec fn lossy_text(bytes: Seq<u8>) -> Text;

/// `String::from_utf8_lossy`: what it gives depends on the bytes alone; bytes that are UTF-8 say
/// what they encode.
#[verifier::external_body]
fn from_utf8_lossy(bytes: &[u8]) -> (r: String)
    ensures
        r@ == lossy_text(bytes@),
        vstd::utf8::valid_utf8(bytes@) ==> r@ == vstd::utf8::decode_utf8(bytes@),
{
    String::from_utf8_lossy(bytes).into_owned()
}

/// The answer of the bridge is a line of its output that looks like an object, and none behind it
/// does; there is an answer wherever some line does.
pub proof fn law_answer_is_the_last_object(output: Text)
    ensures
        reply_of(output) matches Ok(answer) ==> exists|i: int|
            {
                &&& 0 <= i < lines(output).len()
                &&& #[trigger] lines(output)[i] == answer
                &&& trim_start(answer).len() > 0 && trim_start(answer)[0] == '{'
                &&& forall|j: int|
                    i < j < lines(output).len() ==> trim_start(#[trigger] lines(output)[j]).len()
                        == 0 || trim_start(lines(output)[j])[0] != '{'
            },
        reply_of(output) is Err ==> forall|j: int|
            0 <= j < lines(output).len() ==> trim_start(#[trigger] lines(output)[j]).len() == 0
                || trim_start(lines(output)[j])[0] != '{',
{
    lemma_last_object(lines(output));
}

proof fn lemma_last_object(all: Seq<Text>)
    ensures
        last_object(all) matches Some(answer) ==> exists|i: int|
            {
                &&& 0 <= i < all.len()
                &&& #[trigger] all[i] == answer
                &&& trim_start(answer).len() > 0 && trim_start(answer)[0] == '{'
                &&& forall|j: int|
                    i < j < all.len() ==> trim_start(#[trigger] all[j]).len() == 0 || trim_start(
                        all[j],
                    )[0] != '{'
            },
        last_object(all) is None ==> forall|j: int|
            0 <= j < all.len() ==> trim_start(#[trigger] all[j]).len() == 0 || trim_start(all[j])[0]
                != '{',
    decreases all.len(),
{
    if all.len() > 0 {
        let init = all.drop_last();
        let n = all.len() - 1;
        if looks_like_object(all.last()) {
            assert(all[n] == all.last());
        } else {
            lemma_last_object(init);
            if last_object(all) is Some {
                let answer = last_object(all)->0;
                let i = choose|i: int|
                    {
                        &&& 0 <= i < init.len()
                        &&& #[trigger] init[i] == answer
                        &&& trim_start(answer).len() > 0 && trim_start(answer)[0] == '{'
                        &&& forall|j: int|
                            i < j < init.len() ==> trim_start(#[trigger] init[j]).len() == 0
                                || trim_start(init[j])[0] != '{'
                    };
                assert(all[i] == answer);
                assert forall|j: int| i < j < all.len() implies trim_start(#[trigger] all[j]).len()
                    == 0 || trim_start(all[j])[0] != '{' by {
                    if j < n {
                        assert(init[j] == all[j]);
                    }
                }
            } else {
                assert forall|j: int| 0 <= j < all.len() implies trim_start(
                    #[trigger] all[j],
                ).len() == 0 || trim_start(all[j])[0] != '{' by {
                    if j < n {
                        assert(init[j] == all[j]);
                    }
                }
            }
        }
    }
}

/// A call that failed has no answer, whatever the bridge wrote, and its complaints are told; a call
/// that went well has the answer that stands in its output, whatever it complained about.
pub proof fn law_failed_calls_have_no_answer(
    command: Text,
    output: Text,
    stdout: Seq<u8>,
    stderr: Seq<u8>,
)
    ensures
        call_outcome(command, false, stdout, stderr) is Err,
        contains_text(call_outcome(command, false, stdout, stderr)->Err_0, "("@ + command + "): "@),
        contains_text(
            call_outcome(command, false, stdout, stderr)->Err_0,
            trim(lossy_text(stderr)),
        ),
        call_outcome(command, true, vstd::utf8::encode_utf8(output), stderr) == reply_of(output),
{
    vstd::utf8::encode_utf8_valid_utf8(output);
    vstd::utf8::encode_utf8_decode_utf8(output);
    let told = trim(lossy_text(stderr));
    reveal_strlit("bridge failed (");
    reveal_strlit("bridge failed ");
    reveal_strlit("(");
    let p = "("@ + command + "): "@;
    let head = "bridge failed ("@ + command + "): "@;
    assert("bridge failed ("@ =~= "bridge failed "@ + "("@);
    assert(head =~= "bridge failed "@ + p);
    lemma_end_is_found("bridge failed "@, p);
    lemma_found_stays(head, p, told);
    lemma_end_is_found(head, told);
}

/// What is said when the bridge failed with the given complaints.
pub fn bridge_failure(command: &str, complaints: &str) -> (r: SimpleError)
    ensures
        r@ == "bridge failed ("@ + command@ + "): "@ + trim(complaints@),
{
    let mut out = "bridge failed (".to_owned();
    out.append(command);
    out.append("): ");
    out.append(trimmed(complaints).as_str());
    simple_error(out)
}

/// What a finished call of the bridge came to: the answer, or why there is none.
pub open spec fn call_outcome(
    command: Text,
    success: bool,
    stdout: Seq<u8>,
    stderr: Seq<u8>,
) -> Result<Text, Text> {
    if !success {
        Err("bridge failed ("@ + command + "): "@ + trim(lossy_text(stderr)))
    } else {
        match bytes_text(stdout) {
            Ok(output) => reply_of(output),
            Err(e) => Err(e),
        }
    }
}

/// What a finished call of the bridge came to.
pub fn bridge_reply(command: &str, success: bool, stdout: Vec<u8>, stderr: &[u8]) -> (r: Result<
    String,
    SimpleError,
>)
    ensures
        outcome(r) == call_outcome(command@, success, stdout@, stderr@),
{
    if !success {
        return Err(bridge_failure(command, from_utf8_lossy(stderr).as_str()));
    }
    match utf8_text(stdout) {
        Ok(output) => reply_line(output.as_str()),
        Err(e) => Err(simple_error(e)),
    }
}

/// An answer of the bridge.
#[derive(Debug)]
pub struct BridgeEnvelope {
    pub ok: bool,
    pub command: String,
    pub data: JsonValue,
}

/// Whether an answer says that something went wrong, and what.
pub open spec fn answer_check(command: Text, ok: bool, data: JsonView) -> Result<(), Text> {
    if ok {
        Ok(())
    } else {
        Err("bridge error ("@ + command + "): "@ + json_encoding(normal(data)))
    }
}

/// An answer is an error exactly where it says so; the error tells the command and the data.
pub proof fn law_answers_that_are_not_ok_are_errors(command: Text, data: JsonView)
    ensures
        answer_check(command, true, data) is Ok,
        answer_check(command, false, data) == Err::<(), Text>(
            "bridge error ("@ + command + "): "@ + json_encoding(normal(data)),
        ),
{
}

/// An answer that says that something went wrong is an error.
pub fn check_envelope(command: &str, envelope: &BridgeEnvelope) -> (r: Result<(), SimpleError>)
    ensures
        match r {
            Ok(_) => answer_check(command@, envelope.ok, envelope.data@) is Ok,
            Err(e) => answer_check(command@, envelope.ok, envelope.data@) == Err::<(), Text>(e@),
        },
        match r {
            Ok(_) => envelope.ok,
            Err(e) => !envelope.ok && e@ == "bridge error ("@ + command@ + "): "@ + json_encoding(
                normal(envelope.data@),
            ),
        },
{
    if envelope.ok {
        return Ok(());
    }
    let mut out = "bridge error (".to_owned();
    out.append(command);
    out.append("): ");
    out.append(json_text(&envelope.data).as_str());
    Err(simple_error(out))
}

/// What is to be done about a line from the bridge while it listens.
#[derive(Debug)]
pub enum ListenAction {
    /// Nothing.
    Skip,
    /// Store the message, and show the text.
    Store(String),
    /// Show the text.
    Show(String),
    /// Show the text among the complaints.
    Complain(String),
    /// Give up.
    Fail(SimpleError),
    /// Stop listening: as many messages as were asked for are stored.
    Stop,
}

/// The values of [`ListenAction`].
pub enum ListenView {
    Skip,
    Store(Text),
    Show(Text),
    Complain(Text),
    Fail(Text),
    Stop,
}

impl View for ListenAction {
    type V = ListenView;

    open spec fn view(&self) -> ListenView {
        match self {
            ListenAction::Skip => ListenView::Skip,
            ListenAction::Store(text) => ListenView::Store(text@),
            ListenAction::Show(text) => ListenView::Show(text@),
            ListenAction::Complain(text) => ListenView::Complain(text@),
            ListenAction::Fail(e) => ListenView::Fail(e@),
            ListenAction::Stop => ListenView::Stop,
        }
    }
}

/// A line that shows a message: time, thread and the beginning of the text.
pub open spec fn message_line_text(m: MessageRecord) -> Text {
    "["@ + time_or_empty(message_time(m)) + "] "@ + m.thread_id@ + ": "@ + shortened(
        text_or_empty(opt_text(m.body)),
        120,
    )
}

/// A line that shows a message.
pub fn message_line(m: &MessageRecord) -> (r: String)
    ensures
        r@ == message_line_text(*m),
{
    let mut out = "[".to_owned();
    out.append(fmt_ts(record_time(&m.timestamp)).as_str());
    out.append("] ");
    out.append(m.thread_id.as_str());
    out.append(": ");
    out.append(truncate(or_empty(&m.body).as_str(), 120).as_str());
    out
}

/// A line from the bridge, with the answer that it is, and the message in that answer.
pub struct Heard {
    pub line: Text,
    pub envelope: Option<BridgeEnvelope>,
    pub message: Option<MessageRecord>,
}

impl Heard {
    /// The line brings a message to be stored.
    pub open spec fn brings_message(self) -> bool {
        trim(self.line).len() > 0 && self.envelope is Some && self.envelope->0.ok
            && self.envelope->0.command@ == "event"@ && self.message is Some
    }

    /// The line tells of an error, which ends the listening.
    pub open spec fn brings_error(self) -> bool {
        trim(self.line).len() > 0 && self.envelope is Some && !self.envelope->0.ok
    }
}

/// The messages that lines bring, up to the first line that tells of an error.
pub open spec fn messages_heard(lines: Seq<Heard>) -> Seq<MessageRecord>
    decreases lines.len(),
{
    if lines.len() == 0 || lines[0].brings_error() {
        Seq::empty()
    } else if lines[0].brings_message() {
        seq![lines[0].message->0] + messages_heard(lines.skip(1))
    } else {
        messages_heard(lines.skip(1))
    }
}

/// A time of listening.
#[derive(Debug)]
pub struct Listener {
    /// The number of messages after which to stop.
    limit: Option<usize>,
    /// The number of messages stored.
    count: usize,
}

/// The values of [`Listener`].
pub struct ListenerView {
    pub limit: Option<int>,
    pub count: int,
}

impl View for Listener {
    type V = ListenerView;

    closed spec fn view(&self) -> ListenerView {
        ListenerView {
            limit: match self.limit {
                Some(limit) => Some(limit as int),
                None => None,
            },
            count: self.count as int,
        }
    }
}

impl ListenerView {
    /// What holds at all times: no more messages are stored than were asked for.
    pub open spec fn wf(self) -> bool {
        &&& self.count >= 0
        &&& self.limit matches Some(limit) ==> self.count <= limit
    }

    /// As many messages as were asked for are stored.
    pub open spec fn done(self) -> bool {
        self.limit matches Some(limit) && self.count >= limit
    }

    /// The counter has room for what the next line may bring.
    pub open spec fn has_room(self) -> bool {
        self.done() || self.count < usize::MAX
    }

    /// What is to be done about a line.
    pub open spec fn action_for(self, heard: Heard) -> ListenView {
        if self.done() {
            ListenView::Stop
        } else if trim(heard.line).len() == 0 {
            ListenView::Skip
        } else {
            match heard.envelope {
                None => ListenView::Complain("bridge: "@ + heard.line),
                Some(env) => if !env.ok {
                    ListenView::Fail("bridge error: "@ + json_encoding(normal(env.data@)))
                } else if env.command@ == "event"@ && heard.message is Some {
                    ListenView::Store(message_line_text(heard.message->0))
                } else {
                    ListenView::Show(json_encoding(normal(env.data@)))
                },
            }
        }
    }

    /// The time of listening behind a line.
    pub open spec fn after(self, heard: Heard) -> ListenerView {
        if !self.done() && heard.brings_message() {
            ListenerView { count: self.count + 1, ..self }
        } else {
            self
        }
    }

    /// The messages that are stored, where each line is taken in turn until listening stops or
    /// fails.
    pub open spec fn stored(self, lines: Seq<Heard>) -> Seq<MessageRecord>
        decreases lines.len(),
    {
        if lines.len() == 0 {
            Seq::empty()
        } else {
            let rest = self.after(lines[0]).stored(lines.skip(1));
            match self.action_for(lines[0]) {
                ListenView::Stop => Seq::empty(),
                ListenView::Fail(_) => Seq::empty(),
                ListenView::Store(_) => seq![lines[0].message->0] + rest,
                _ => rest,
            }
        }
    }
}

/// A listener that has heard nothing yet.
pub open spec fn begun(limit: Option<usize>) -> ListenerView {
    ListenerView {
        limit: match limit {
            Some(n) => Some(n as int),
            None => None,
        },
        count: 0,
    }
}

impl Listener {
    /// No more messages are stored than were asked for.
    #[verifier::type_invariant]
    spec fn within_limit(self) -> bool {
        self.limit matches Some(limit) ==> self.count <= limit
    }

    /// Begins to listen.
    pub fn new(limit: Option<usize>) -> (r: Listener)
        ensures
            r@.limit == (match limit {
                Some(n) => Some(n as int),
                None => None::<int>,
            }),
            r@.count == 0,
            r@ == begun(limit),
            r@.wf(),
    {
        Listener { limit, count: 0 }
    }

    /// As many messages as were asked for are stored.
    pub fn done(&self) -> (r: bool)
        ensures
            r == self@.done(),
    {
        match self.limit {
            Some(limit) => self.count >= limit,
            None => false,
        }
    }

    /// The counter has room for what the next line may bring.
    pub fn has_room(&self) -> (r: bool)
        ensures
            r == self@.has_room(),
    {
        self.done() || self.count < usize::MAX
    }

    /// Takes a line, with the answer that it is, and the message in that answer, and says what is
    /// to be done.
    pub fn take(
        &mut self,
        line: &str,
        envelope: &Option<BridgeEnvelope>,
        message: &Option<MessageRecord>,
    ) -> (r: ListenAction)
        requires
            old(self)@.has_room(),
        ensures
            r@ == old(self)@.action_for(
                (Heard { line: line@, envelope: *envelope, message: *message }),
            ),
            final(self)@ == old(self)@.after(
                (Heard { line: line@, envelope: *envelope, message: *message }),
            ),
            r@ is Store ==> (old(self)@.limit matches Some(limit) ==> old(self)@.count < limit),
            final(self)@.wf(),
    {
        proof {
            use_type_invariant(&*self);
        }
        if self.done() {
            return ListenAction::Stop;
        }
        if trimmed(line).as_str().is_empty() {
            return ListenAction::Skip;
        }
        match envelope {
            None => {
                let mut out = "bridge: ".to_owned();
                out.append(line);
                ListenAction::Complain(out)
            },
            Some(env) => {
                if !env.ok {
                    return ListenAction::Fail(
                        error2("bridge error: ", json_text(&env.data).as_str()),
                    );
                }
                let event = same(env.command.as_str(), "event");
                match message {
                    Some(m) => {
                        if !event {
                            return ListenAction::Show(json_text(&env.data));
                        }
                        self.count += 1;
                        ListenAction::Store(message_line(m))
                    },
                    None => ListenAction::Show(json_text(&env.data)),
                }
            },
        }
    }
}

/// A message is stored as long as fewer are stored than were asked for, and it is the last one when
/// it makes up their number.
pub proof fn law_listening_stops_at_the_limit(listener: ListenerView, heard: Heard)
    requires
        listener.wf(),
        heard.brings_message(),
    ensures
        listener.action_for(heard) is Store <==> !listener.done(),
        !listener.done() ==> (listener.after(heard).done() <==> listener.limit == Some(
            listener.count + 1,
        )),
        listener.after(heard).wf(),
{
}

/// Once as many messages are stored as were asked for, no line is handled any more.
pub proof fn law_nothing_is_handled_behind_the_limit(listener: ListenerView, heard: Heard)
    requires
        listener.done(),
    ensures
        listener.action_for(heard) is Stop,
        listener.after(heard) == listener,
{
}

/// Of the messages that lines bring, exactly the first ones are stored: as many as were asked for,
/// or all where there are not so many or no number was given.
pub proof fn law_the_first_messages_are_stored(listener: ListenerView, lines: Seq<Heard>)
    requires
        listener.wf(),
    ensures
        listener.stored(lines) == (match listener.limit {
            Some(limit) if limit - listener.count < messages_heard(lines).len()
                => messages_heard(lines).take(limit - listener.count),
            _ => messages_heard(lines),
        }),
    decreases lines.len(),
{
    let all = messages_heard(lines);
    if lines.len() > 0 {
        let rest = messages_heard(lines.skip(1));
        law_the_first_messages_are_stored(listener.after(lines[0]), lines.skip(1));
        if let Some(limit) = listener.limit {
            let left = limit - listener.count;
            if left == 0 {
                assert(all.take(0) =~= Seq::<MessageRecord>::empty());
            } else if lines[0].brings_message() && left < all.len() {
                assert(all.take(left) =~= seq![lines[0].message->0] + rest.take(left - 1));
            }
        }
    }
}

/// The bridge is told the checkout that is configured and the login at hand.
pub proof fn law_bridge_is_told_where_things_lie(fca_dir: Text, appstate: Text)
    ensures
        json_get(bridge_context_view(fca_dir, appstate), "fcaDir"@) == Some(JsonView::String(fca_dir)),
        json_get(bridge_context_view(fca_dir, appstate), "appstate"@) == Some(JsonView::String(appstate)),
        json_get(bridge_context_view(fca_dir, appstate), "options"@) == Some(bridge_options_view()),
{
    reveal_strlit("fcaDir");
    reveal_strlit("appstate");
    reveal_strlit("options");
    let fields = bridge_context_view(fca_dir, appstate)->Object_0;
    assert(fields[0].0 == "fcaDir"@);
    lemma_field_at(fields, 0);
    assert(fields[1].0 == "appstate"@);
    assert("fcaDir"@.len() != "appstate"@.len());
    lemma_field_at(fields, 1);
    assert(fields[2].0 == "options"@);
    assert("fcaDir"@.len() != "options"@.len());
    assert("appstate"@.len() != "options"@.len());
    lemma_field_at(fields, 2);
}

/// The bridge goes online and listens to events, and neither shows presence nor marks anything as
/// read nor hears what the account itself sends.
pub proof fn law_bridge_stays_in_the_background()
    ensures
        json_get(bridge_options_view(), "online"@) == Some(JsonView::Bool(true)),
        json_get(bridge_options_view(), "selfListen"@) == Some(JsonView::Bool(false)),
        json_get(bridge_options_view(), "listenEvents"@) == Some(JsonView::Bool(true)),
        json_get(bridge_options_view(), "updatePresence"@) == Some(JsonView::Bool(false)),
        json_get(bridge_options_view(), "autoMarkRead"@) == Some(JsonView::Bool(false)),
        json_get(bridge_options_view(), "autoReconnect"@) == Some(JsonView::Bool(true)),
        json_get(bridge_options_view(), "randomUserAgent"@) == Some(JsonView::Bool(false)),
{
    reveal_strlit("online");
    reveal_strlit("selfListen");
    reveal_strlit("listenEvents");
    reveal_strlit("updatePresence");
    reveal_strlit("autoMarkRead");
    reveal_strlit("autoReconnect");
    reveal_strlit("randomUserAgent");
    let fields = bridge_options_view()->Object_0;
    assert(fields[0].0 == "online"@);
    lemma_field_at(fields, 0);
    assert(fields[1].0 == "selfListen"@);
    assert("online"@.len() != "selfListen"@.len());
    lemma_field_at(fields, 1);
    assert(fields[2].0 == "listenEvents"@);
    assert("online"@.len() != "listenEvents"@.len());
    assert("selfListen"@.len() != "listenEvents"@.len());
    lemma_field_at(fields, 2);
    assert(fields[3].0 == "updatePresence"@);
    assert("online"@.len() != "updatePresence"@.len());
    assert("selfListen"@.len() != "updatePresence"@.len());
    assert("listenEvents"@.len() != "updatePresence"@.len());
    lemma_field_at(fields, 3);
    assert(fields[4].0 == "autoMarkRead"@);
    assert("online"@.len() != "autoMarkRead"@.len());
    assert("selfListen"@.len() != "autoMarkRead"@.len());
    assert("listenEvents"@[0] != "autoMarkRead"@[0]);
    assert("updatePresence"@.len() != "autoMarkRead"@.len());
    lemma_field_at(fields, 4);
    assert(fields[5].0 == "autoReconnect"@);
    assert("online"@.len() != "autoReconnect"@.len());
    assert("selfListen"@.len() != "autoReconnect"@.len());
    assert("listenEvents"@.len() != "autoReconnect"@.len());
    assert("updatePresence"@.len() != "autoReconnect"@.len());
    assert("autoMarkRead"@.len() != "autoReconnect"@.len());
    lemma_field_at(fields, 5);
    assert(fields[6].0 == "randomUserAgent"@);
    assert("online"@.len() != "randomUserAgent"@.len());
    assert("selfListen"@.len() != "randomUserAgent"@.len());
    assert("listenEvents"@.len() != "randomUserAgent"@.len());
    assert("updatePresence"@.len() != "randomUserAgent"@.len());
    assert("autoMarkRead"@.len() != "randomUserAgent"@.len());
    assert("autoReconnect"@.len() != "randomUserAgent"@.len());
    lemma_field_at(fields, 6);
}

/// What is sent goes to the thread that was named, with the text that was given, as an answer to the
/// message that was named, if any.
pub proof fn law_message_is_sent_as_given(thread_id: Text, body: Text, reply_to: Option<Text>)
    ensures
        json_get(send_request_view(thread_id, body, reply_to), "threadID"@) == Some(JsonView::String(thread_id)),
        json_get(send_request_view(thread_id, body, reply_to), "body"@) == Some(JsonView::String(body)),
        json_get(send_request_view(thread_id, body, reply_to), "replyTo"@) == Some(match reply_to {
                Some(t) => JsonView::String(t),
                None => JsonView::Null,
            }),
{
    reveal_strlit("threadID");
    reveal_strlit("body");
    reveal_strlit("replyTo");
    let fields = send_request_view(thread_id, body, reply_to)->Object_0;
    assert(fields[0].0 == "threadID"@);
    lemma_field_at(fields, 0);
    assert(fields[1].0 == "body"@);
    assert("threadID"@.len() != "body"@.len());
    lemma_field_at(fields, 1);
    assert(fields[2].0 == "replyTo"@);
    assert("threadID"@.len() != "replyTo"@.len());
    assert("body"@.len() != "replyTo"@.len());
    lemma_field_at(fields, 2);
}

/// While there is room for messages, each line is answered by what it is: an event that brings a
/// message by storing it, an error by giving up with the data, any other answer by showing the data,
/// a line that is no answer by complaining about it, and an empty one by nothing.
pub proof fn law_lines_are_answered_by_what_they_are(listener: ListenerView, heard: Heard)
    requires
        !listener.done(),
    ensures
        ({
            let action = listener.action_for(heard);
            let empty = trim(heard.line).len() == 0;
            &&& empty ==> action is Skip
            &&& !empty && heard.envelope is None ==> action == ListenView::Complain(
                "bridge: "@ + heard.line,
            )
            &&& !empty && heard.envelope is Some ==> {
                let env = heard.envelope->0;
                let event = env.command@ == "event"@ && heard.message is Some;
                &&& !env.ok ==> action == ListenView::Fail(
                    "bridge error: "@ + json_encoding(normal(env.data@)),
                )
                &&& env.ok && event ==> action is Store
                &&& env.ok && !event ==> action == ListenView::Show(
                    json_encoding(normal(env.data@)),
                )
            }
            &&& action is Store <==> listener.after(heard).count == listener.count + 1
            &&& !(action is Store) ==> listener.after(heard) == listener
            &&& listener.after(heard).limit == listener.limit
        }),
{
}

/// A message that comes in is shown with its time, its thread and its text, which is cut where it is
/// longer than 120 characters.
pub proof fn law_incoming_message_is_shown(
    listener: ListenerView,
    heard: Heard,
    m: MessageRecord,
    at: int,
    body: Text,
)
    requires
        !listener.done(),
        heard.brings_message(),
        heard.message == Some(m),
        m.timestamp is Some && ts_millis(m.timestamp->0@) == Some(at),
        m.body is Some && m.body->0@ == body,
    ensures
        body.len() <= 120 ==> listener.action_for(heard) == ListenView::Store(
            "["@ + stamp(at) + "] "@ + m.thread_id@ + ": "@ + body,
        ),
        body.len() > 120 ==> listener.action_for(heard) == ListenView::Store(
            "["@ + stamp(at) + "] "@ + m.thread_id@ + ": "@ + body.take(120).push('\u{2026}'),
        ),
{
}

/// Listening begins with nothing stored: it is over at once exactly where no message is asked for,
/// and without a limit it never is.
pub proof fn law_listening_begins_with_nothing_stored(limit: Option<usize>, count: int)
    ensures
        begun(limit).wf(),
        begun(limit).count == 0,
        begun(limit).done() <==> limit == Some(0usize),
        (ListenerView { count, ..begun(limit) }).done() <==> (limit is Some && count >= limit->0),
{
}

} // verus!
