//! The wait for the confirmation of a transaction at another websocket endpoint.
use crate::clock::{current_micros, is_reading, is_time_micros, micros_of, Reading};
use crate::json::{
    as_string, into_string, json_of, json_option_view, json_string, parse_json, write_string, Json,
    JsonView,
};
use crate::jsonrpc::{lemma_object_text, member_as_text, object_text};
use crate::text::{same_text, text_option_view};
use vstd::prelude::*;
use vstd::string::StringExecFns;

verus! {

/// The request that subscribes to a signature at another endpoint.
pub open spec fn subscription_request(signature: Seq<char>) -> Seq<char> {
    "{\"id\":1,\"jsonrpc\":\"2.0\",\"method\":\"signatureSubscribe\",\"params\":["@ + json_string(
        signature,
    ) + ",{\"commitment\":\"processed\"}]}"@
}

/// Writes the request that subscribes to a signature.
pub fn write_subscription_request(signature: &str) -> (request: String)
    ensures
        request@ == subscription_request(signature@),
{
    let mut request =
        "{\"id\":1,\"jsonrpc\":\"2.0\",\"method\":\"signatureSubscribe\",\"params\":[".to_owned();
    request.append(write_string(signature).as_str());
    request.append(",{\"commitment\":\"processed\"}]}");
    request
}

/// A member of a value, where there is a value and it has one.
pub open spec fn member_in(json: Option<JsonView>, name: Seq<char>) -> Option<JsonView> {
    match json {
        Some(json) => json.member(name),
        None => None,
    }
}

fn get_member(json: &Option<Json>, name: &str) -> (member: Option<Json>)
    ensures
        json_option_view(member) == member_in(json_option_view(*json), name@),
{
    match json {
        Some(json) => json.member(name),
        None => None,
    }
}

/// The signature that a notification is about: that of its result, or else the first one of the
/// transaction in its result.
pub open spec fn notification_signature(notification: JsonView) -> Option<Seq<char>> {
    let result = member_in(notification.member("params"@), "result"@);
    let direct = as_string(member_in(result, "signature"@));
    let transaction = member_in(
        member_in(member_in(result, "value"@), "transaction"@),
        "transaction"@,
    );
    let signatures = member_in(transaction, "signatures"@);
    if direct is Some {
        direct
    } else if signatures is Some {
        as_string(signatures->0.item(0))
    } else {
        None
    }
}

/// Finds the signature that a notification is about.
pub fn extract_notification_signature(notification: &Json) -> (signature: Option<String>)
    ensures
        text_option_view(signature) == notification_signature(notification@),
{
    let result = get_member(&notification.member("params"), "result");
    match into_string(get_member(&result, "signature")) {
        Some(signature) => Some(signature),
        None => {
            let transaction = get_member(
                &get_member(&get_member(&result, "value"), "transaction"),
                "transaction",
            );
            match get_member(&transaction, "signatures") {
                Some(signatures) => into_string(signatures.item(0)),
                None => None,
            }
        },
    }
}

/// What a message of the endpoint says.
#[derive(Debug)]
pub struct Notice {
    /// The error that it reports, as a JSON text.
    pub error: Option<String>,
    pub has_result: bool,
    pub method: Option<String>,
    /// The signature that it is about.
    pub signature: Option<String>,
}

/// What a message says.
pub ghost struct NoticeView {
    pub error: Option<Seq<char>>,
    pub has_result: bool,
    pub method: Option<Seq<char>>,
    pub signature: Option<Seq<char>>,
}

impl View for Notice {
    type V = NoticeView;

    open spec fn view(&self) -> NoticeView {
        NoticeView {
            error: text_option_view(self.error),
            has_result: self.has_result,
            method: text_option_view(self.method),
            signature: text_option_view(self.signature),
        }
    }
}

/// What a message says, where it is JSON.
pub open spec fn notice_of(message: Option<JsonView>) -> Option<NoticeView> {
    match message {
        Some(message) => Some(
            NoticeView {
                error: message.member_text("error"@),
                has_result: message.member_text("result"@) is Some,
                method: as_string(message.member("method"@)),
                signature: notification_signature(message),
            },
        ),
        None => None,
    }
}

fn read_notice(text: &str) -> (notice: Option<Notice>)
    ensures
        match notice {
            Some(notice) => notice_of(json_of(text@)) == Some(notice@),
            None => notice_of(json_of(text@)) is None,
        },
{
    match parse_json(text) {
        Some(message) => Some(
            Notice {
                error: message.member_text("error"),
                has_result: message.member_text("result").is_some(),
                method: into_string(message.member("method")),
                signature: extract_notification_signature(&message),
            },
        ),
        None => None,
    }
}

/// The wait for a notification.
#[derive(Debug)]
pub struct WsTask {
    /// Method of the notification that is waited for.
    pub expected_method: String,
    /// Signature that the notification must be about, if any.
    pub signature_filter: Option<String>,
    /// Whether the subscription is confirmed, or its confirmation of no interest.
    pub confirmed: bool,
    /// When the client says that it sent the transaction, in milliseconds since the UNIX epoch.
    pub client_timestamp_ms: u64,
}

/// What a wait holds.
pub ghost struct TaskView {
    pub expected_method: Seq<char>,
    pub signature_filter: Option<Seq<char>>,
    pub confirmed: bool,
    pub client_timestamp_ms: u64,
}

impl View for WsTask {
    type V = TaskView;

    open spec fn view(&self) -> TaskView {
        TaskView {
            expected_method: self.expected_method@,
            signature_filter: text_option_view(self.signature_filter),
            confirmed: self.confirmed,
            client_timestamp_ms: self.client_timestamp_ms,
        }
    }
}

/// What happens at the connection.
#[derive(Debug)]
pub enum TaskEvent {
    Text(String),
    Ping(Vec<u8>),
    /// A frame of another kind.
    Other,
    /// The connection is closed, or there is nothing more to read.
    Closed,
    /// Reading failed.
    Failed,
}

/// What happens, with a text read as a message.
pub ghost enum TaskEventView {
    /// What the text says, where it is JSON.
    Text(Option<NoticeView>),
    Ping(Seq<u8>),
    Other,
    Closed,
    Failed,
}

impl View for TaskEvent {
    type V = TaskEventView;

    open spec fn view(&self) -> TaskEventView {
        match *self {
            TaskEvent::Text(text) => TaskEventView::Text(notice_of(json_of(text@))),
            TaskEvent::Ping(payload) => TaskEventView::Ping(payload@),
            TaskEvent::Other => TaskEventView::Other,
            TaskEvent::Closed => TaskEventView::Closed,
            TaskEvent::Failed => TaskEventView::Failed,
        }
    }
}

/// What is to be done next.
#[derive(Debug)]
pub enum TaskAction {
    /// Read on.
    Wait,
    /// Say that the subscription is confirmed, and read on.
    Ready,
    /// Answer a ping, and read on.
    Pong(Vec<u8>),
    /// Stop: the notification arrived at that time, so much later than the client's timestamp,
    /// both in microseconds.
    Finish { arrival_micros: u128, latency_micros: u128 },
    /// Stop: the endpoint reported an error.
    Reject(String),
    /// Stop: the connection was closed before the notification arrived.
    ClosedEarly,
    /// Stop: reading failed.
    Fail,
}

/// What an action says.
pub ghost enum TaskActionView {
    Wait,
    Ready,
    Pong(Seq<u8>),
    Finish { arrival_micros: u128, latency_micros: u128 },
    Reject(Seq<char>),
    ClosedEarly,
    Fail,
}

impl View for TaskAction {
    type V = TaskActionView;

    open spec fn view(&self) -> TaskActionView {
        match *self {
            TaskAction::Wait => TaskActionView::Wait,
            TaskAction::Ready => TaskActionView::Ready,
            TaskAction::Pong(payload) => TaskActionView::Pong(payload@),
            TaskAction::Finish { arrival_micros, latency_micros } => TaskActionView::Finish {
                arrival_micros,
                latency_micros,
            },
            TaskAction::Reject(error) => TaskActionView::Reject(error@),
            TaskAction::ClosedEarly => TaskActionView::ClosedEarly,
            TaskAction::Fail => TaskActionView::Fail,
        }
    }
}

/// The time from a timestamp in milliseconds to one in microseconds, or none where the clocks
/// disagree on their order.
pub open spec fn micros_since(start_ms: u64, end_micros: u128) -> u128 {
    if start_ms * 1_000 <= end_micros {
        (end_micros - start_ms * 1_000) as u128
    } else {
        0
    }
}

impl TaskView {
    /// Whether a message is the notification that is waited for.
    pub open spec fn is_awaited(self, notice: NoticeView) -> bool {
        &&& notice.method == Some(self.expected_method)
        &&& self.signature_filter is Some ==> notice.signature == self.signature_filter
    }

    /// What is to be done about a message that arrived at that time.
    pub open spec fn action(self, notice: Option<NoticeView>, arrival_micros: u128) -> TaskActionView {
        match notice {
            None => TaskActionView::Wait,
            Some(notice) => if notice.error is Some {
                TaskActionView::Reject(notice.error->0)
            } else if !self.confirmed && notice.has_result {
                TaskActionView::Ready
            } else if self.is_awaited(notice) {
                TaskActionView::Finish {
                    arrival_micros,
                    latency_micros: micros_since(self.client_timestamp_ms, arrival_micros),
                }
            } else {
                TaskActionView::Wait
            },
        }
    }

    /// The wait after the message.
    pub open spec fn after(self, notice: Option<NoticeView>) -> TaskView {
        TaskView {
            confirmed: self.confirmed || self.action(notice, 0) is Ready,
            ..self
        }
    }

    /// What is to be done about what happened at that time.
    pub open spec fn response(self, event: TaskEventView, arrival_micros: u128) -> TaskActionView {
        match event {
            TaskEventView::Text(notice) => self.action(notice, arrival_micros),
            TaskEventView::Ping(payload) => TaskActionView::Pong(payload),
            TaskEventView::Other => TaskActionView::Wait,
            TaskEventView::Closed => TaskActionView::ClosedEarly,
            TaskEventView::Failed => TaskActionView::Fail,
        }
    }

    /// The wait after what happened.
    pub open spec fn next(self, event: TaskEventView) -> TaskView {
        match event {
            TaskEventView::Text(notice) => self.after(notice),
            _ => self,
        }
    }
}

/// Whether two optional texts agree.
fn same_optional_text(left: &Option<String>, right: &Option<String>) -> (same: bool)
    ensures
        same == (text_option_view(*left) == text_option_view(*right)),
{
    match (left, right) {
        (Some(left), Some(right)) => same_text(left.as_str(), right.as_str()),
        (None, None) => true,
        _ => false,
    }
}

impl WsTask {
    /// Starts to wait for the notification about a signature that was subscribed to.
    pub fn new(client_timestamp_ms: u64, confirmed: bool) -> (task: WsTask)
        ensures
            task@ == (TaskView {
                expected_method: "signatureNotification"@,
                signature_filter: None,
                confirmed,
                client_timestamp_ms,
            }),
    {
        WsTask {
            expected_method: "signatureNotification".to_owned(),
            signature_filter: None,
            confirmed,
            client_timestamp_ms,
        }
    }

    /// Decides what is to be done about a message that arrived at that time.
    pub fn judge(&mut self, notice: Option<Notice>, arrival_micros: u128) -> (action: TaskAction)
        ensures
            action@ == old(self)@.action(
                match notice {
                    Some(notice) => Some(notice@),
                    None => None,
                },
                arrival_micros,
            ),
            final(self)@ == old(self)@.after(
                match notice {
                    Some(notice) => Some(notice@),
                    None => None,
                },
            ),
    {
        let notice = match notice {
            Some(notice) => notice,
            None => {
                return TaskAction::Wait;
            },
        };
        if let Some(error) = notice.error {
            return TaskAction::Reject(error);
        }
        if !self.confirmed && notice.has_result {
            self.confirmed = true;
            return TaskAction::Ready;
        }
        let expected = match &notice.method {
            Some(method) => same_text(method.as_str(), self.expected_method.as_str()),
            None => false,
        };
        if !expected {
            return TaskAction::Wait;
        }
        if self.signature_filter.is_some() && !same_optional_text(
            &notice.signature,
            &self.signature_filter,
        ) {
            return TaskAction::Wait;
        }
        let client_micros = (self.client_timestamp_ms as u128) * 1_000;
        let latency_micros: u128 = if client_micros <= arrival_micros {
            arrival_micros - client_micros
        } else {
            0
        };
        TaskAction::Finish { arrival_micros, latency_micros }
    }

    /// Takes note of what happens at the connection, and says what is to be done next.
    pub fn advance(&mut self, event: TaskEvent) -> (action: TaskAction)
        ensures
            final(self)@ == old(self)@.next(event@),
            exists|reading: Option<Reading>|
                is_reading(reading) && action@ == old(self)@.response(
                    event@,
                    #[trigger] micros_of(reading),
                ),
            exists|arrival_micros: u128|
                action@ == #[trigger] old(self)@.response(event@, arrival_micros) && (event is Text
                    ==> is_time_micros(arrival_micros)),
    {
        let ghost before = self@;
        let ghost view = event@;
        let mut arrival_micros: u128 = 0;
        let action = match event {
            TaskEvent::Text(text) => {
                let notice = read_notice(text.as_str());
                arrival_micros = current_micros();
                self.judge(notice, arrival_micros)
            },
            TaskEvent::Ping(payload) => TaskAction::Pong(payload),
            TaskEvent::Other => TaskAction::Wait,
            TaskEvent::Closed => TaskAction::ClosedEarly,
            TaskEvent::Failed => TaskAction::Fail,
        };
        assert(action@ == before.response(view, arrival_micros));
        assert(micros_of(None) == 0);
        action
    }
}

/// A subscription is announced as confirmed once at most: a wait that has done so, or whose
/// confirmation is of no interest, does not do it again.
pub proof fn readiness_is_announced_once(
    task: TaskView,
    notice: Option<NoticeView>,
    arrival_micros: u128,
    later: Option<NoticeView>,
    later_micros: u128,
)
    requires
        task.confirmed || task.action(notice, arrival_micros) is Ready,
    ensures
        !(task.after(notice).action(later, later_micros) is Ready),
{
}

/// Only the notification that is waited for ends the wait well, and it does so unless it reports
/// an error or is taken for the confirmation of the subscription.
pub proof fn only_the_awaited_notification_finishes(
    task: TaskView,
    notice: NoticeView,
    arrival_micros: u128,
)
    ensures
        task.action(Some(notice), arrival_micros) is Finish <==> task.is_awaited(notice)
            && notice.error is None && (task.confirmed || !notice.has_result),
{
}

/// Whether an action ends the wait.
pub open spec fn is_last(action: TaskActionView) -> bool {
    match action {
        TaskActionView::Finish { .. } => true,
        TaskActionView::Reject(_) => true,
        TaskActionView::ClosedEarly => true,
        TaskActionView::Fail => true,
        _ => false,
    }
}

/// A wait from its start on: what it is by now, and what was done so far.
pub ghost struct TaskRun {
    pub task: TaskView,
    pub actions: Seq<TaskActionView>,
}

impl TaskRun {
    /// Whether the wait is over.
    pub open spec fn is_over(self) -> bool {
        self.actions.len() > 0 && is_last(self.actions.last())
    }

    /// Whether the wait ended well.
    pub open spec fn has_succeeded(self) -> bool {
        self.actions.len() > 0 && self.actions.last() is Finish
    }
}

impl TaskView {
    /// The wait once these things have happened, each at its time, or as many of them as happened
    /// before it was over.
    pub open spec fn run(self, events: Seq<(TaskEventView, u128)>) -> TaskRun
        decreases events.len(),
    {
        if events.len() == 0 {
            TaskRun { task: self, actions: Seq::empty() }
        } else {
            let earlier = self.run(events.drop_last());
            let (event, arrival_micros) = events.last();
            if earlier.is_over() {
                earlier
            } else {
                TaskRun {
                    task: earlier.task.next(event),
                    actions: earlier.actions.push(earlier.task.response(event, arrival_micros)),
                }
            }
        }
    }

    /// Whether the subscription is confirmed before the event of that position: it was at the
    /// start, or a message before has confirmed it.
    pub open spec fn is_confirmed_before(
        self,
        events: Seq<(TaskEventView, u128)>,
        position: int,
    ) -> bool {
        self.confirmed || exists|i: int| 0 <= i < position && confirms(#[trigger] events[i].0)
    }

    /// Whether the event of that position is the notification that is waited for, and not taken for
    /// the confirmation of the subscription.
    pub open spec fn is_notified_at(
        self,
        events: Seq<(TaskEventView, u128)>,
        position: int,
    ) -> bool {
        match events[position].0 {
            TaskEventView::Text(Some(notice)) => {
                &&& notice.error is None
                &&& notice.method == Some(self.expected_method)
                &&& self.signature_filter is None || notice.signature == self.signature_filter
                &&& notice.has_result ==> self.is_confirmed_before(events, position)
            },
            _ => false,
        }
    }

    /// Whether the notification that is waited for comes, and nothing before it breaks the wait off.
    pub open spec fn is_notified(self, events: Seq<(TaskEventView, u128)>) -> bool {
        exists|i: int|
            {
                &&& 0 <= i < events.len()
                &&& #[trigger] self.is_notified_at(events, i)
                &&& !is_broken_off(events, i)
            }
    }
}

/// Whether an event confirms a subscription that is not confirmed yet.
pub open spec fn confirms(event: TaskEventView) -> bool {
    match event {
        TaskEventView::Text(Some(notice)) => notice.error is None && notice.has_result,
        _ => false,
    }
}

/// Whether an event is a message of an error, the end of the connection or a failure to read.
pub open spec fn breaks_off(event: TaskEventView) -> bool {
    match event {
        TaskEventView::Text(Some(notice)) => notice.error is Some,
        TaskEventView::Closed => true,
        TaskEventView::Failed => true,
        _ => false,
    }
}

/// Whether one of so many events breaks the wait off.
pub open spec fn is_broken_off(events: Seq<(TaskEventView, u128)>, count: int) -> bool {
    exists|i: int| 0 <= i < count && breaks_off(#[trigger] events[i].0)
}

proof fn lemma_shorter(task: TaskView, events: Seq<(TaskEventView, u128)>, position: int)
    requires
        events.len() > 0,
        0 <= position < events.len(),
    ensures
        task.is_confirmed_before(events.drop_last(), position) == task.is_confirmed_before(
            events,
            position,
        ),
        is_broken_off(events.drop_last(), position) == is_broken_off(events, position),
        position < events.len() - 1 ==> task.is_notified_at(events.drop_last(), position)
            == task.is_notified_at(events, position),
{
    let shorter = events.drop_last();
    assert forall|i: int| 0 <= i < position implies #[trigger] shorter[i] == events[i] by {}
    if exists|i: int| 0 <= i < position && confirms(#[trigger] events[i].0) {
        let i = choose|i: int| 0 <= i < position && confirms(#[trigger] events[i].0);
        assert(confirms(shorter[i].0));
    }
    if is_broken_off(events, position) {
        let i = choose|i: int| 0 <= i < position && breaks_off(#[trigger] events[i].0);
        assert(breaks_off(shorter[i].0));
    }
}

proof fn lemma_run(task: TaskView, events: Seq<(TaskEventView, u128)>)
    ensures
        ({
            let run = task.run(events);
            &&& !run.is_over() ==> {
                &&& run.task == (TaskView {
                    confirmed: task.is_confirmed_before(events, events.len() as int),
                    ..task
                })
                &&& run.actions.len() == events.len()
                &&& !is_broken_off(events, events.len() as int)
            }
            &&& run.has_succeeded() <==> task.is_notified(events)
            &&& run.is_over() && !run.has_succeeded() ==> is_broken_off(events, events.len() as int)
        }),
    decreases events.len(),
{
    if events.len() > 0 {
        let shorter = events.drop_last();
        let last = events.len() - 1;
        let (event, arrival_micros) = events[last];
        let earlier = task.run(shorter);
        let run = task.run(events);
        lemma_run(task, shorter);
        lemma_shorter(task, events, last);
        if task.is_notified(shorter) {
            let i = choose|i: int|
                {
                    &&& 0 <= i < shorter.len()
                    &&& #[trigger] task.is_notified_at(shorter, i)
                    &&& !is_broken_off(shorter, i)
                };
            lemma_shorter(task, events, i);
            assert(task.is_notified_at(events, i));
        }
        if task.is_notified(events) {
            let i = choose|i: int|
                {
                    &&& 0 <= i < events.len()
                    &&& #[trigger] task.is_notified_at(events, i)
                    &&& !is_broken_off(events, i)
                };
            lemma_shorter(task, events, i);
            if i < last {
                assert(task.is_notified_at(shorter, i));
            }
        }
        if is_broken_off(shorter, last) {
            let i = choose|i: int| 0 <= i < last && breaks_off(#[trigger] shorter[i].0);
            assert(breaks_off(events[i].0));
        }
        if is_broken_off(events, events.len() as int) {
            let i = choose|i: int| 0 <= i < events.len() && breaks_off(#[trigger] events[i].0);
            if i < last {
                assert(breaks_off(shorter[i].0));
                assert(is_broken_off(shorter, last));
            }
        }
        if earlier.is_over() {
            if !earlier.has_succeeded() && task.is_notified(events) {
                let i = choose|i: int|
                    {
                        &&& 0 <= i < events.len()
                        &&& #[trigger] task.is_notified_at(events, i)
                        &&& !is_broken_off(events, i)
                    };
                if i < last {
                    lemma_shorter(task, events, i);
                    assert(task.is_notified_at(shorter, i));
                }
            }
        } else {
            assert(task.is_confirmed_before(events, events.len() as int)
                == (task.is_confirmed_before(events, last) || confirms(event))) by {
                if confirms(event) {
                    assert(confirms(events[last].0));
                }
            }
            assert(run.actions.last() == earlier.task.response(event, arrival_micros));
            assert(run.has_succeeded() == task.is_notified_at(events, last));
            if breaks_off(event) {
                assert(breaks_off(events[last].0));
            }
        }
    }
}

/// A wait ends well exactly when the notification that is waited for comes before the endpoint
/// reports an error, the connection is closed or reading fails; it ends otherwise exactly when one
/// of these comes first; and it goes on as long as neither has come.
pub proof fn waits_end_with_the_first_that_comes(
    task: TaskView,
    events: Seq<(TaskEventView, u128)>,
)
    ensures
        task.run(events).has_succeeded() <==> task.is_notified(events),
        task.run(events).is_over() && !task.run(events).has_succeeded() <==> is_broken_off(
            events,
            events.len() as int,
        ) && !task.is_notified(events),
{
    lemma_run(task, events);
}

/// However long a wait is, readiness is announced once at most, and never where the subscription's
/// confirmation is of no interest.
pub proof fn readiness_is_announced_once_in_a_run(
    task: TaskView,
    events: Seq<(TaskEventView, u128)>,
)
    ensures
        ({
            let run = task.run(events);
            &&& forall|i: int, j: int|
                0 <= i < j < run.actions.len() && (#[trigger] run.actions[i]) is Ready ==> !((
                #[trigger] run.actions[j]) is Ready)
            &&& task.confirmed ==> forall|i: int|
                0 <= i < run.actions.len() ==> !((#[trigger] run.actions[i]) is Ready)
            &&& run.task.confirmed <==> task.confirmed || exists|i: int|
                0 <= i < run.actions.len() && (#[trigger] run.actions[i]) is Ready
        }),
    decreases events.len(),
{
    if events.len() > 0 {
        let earlier = task.run(events.drop_last());
        let run = task.run(events);
        readiness_is_announced_once_in_a_run(task, events.drop_last());
        if !earlier.is_over() {
            let last = earlier.actions.len() as int;
            assert(forall|i: int|
                0 <= i < last ==> #[trigger] run.actions[i] == earlier.actions[i]);
            if exists|i: int| 0 <= i < last && (#[trigger] earlier.actions[i]) is Ready {
                let i = choose|i: int| 0 <= i < last && (#[trigger] earlier.actions[i]) is Ready;
                assert(run.actions[i] is Ready);
            }
            if run.actions[last] is Ready {
                assert(forall|i: int|
                    0 <= i < last ==> !((#[trigger] earlier.actions[i]) is Ready));
            }
        }
    }
}

/// What is to be done about a message is decided by the first of these that holds: it is not JSON, it
/// reports an error, it brings a result that confirms the subscription, it has another method, it is
/// about another signature than the one asked for. Else the wait ends, with the time that passed since
/// the client's timestamp, which is none where the clocks disagree on their order.
pub proof fn messages_are_judged_by_what_they_say(
    task: TaskView,
    notice: NoticeView,
    arrival_micros: u128,
)
    ensures
        ({
            let action = task.action(Some(notice), arrival_micros);
            let sent = task.client_timestamp_ms * 1_000;
            let ready = !task.confirmed && notice.has_result;
            let awaited = notice.method == Some(task.expected_method) && (
            task.signature_filter is None || notice.signature == task.signature_filter);
            &&& task.action(None, arrival_micros) is Wait
            &&& notice.error is Some ==> action == TaskActionView::Reject(notice.error->0)
            &&& notice.error is None && ready ==> action is Ready
            &&& notice.error is None && !ready && !awaited ==> action is Wait
            &&& notice.error is None && !ready && awaited ==> {
                &&& action is Finish
                &&& action->arrival_micros == arrival_micros
                &&& sent <= arrival_micros ==> sent + action->latency_micros == arrival_micros
                &&& sent > arrival_micros ==> action->latency_micros == 0
            }
        }),
{
}

/// A wait stays what it is but for the confirmation, which a message brings that announces readiness;
/// frames that carry no message change nothing, and each has its answer.
pub proof fn waits_only_get_confirmed(
    task: TaskView,
    notice: Option<NoticeView>,
    payload: Seq<u8>,
    arrival_micros: u128,
)
    ensures
        ({
            let after = task.next(TaskEventView::Text(notice));
            &&& after.expected_method == task.expected_method
            &&& after.signature_filter == task.signature_filter
            &&& after.client_timestamp_ms == task.client_timestamp_ms
            &&& after.confirmed <==> task.confirmed || (notice is Some && notice->0.error is None
                && notice->0.has_result)
            &&& task.response(TaskEventView::Text(notice), arrival_micros) == task.action(
                notice,
                arrival_micros,
            )
        }),
        forall|event: TaskEventView| !(event is Text) ==> #[trigger] task.next(event) == task,
        task.response(TaskEventView::Ping(payload), arrival_micros) == TaskActionView::Pong(payload),
        task.response(TaskEventView::Other, arrival_micros) is Wait,
        task.response(TaskEventView::Closed, arrival_micros) is ClosedEarly,
        task.response(TaskEventView::Failed, arrival_micros) is Fail,
{
}

/// The JSON value at a member of an object.
pub open spec fn value_at(json: Option<JsonView>, name: Seq<char>) -> Option<JsonView> {
    match json {
        Some(JsonView::Object(members)) => if members.contains_key(name) {
            json_of(members[name])
        } else {
            None
        },
        _ => None,
    }
}

/// A message says what its members say: an error and a result where it has such members, whatever
/// they are, the method where that is a string, and the signature that it is about.
pub proof fn messages_say_what_their_members_say(message: JsonView)
    ensures
        notice_of(None) is None,
        notice_of(Some(message)) is Some,
        ({
            let notice = notice_of(Some(message))->0;
            let members = message->Object_0;
            let result = value_at(value_at(Some(message), "params"@), "result"@);
            let direct = value_at(result, "signature"@);
            let list = value_at(
                value_at(
                    value_at(value_at(result, "value"@), "transaction"@),
                    "transaction"@,
                ),
                "signatures"@,
            );
            &&& notice.error is Some <==> message is Object && members.contains_key("error"@)
            &&& notice.error is Some ==> notice.error->0 == members["error"@]
            &&& notice.has_result <==> message is Object && members.contains_key("result"@)
            &&& match value_at(Some(message), "method"@) {
                Some(JsonView::Text(method)) => notice.method == Some(method),
                _ => notice.method is None,
            }
            &&& notice.signature == match direct {
                Some(JsonView::Text(signature)) => Some(signature),
                _ => match list {
                    Some(JsonView::Array(items)) => if items.len() > 0 {
                        match json_of(items[0]) {
                            Some(JsonView::Text(signature)) => Some(signature),
                            _ => None,
                        }
                    } else {
                        None
                    },
                    _ => None,
                },
            }
        }),
{
}

/// The request that subscribes to a signature elsewhere is a JSON object that names the method, with
/// the signature and the lowest commitment as parameters.
pub proof fn subscription_requests_are_json_rpc_objects(signature: Seq<char>)
    ensures
        ({
            let config = object_text(seq![("commitment"@, "\"processed\""@)]);
            subscription_request(signature) == object_text(
                seq![
                    ("id"@, "1"@),
                    ("jsonrpc"@, "\"2.0\""@),
                    ("method"@, "\"signatureSubscribe\""@),
                    ("params"@, seq!['['] + json_string(signature) + seq![','] + config + seq![']']),
                ],
            )
        }),
{
    let config = object_text(seq![("commitment"@, "\"processed\""@)]);
    let text = json_string(signature);
    let pad = ("id"@, "1"@);
    lemma_object_text(("commitment"@, "\"processed\""@), pad, pad, pad);
    lemma_object_text(
        pad,
        ("jsonrpc"@, "\"2.0\""@),
        ("method"@, "\"signatureSubscribe\""@),
        ("params"@, seq!['['] + text + seq![','] + config + seq![']']),
    );
    let front = seq!['{'] + (member_as_text("id"@, "1"@) + seq![','] + member_as_text(
        "jsonrpc"@,
        "\"2.0\""@,
    ) + seq![','] + member_as_text("method"@, "\"signatureSubscribe\""@) + seq![',']);
    lemma_params_text(front, text, config);
    lemma_subscription_literals();
    assert(object_text(
        seq![
            pad,
            ("jsonrpc"@, "\"2.0\""@),
            ("method"@, "\"signatureSubscribe\""@),
            ("params"@, seq!['['] + text + seq![','] + config + seq![']']),
        ],
    ) =~= front + member_as_text("params"@, seq!['['] + text + seq![','] + config + seq![']']) + seq![
        '}',
    ]);
}

proof fn lemma_params_text(front: Seq<char>, text: Seq<char>, config: Seq<char>)
    ensures
        front + member_as_text("params"@, seq!['['] + text + seq![','] + config + seq![']']) + seq![
            '}',
        ] == (front + member_as_text("params"@, seq!['['])) + text + (seq![','] + config + seq![
            ']',
            '}',
        ]),
{
    let label = seq!['"'] + "params"@ + seq!['"', ':'];
    assert(front + (label + (seq!['['] + text + seq![','] + config + seq![']'])) + seq!['}'] =~= (
    front + (label + seq!['['])) + text + (seq![','] + config + seq![']', '}']));
}

proof fn lemma_subscription_literals()
    ensures
        "{\"id\":1,\"jsonrpc\":\"2.0\",\"method\":\"signatureSubscribe\",\"params\":["@
            == seq!['{'] + (member_as_text("id"@, "1"@) + seq![','] + member_as_text(
            "jsonrpc"@,
            "\"2.0\""@,
        ) + seq![','] + member_as_text("method"@, "\"signatureSubscribe\""@) + seq![','])
            + member_as_text("params"@, seq!['[']),
        ",{\"commitment\":\"processed\"}]}"@ == seq![','] + (seq!['{'] + member_as_text(
            "commitment"@,
            "\"processed\""@,
        ) + seq!['}']) + seq![']', '}'],
{
    reveal_strlit("{\"id\":1,\"jsonrpc\":\"2.0\",\"method\":\"signatureSubscribe\",\"params\":[");
    reveal_strlit(",{\"commitment\":\"processed\"}]}");
    reveal_strlit("id");
    reveal_strlit("1");
    reveal_strlit("jsonrpc");
    reveal_strlit("\"2.0\"");
    reveal_strlit("method");
    reveal_strlit("\"signatureSubscribe\"");
    reveal_strlit("params");
    reveal_strlit("commitment");
    reveal_strlit("\"processed\"");
}

/// A new wait is for the notification about a signature that was subscribed to, whichever that is.
pub proof fn new_waits_are_for_any_notification(
    client_timestamp_ms: u64,
    confirmed: bool,
    task: WsTask,
)
    requires
        call_ensures(WsTask::new, (client_timestamp_ms, confirmed), task),
    ensures
        task.expected_method@ == "signatureNotification"@,
        task@.signature_filter is None,
        task.confirmed == confirmed,
        task.client_timestamp_ms == client_timestamp_ms,
{
}

/// A message that is judged ends the wait well exactly where it reports no error, does not confirm the
/// subscription, has the method that is waited for, and is about the signature that is waited for, if
/// any. The latency is the time from the client's timestamp to the arrival.
pub proof fn judged_messages_end_the_wait(
    task: &mut WsTask,
    notice: Notice,
    arrival_micros: u128,
    action: TaskAction,
)
    requires
        call_ensures(WsTask::judge, (task, Some(notice), arrival_micros), action),
    ensures
        ({
            let sent = old(task).client_timestamp_ms * 1_000;
            let ready = notice.error is None && !old(task).confirmed && notice.has_result;
            &&& action is Reject <==> notice.error is Some
            &&& action is Reject ==> action->Reject_0@ == notice.error->0@
            &&& action is Ready <==> ready
            &&& final(task).confirmed == (old(task).confirmed || ready)
            &&& action is Finish <==> {
                &&& notice.error is None
                &&& !ready
                &&& notice.method is Some && notice.method->0@ == old(task).expected_method@
                &&& old(task).signature_filter is Some ==> notice.signature is Some
                    && notice.signature->0@ == old(task).signature_filter->0@
            }
            &&& action is Finish ==> {
                &&& action->arrival_micros == arrival_micros
                &&& sent <= arrival_micros ==> sent + action->latency_micros == arrival_micros
                &&& sent > arrival_micros ==> action->latency_micros == 0
            }
        }),
{
    assert(old(task)@.action(Some(notice@), arrival_micros) == action@);
    assert(final(task)@ == old(task)@.after(Some(notice@)));
    assert(old(task)@.confirmed == old(task).confirmed);
    assert(final(task)@.confirmed == final(task).confirmed);
}

/// A wait that ends well ends at a time that the clock gave while the message was handled.
pub proof fn waits_end_when_the_clock_says(task: &mut WsTask, event: TaskEvent, action: TaskAction)
    requires
        call_ensures(WsTask::advance, (task, event), action),
        action is Finish,
    ensures
        event is Text,
        is_time_micros(action->arrival_micros),
{
}

} // verus!
