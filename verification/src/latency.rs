//! The client that measures how long a transaction takes to be observed.
use crate::clock::{
    checked_timestamp, is_reading, is_shown, read_clock, timestamp_of, ClockError, Reading,
};
use crate::followup::{
    base64_text, encode_base64, is_transaction, payload_of, PayloadView, MAX_TRANSACTION_BYTES,
};
use crate::json::{
    json_of, json_option_view, json_string, parse_json, write_string, Json, JsonView,
};
use crate::jsonrpc::{lemma_object_text, member_as_text, object_text};
use crate::text::{decimal, decimal_text, text_option_view};
use vstd::prelude::*;
use vstd::string::StringExecFns;

verus! {

/// The request that subscribes to a transaction and has it sent.
pub open spec fn subscribe_tx_request(
    tx_sig: Seq<char>,
    timestamp_ms: u64,
    transaction: Seq<char>,
) -> Seq<char> {
    "{\"id\":1,\"jsonrpc\":\"2.0\",\"method\":\"subscribe_tx\",\"params\":[{\"timestamp\":"@
        + decimal(timestamp_ms as nat) + ",\"transaction\":"@ + json_string(transaction)
        + ",\"tx_sig\":"@ + json_string(tx_sig) + "}]}"@
}

/// Writes the request that subscribes to a transaction and has it sent.
pub fn write_subscribe_tx_request(tx_sig: &str, timestamp_ms: u64, transaction: &str) -> (request:
    String)
    ensures
        request@ == subscribe_tx_request(tx_sig@, timestamp_ms, transaction@),
{
    let mut request =
        "{\"id\":1,\"jsonrpc\":\"2.0\",\"method\":\"subscribe_tx\",\"params\":[{\"timestamp\":".to_owned();
    request.append(decimal_text(timestamp_ms).as_str());
    request.append(",\"transaction\":");
    request.append(write_string(transaction).as_str());
    request.append(",\"tx_sig\":");
    request.append(write_string(tx_sig).as_str());
    request.append("}]}");
    request
}

/// Writes the request that subscribes to a transaction, given as it is serialized. The request
/// holds it in base 64, and a server that is given that text takes it for the same bytes.
pub fn write_transaction_request(tx_sig: &str, timestamp_ms: u64, transaction: &[u8]) -> (request:
    String)
    requires
        transaction@.len() <= MAX_TRANSACTION_BYTES,
    ensures
        request@ == subscribe_tx_request(tx_sig@, timestamp_ms, base64_text(transaction@)),
        payload_of(Some(base64_text(transaction@))) == PayloadView::Bytes(
            transaction@,
            is_transaction(transaction@),
        ),
{
    let text = encode_base64(transaction);
    write_subscribe_tx_request(tx_sig, timestamp_ms, text.as_str())
}

/// What became of a request.
#[derive(Debug)]
pub enum SubscribeOutcome {
    Accepted,
    /// The server answered with another status than success.
    BadStatus,
    /// The answer is not JSON.
    BadBody,
    /// The server refused the request, with this error, a JSON text.
    Refused(String),
}

/// What an outcome says.
pub ghost enum OutcomeView {
    Accepted,
    BadStatus,
    BadBody,
    Refused(Seq<char>),
}

impl View for SubscribeOutcome {
    type V = OutcomeView;

    open spec fn view(&self) -> OutcomeView {
        match *self {
            SubscribeOutcome::Accepted => OutcomeView::Accepted,
            SubscribeOutcome::BadStatus => OutcomeView::BadStatus,
            SubscribeOutcome::BadBody => OutcomeView::BadBody,
            SubscribeOutcome::Refused(error) => OutcomeView::Refused(error@),
        }
    }
}

/// What an answer says: with a status of success or another, and that JSON value, if any.
pub open spec fn outcome_of(success: bool, body: Option<JsonView>) -> OutcomeView {
    if !success {
        OutcomeView::BadStatus
    } else {
        match body {
            Some(body) => match body.member_text("error"@) {
                Some(error) => OutcomeView::Refused(error),
                None => OutcomeView::Accepted,
            },
            None => OutcomeView::BadBody,
        }
    }
}

/// Judges an answer that is that JSON value, if any.
pub fn judge_answer(success: bool, body: Option<Json>) -> (outcome: SubscribeOutcome)
    ensures
        outcome@ == outcome_of(success, json_option_view(body)),
{
    if !success {
        return SubscribeOutcome::BadStatus;
    }
    match body {
        Some(body) => match body.member_text("error") {
            Some(error) => SubscribeOutcome::Refused(error),
            None => SubscribeOutcome::Accepted,
        },
        None => SubscribeOutcome::BadBody,
    }
}

/// Judges the text of an answer.
pub fn call_subscribe_tx(success: bool, body: &str) -> (outcome: SubscribeOutcome)
    ensures
        outcome@ == outcome_of(success, json_of(body@)),
{
    judge_answer(success, parse_json(body))
}

/// How a timestamp is written as a date and time in UTC, to the millisecond.
pub const TIMESTAMP_PATTERN: &'static str = "%Y-%m-%d %H:%M:%S%.3f UTC";

/// The calendar date and time of a moment after the UNIX epoch, written by a pattern, where the
/// calendar reaches that far.
pub uninterp spec fn calendar_text(secs: i64, nanos: u32, pattern: Seq<char>) -> Option<Seq<char>>;

/// `DateTime::from_timestamp` and `format` of `chrono`: the date and time in UTC of a moment,
/// written by the pattern, or nothing where it lies beyond `chrono`'s calendar. `format` panics on
/// some patterns, though not on this one.
#[verifier::external_body]
fn format_moment(secs: i64, nanos: u32, pattern: &str) -> (text: Option<String>)
    requires
        pattern@ == TIMESTAMP_PATTERN@,
    ensures
        match text {
            Some(text) => calendar_text(secs, nanos, pattern@) == Some(text@),
            None => calendar_text(secs, nanos, pattern@) is None,
        },
{
    let moment = chrono::DateTime::<chrono::Utc>::from_timestamp(secs, nanos)?;
    Some(moment.format(pattern).to_string())
}

/// The text of a moment: its date and time, or a number where it lies beyond the calendar.
pub open spec fn date_or_number(date: Option<Seq<char>>, timestamp_ms: u64) -> Seq<char> {
    match date {
        Some(date) => date,
        None => decimal(timestamp_ms as nat),
    }
}

/// Writes the date and time where there is one, and else the number.
pub fn choose_timestamp_text(date: Option<String>, timestamp_ms: u64) -> (text: String)
    ensures
        text@ == date_or_number(text_option_view(date), timestamp_ms),
{
    match date {
        Some(date) => date,
        None => decimal_text(timestamp_ms),
    }
}

/// Writes a timestamp in milliseconds since the UNIX epoch as a date and time, or as a number
/// where it lies beyond the calendar.
pub fn format_timestamp(timestamp_ms: u64) -> (text: String)
    ensures
        text@ == date_or_number(
            calendar_text(
                (timestamp_ms / 1_000) as i64,
                ((timestamp_ms % 1_000) * 1_000_000) as u32,
                TIMESTAMP_PATTERN@,
            ),
            timestamp_ms,
        ),
{
    let secs: i64 = (timestamp_ms / 1_000) as i64;
    let nanos: u32 = ((timestamp_ms % 1_000) * 1_000_000) as u32;
    choose_timestamp_text(format_moment(secs, nanos, TIMESTAMP_PATTERN), timestamp_ms)
}

/// The time in milliseconds since the UNIX epoch, unless the clock is before it.
pub fn current_timestamp_ms() -> (timestamp: Result<u64, ClockError>)
    ensures
        exists|reading: Option<Reading>|
            is_shown(reading) && is_reading(reading) && timestamp == #[trigger] timestamp_of(
                reading,
            ),
{
    let reading = read_clock();
    assert(is_shown(reading) && is_reading(reading));
    checked_timestamp(reading)
}

/// An answer is taken for acceptance exactly where its status is success and it is JSON without a
/// member `error`; where it has one, that is the refusal.
pub proof fn answers_are_judged(success: bool, body: Option<JsonView>, error: Seq<char>)
    ensures
        outcome_of(success, body) is BadStatus <==> !success,
        outcome_of(success, body) is BadBody <==> success && body is None,
        outcome_of(success, body) == OutcomeView::Refused(error) <==> {
            &&& success
            &&& body is Some && body->0 is Object
            &&& body->0->Object_0.contains_key("error"@)
            &&& body->0->Object_0["error"@] == error
        },
        outcome_of(success, body) is Accepted <==> success && body is Some && !(body->0 is Object
            && body->0->Object_0.contains_key("error"@)),
{
}

/// The seconds and nanoseconds that a timestamp is written by make up its milliseconds, and beyond
/// the calendar the number itself is written.
pub proof fn timestamps_are_written_to_the_millisecond(timestamp_ms: u64, text: String)
    requires
        call_ensures(format_timestamp, (timestamp_ms,), text),
    ensures
        exists|secs: i64, nanos: u32|
            {
                &&& secs * 1_000_000_000 + nanos == timestamp_ms * 1_000_000
                &&& nanos < 1_000_000_000
                &&& match #[trigger] calendar_text(secs, nanos, "%Y-%m-%d %H:%M:%S%.3f UTC"@) {
                    Some(date) => text@ == date,
                    None => text@ == decimal(timestamp_ms as nat),
                }
            },
{
    let secs = (timestamp_ms / 1_000) as i64;
    let nanos = ((timestamp_ms % 1_000) * 1_000_000) as u32;
    assert(secs == timestamp_ms / 1_000);
    assert(nanos == (timestamp_ms % 1_000) * 1_000_000);
    assert(date_or_number(
        calendar_text(secs, nanos, "%Y-%m-%d %H:%M:%S%.3f UTC"@),
        timestamp_ms,
    ) == text@);
}

/// The request that subscribes to a transaction is a JSON object that names the method, with one
/// parameter: an object of the timestamp, the transaction and the signature.
pub proof fn requests_are_json_rpc_objects(
    tx_sig: Seq<char>,
    timestamp_ms: u64,
    transaction: Seq<char>,
)
    ensures
        ({
            let param = object_text(
                seq![
                    ("timestamp"@, decimal(timestamp_ms as nat)),
                    ("transaction"@, json_string(transaction)),
                    ("tx_sig"@, json_string(tx_sig)),
                ],
            );
            subscribe_tx_request(tx_sig, timestamp_ms, transaction) == object_text(
                seq![
                    ("id"@, "1"@),
                    ("jsonrpc"@, "\"2.0\""@),
                    ("method"@, "\"subscribe_tx\""@),
                    ("params"@, seq!['['] + param + seq![']']),
                ],
            )
        }),
{
    let time = decimal(timestamp_ms as nat);
    let bytes = json_string(transaction);
    let signature = json_string(tx_sig);
    let param = object_text(
        seq![("timestamp"@, time), ("transaction"@, bytes), ("tx_sig"@, signature)],
    );
    let params = seq!['['] + param + seq![']'];
    lemma_object_text(
        ("timestamp"@, time),
        ("transaction"@, bytes),
        ("tx_sig"@, signature),
        ("tx_sig"@, signature),
    );
    lemma_object_text(
        ("id"@, "1"@),
        ("jsonrpc"@, "\"2.0\""@),
        ("method"@, "\"subscribe_tx\""@),
        ("params"@, params),
    );
    let whole = object_text(
        seq![
            ("id"@, "1"@),
            ("jsonrpc"@, "\"2.0\""@),
            ("method"@, "\"subscribe_tx\""@),
            ("params"@, params),
        ],
    );
    let id = member_as_text("id"@, "1"@);
    let version = member_as_text("jsonrpc"@, "\"2.0\""@);
    let method = member_as_text("method"@, "\"subscribe_tx\""@);
    let front = seq!['{'] + (id + seq![','] + version + seq![','] + method + seq![',']);
    lemma_parts(front, time, bytes, signature);
    assert(whole =~= front + member_as_text("params"@, params) + seq!['}']);
    lemma_request_literals();
}

proof fn lemma_parts(
    front: Seq<char>,
    time: Seq<char>,
    bytes: Seq<char>,
    signature: Seq<char>,
)
    ensures
        ({
            let param = seq!['{'] + (member_as_text("timestamp"@, time) + seq![',']
                + member_as_text("transaction"@, bytes) + seq![','] + member_as_text(
                "tx_sig"@,
                signature,
            )) + seq!['}'];
            front + member_as_text("params"@, seq!['['] + param + seq![']']) + seq!['}'] == (front
                + member_as_text("params"@, seq!['[', '{']) + member_as_text(
                "timestamp"@,
                Seq::empty(),
            )) + time + (seq![','] + member_as_text("transaction"@, Seq::empty())) + bytes + (seq![
                ',',
            ] + member_as_text("tx_sig"@, Seq::empty())) + signature + seq!['}', ']', '}']
        }),
{
    let a = seq!['"'] + "timestamp"@ + seq!['"', ':'];
    let b = seq!['"'] + "transaction"@ + seq!['"', ':'];
    let c = seq!['"'] + "tx_sig"@ + seq!['"', ':'];
    let d = seq!['"'] + "params"@ + seq!['"', ':'];
    assert(member_as_text("timestamp"@, Seq::empty()) =~= a);
    assert(member_as_text("transaction"@, Seq::empty()) =~= b);
    assert(member_as_text("tx_sig"@, Seq::empty()) =~= c);
    lemma_flat(front + d, a, time, b, bytes, c, signature);
    assert(front + member_as_text("params"@, seq!['[', '{']) =~= front + d + seq!['[', '{']);
    let param = seq!['{'] + (member_as_text("timestamp"@, time) + seq![','] + member_as_text(
        "transaction"@,
        bytes,
    ) + seq![','] + member_as_text("tx_sig"@, signature)) + seq!['}'];
    assert(front + member_as_text("params"@, seq!['['] + param + seq![']']) =~= front + d + (seq![
        '[',
    ] + param + seq![']']));
}

proof fn lemma_flat(
    front: Seq<char>,
    a: Seq<char>,
    time: Seq<char>,
    b: Seq<char>,
    bytes: Seq<char>,
    c: Seq<char>,
    signature: Seq<char>,
)
    ensures
        front + (seq!['['] + (seq!['{'] + (a + time + seq![','] + (b + bytes) + seq![','] + (c
            + signature)) + seq!['}']) + seq![']']) + seq!['}'] == (front + seq!['[', '{'] + a)
            + time + (seq![','] + b) + bytes + (seq![','] + c) + signature + seq!['}', ']', '}'],
{
    assert(front + (seq!['['] + (seq!['{'] + (a + time + seq![','] + (b + bytes) + seq![','] + (c
        + signature)) + seq!['}']) + seq![']']) + seq!['}'] =~= (front + seq!['[', '{'] + a) + time
        + (seq![','] + b) + bytes + (seq![','] + c) + signature + seq!['}', ']', '}']);
}

proof fn lemma_request_literals()
    ensures
        "{\"id\":1,\"jsonrpc\":\"2.0\",\"method\":\"subscribe_tx\",\"params\":[{\"timestamp\":"@
            == seq!['{'] + (member_as_text("id"@, "1"@) + seq![','] + member_as_text(
            "jsonrpc"@,
            "\"2.0\""@,
        ) + seq![','] + member_as_text("method"@, "\"subscribe_tx\""@) + seq![','])
            + member_as_text("params"@, seq!['[', '{']) + member_as_text("timestamp"@, Seq::empty()),
        ",\"transaction\":"@ == seq![','] + member_as_text("transaction"@, Seq::empty()),
        ",\"tx_sig\":"@ == seq![','] + member_as_text("tx_sig"@, Seq::empty()),
        "}]}"@ == seq!['}', ']', '}'],
{
    reveal_strlit(
        "{\"id\":1,\"jsonrpc\":\"2.0\",\"method\":\"subscribe_tx\",\"params\":[{\"timestamp\":",
    );
    reveal_strlit(",\"transaction\":");
    reveal_strlit(",\"tx_sig\":");
    reveal_strlit("}]}");
    reveal_strlit("id");
    reveal_strlit("1");
    reveal_strlit("jsonrpc");
    reveal_strlit("\"2.0\"");
    reveal_strlit("method");
    reveal_strlit("\"subscribe_tx\"");
    reveal_strlit("params");
    reveal_strlit("timestamp");
    reveal_strlit("transaction");
    reveal_strlit("tx_sig");
}

} // verus!
