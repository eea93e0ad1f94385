//! What is done for a transaction once it is subscribed to: its confirmation is awaited at other
//! endpoints too, and then it is sent.
use crate::rpc::{EndpointsView, Followup, FollowupView, WebSocketEndpointsConfig};
use crate::text::text_option_view;
use base64::engine::general_purpose::STANDARD;
use base64::Engine;
use solana_sdk::transaction::Transaction;
use vstd::prelude::*;

verus! {

/// An endpoint that confirms transactions.
#[derive(Debug)]
pub struct Endpoint {
    pub name: String,
    pub url: String,
}

/// What an endpoint holds.
pub ghost struct EndpointView {
    pub name: Seq<char>,
    pub url: Seq<char>,
}

impl View for Endpoint {
    type V = EndpointView;

    open spec fn view(&self) -> EndpointView {
        EndpointView { name: self.name@, url: self.url@ }
    }
}

pub open spec fn endpoint_views(endpoints: Seq<Endpoint>) -> Seq<EndpointView> {
    endpoints.map_values(|e: Endpoint| e@)
}

/// The endpoint of that name, where it has an address.
pub open spec fn endpoint(name: Seq<char>, url: Option<Seq<char>>) -> Seq<EndpointView> {
    match url {
        Some(url) => seq![EndpointView { name, url }],
        None => Seq::empty(),
    }
}

/// The endpoints that are configured.
pub open spec fn endpoints(config: EndpointsView) -> Seq<EndpointView> {
    endpoint("Shred WS"@, config.shred_ws_url) + endpoint("Local WS"@, config.local_ws_url)
        + endpoint("Local Enhanced WS"@, config.local_enhanced_ws_url) + endpoint(
        "Helius WS"@,
        config.helius_ws_url,
    )
}

fn add_endpoint(list: &mut Vec<Endpoint>, name: &str, url: &Option<String>)
    ensures
        endpoint_views(final(list)@) == endpoint_views(old(list)@) + endpoint(
            name@,
            text_option_view(*url),
        ),
        final(list)@.len() <= old(list)@.len() + 1,
{
    let ghost before = list@;
    match url {
        Some(url) => {
            list.push(Endpoint { name: name.to_owned(), url: url.clone() });
            assert(endpoint_views(list@) =~= endpoint_views(before) + endpoint(name@, Some(url@)));
        },
        None => {
            assert(endpoint_views(list@) =~= endpoint_views(before) + endpoint(name@, None));
        },
    }
}

/// Lists the endpoints that are configured.
pub fn configured_endpoints(config: &WebSocketEndpointsConfig) -> (list: Vec<Endpoint>)
    ensures
        endpoint_views(list@) == endpoints(config@),
        list@.len() <= 4,
{
    let mut list: Vec<Endpoint> = Vec::new();
    assert(endpoint_views(list@) =~= Seq::empty());
    add_endpoint(&mut list, "Shred WS", &config.shred_ws_url);
    add_endpoint(&mut list, "Local WS", &config.local_ws_url);
    add_endpoint(&mut list, "Local Enhanced WS", &config.local_enhanced_ws_url);
    add_endpoint(&mut list, "Helius WS", &config.helius_ws_url);
    assert(endpoint_views(list@) =~= endpoints(config@));
    list
}

/// How many endpoints are ready to confirm a transaction, and whether to wait for more of them.
#[derive(Clone, Copy, Debug, PartialEq, Eq, Structural)]
pub enum Readiness {
    Waiting { ready: usize, expected: usize },
    Settled { ready: usize, expected: usize },
}

/// What happens while endpoints get ready.
#[derive(Clone, Copy, Debug, PartialEq, Eq, Structural)]
pub enum ReadinessEvent {
    /// One more is ready.
    Confirmed,
    /// The time to wait is over.
    Timeout,
    /// No more will get ready.
    Closed,
}

impl Readiness {
    /// How many endpoints are ready.
    pub open spec fn ready(self) -> usize {
        match self {
            Readiness::Waiting { ready, .. } => ready,
            Readiness::Settled { ready, .. } => ready,
        }
    }

    /// How many endpoints there are.
    pub open spec fn expected(self) -> usize {
        match self {
            Readiness::Waiting { expected, .. } => expected,
            Readiness::Settled { expected, .. } => expected,
        }
    }

    /// No more endpoints are ready than there are, and while some is waited for not all are.
    pub open spec fn well_formed(self) -> bool {
        match self {
            Readiness::Waiting { ready, expected } => ready < expected,
            Readiness::Settled { ready, expected } => ready <= expected,
        }
    }

    /// How it starts: with none to wait for there is no wait.
    pub open spec fn initial(expected: usize) -> Readiness {
        if expected > 0 {
            Readiness::Waiting { ready: 0, expected }
        } else {
            Readiness::Settled { ready: 0, expected }
        }
    }

    /// How it goes on: the wait is over once all are ready, or none will follow in time.
    pub open spec fn after(self, event: ReadinessEvent) -> Readiness {
        match self {
            Readiness::Waiting { ready, expected } => match event {
                ReadinessEvent::Confirmed => if ready + 1 < expected {
                    Readiness::Waiting { ready: (ready + 1) as usize, expected }
                } else {
                    Readiness::Settled { ready: (ready + 1) as usize, expected }
                },
                _ => Readiness::Settled { ready, expected },
            },
            Readiness::Settled { .. } => self,
        }
    }

    /// Starts to wait for that many endpoints.
    pub fn start(expected: usize) -> (readiness: Readiness)
        ensures
            readiness == Readiness::initial(expected),
            readiness.well_formed(),
    {
        if expected > 0 {
            Readiness::Waiting { ready: 0, expected }
        } else {
            Readiness::Settled { ready: 0, expected }
        }
    }

    /// Takes note of an event.
    pub fn advance(self, event: ReadinessEvent) -> (next: Readiness)
        requires
            self.well_formed(),
        ensures
            next == self.after(event),
            next.well_formed(),
    {
        match self {
            Readiness::Waiting { ready, expected } => match event {
                ReadinessEvent::Confirmed => if ready + 1 < expected {
                    Readiness::Waiting { ready: ready + 1, expected }
                } else {
                    Readiness::Settled { ready: ready + 1, expected }
                },
                _ => Readiness::Settled { ready, expected },
            },
            Readiness::Settled { .. } => self,
        }
    }
}

/// How it stands after some events.
pub open spec fn readiness_after(expected: usize, events: Seq<ReadinessEvent>) -> Readiness
    decreases events.len(),
{
    if events.len() == 0 {
        Readiness::initial(expected)
    } else {
        readiness_after(expected, events.drop_last()).after(events.last())
    }
}

/// The wait ends: as soon as there are as many events as endpoints, it is over.
pub proof fn waiting_ends(expected: usize, events: Seq<ReadinessEvent>)
    ensures
        readiness_after(expected, events).well_formed(),
        readiness_after(expected, events).expected() == expected,
        readiness_after(expected, events) is Waiting ==> readiness_after(expected, events).ready()
            == events.len(),
        events.len() >= expected ==> readiness_after(expected, events) is Settled,
    decreases events.len(),
{
    if events.len() > 0 {
        waiting_ends(expected, events.drop_last());
    }
}

/// Where all endpoints confirm, the wait ends with all of them ready.
pub proof fn all_confirmed_is_ready(expected: usize, events: Seq<ReadinessEvent>)
    requires
        forall|i: int| 0 <= i < events.len() ==> #[trigger] events[i] == ReadinessEvent::Confirmed,
    ensures
        readiness_after(expected, events).ready() == if events.len() < expected {
            events.len()
        } else {
            expected as nat
        },
        readiness_after(expected, events) is Settled <==> events.len() >= expected,
    decreases events.len(),
{
    if events.len() > 0 {
        let shorter = events.drop_last();
        assert forall|i: int| 0 <= i < shorter.len() implies #[trigger] shorter[i]
            == ReadinessEvent::Confirmed by {
            assert(shorter[i] == events[i]);
        }
        all_confirmed_is_ready(expected, shorter);
        waiting_ends(expected, shorter);
        assert(events.last() == events[events.len() - 1]);
    }
}

/// Whether a character has the property White_Space of Unicode.
pub open spec fn is_white_space(c: char) -> bool {
    let code = c as u32;
    ||| 0x0009 <= code <= 0x000d
    ||| code == 0x0020
    ||| code == 0x0085
    ||| code == 0x00a0
    ||| code == 0x1680
    ||| 0x2000 <= code <= 0x200a
    ||| code == 0x2028
    ||| code == 0x2029
    ||| code == 0x202f
    ||| code == 0x205f
    ||| code == 0x3000
}

/// A text without the white space around it.
pub open spec fn trimmed(text: Seq<char>) -> Seq<char>
    decreases text.len(),
{
    if text.len() > 0 && is_white_space(text.first()) {
        trimmed(text.drop_first())
    } else if text.len() > 0 && is_white_space(text.last()) {
        trimmed(text.drop_last())
    } else {
        text
    }
}

/// The bytes that a text denotes in base 64.
pub uninterp spec fn base64_bytes(text: Seq<char>) -> Option<Seq<u8>>;

/// Whether bytes are a serialized transaction.
pub uninterp spec fn is_transaction(bytes: Seq<u8>) -> bool;

/// `str::trim`: the text without leading and trailing white space, which is what has the property
/// White_Space of Unicode.
#[verifier::external_body]
fn trim(text: &str) -> (inner: &str)
    ensures
        inner@ == trimmed(text@),
{
    text.trim()
}

/// `decode` of `base64`'s standard engine, with padding: the bytes that the text denotes, or
/// nothing where it denotes none.
#[verifier::external_body]
fn decode_base64(text: &str) -> (bytes: Option<Vec<u8>>)
    ensures
        match bytes {
            Some(bytes) => base64_bytes(text@) == Some(bytes@),
            None => base64_bytes(text@) is None,
        },
{
    STANDARD.decode(text).ok()
}

/// Most bytes of which the base 64 notation is sure to fit into memory.
pub const MAX_TRANSACTION_BYTES: usize = 0x4000_0000;

/// The base 64 notation of bytes.
pub uninterp spec fn base64_text(bytes: Seq<u8>) -> Seq<char>;

/// `encode` of `base64`'s standard engine, with padding: the notation of the bytes, which has no
/// white space around it and from which `decode` reads the bytes back. `encode` panics where the
/// notation is too long for memory.
#[verifier::external_body]
pub(crate) fn encode_base64(bytes: &[u8]) -> (text: String)
    requires
        bytes@.len() <= MAX_TRANSACTION_BYTES,
    ensures
        text@ == base64_text(bytes@),
        base64_bytes(text@) == Some(bytes@),
        trimmed(text@) == text@,
{
    STANDARD.encode(bytes)
}

/// `bincode::deserialize` to a `Transaction` of `solana_sdk`: whether the bytes start with one.
#[verifier::external_body]
fn can_deserialize(bytes: &[u8]) -> (valid: bool)
    ensures
        valid == is_transaction(bytes@),
{
    bincode::deserialize::<Transaction>(bytes).is_ok()
}

/// What a request brought for a transaction to send.
#[derive(Debug)]
pub enum Payload {
    Missing,
    NotBase64,
    /// These bytes, which are a transaction or not.
    Bytes(Vec<u8>, bool),
}

/// What a payload holds.
pub ghost enum PayloadView {
    Missing,
    NotBase64,
    Bytes(Seq<u8>, bool),
}

impl View for Payload {
    type V = PayloadView;

    open spec fn view(&self) -> PayloadView {
        match *self {
            Payload::Missing => PayloadView::Missing,
            Payload::NotBase64 => PayloadView::NotBase64,
            Payload::Bytes(bytes, valid) => PayloadView::Bytes(bytes@, valid),
        }
    }
}

/// What becomes of the transaction.
#[derive(Debug)]
pub enum SendDecision {
    /// It is sent.
    Send(Vec<u8>),
    /// There is none.
    MissingTransaction,
    /// There is no address to send it to.
    MissingUrl,
    /// It is not in base 64.
    NotBase64,
    /// It is something else.
    NotATransaction,
}

/// What a decision says.
pub ghost enum SendDecisionView {
    Send(Seq<u8>),
    MissingTransaction,
    MissingUrl,
    NotBase64,
    NotATransaction,
}

impl View for SendDecision {
    type V = SendDecisionView;

    open spec fn view(&self) -> SendDecisionView {
        match *self {
            SendDecision::Send(bytes) => SendDecisionView::Send(bytes@),
            SendDecision::MissingTransaction => SendDecisionView::MissingTransaction,
            SendDecision::MissingUrl => SendDecisionView::MissingUrl,
            SendDecision::NotBase64 => SendDecisionView::NotBase64,
            SendDecision::NotATransaction => SendDecisionView::NotATransaction,
        }
    }
}

/// What becomes of what a request brought, where there is an address or not.
pub open spec fn send_decision(has_url: bool, payload: PayloadView) -> SendDecisionView {
    match payload {
        PayloadView::Missing => SendDecisionView::MissingTransaction,
        _ if !has_url => SendDecisionView::MissingUrl,
        PayloadView::NotBase64 => SendDecisionView::NotBase64,
        PayloadView::Bytes(bytes, valid) => if valid {
            SendDecisionView::Send(bytes)
        } else {
            SendDecisionView::NotATransaction
        },
    }
}

/// Decides what becomes of what a request brought.
pub fn decide_send(has_url: bool, payload: Payload) -> (decision: SendDecision)
    ensures
        decision@ == send_decision(has_url, payload@),
{
    match payload {
        Payload::Missing => SendDecision::MissingTransaction,
        _ if !has_url => SendDecision::MissingUrl,
        Payload::NotBase64 => SendDecision::NotBase64,
        Payload::Bytes(bytes, valid) => if valid {
            SendDecision::Send(bytes)
        } else {
            SendDecision::NotATransaction
        },
    }
}

/// What a text, in base 64 and perhaps with white space around it, brings.
pub open spec fn payload_of(transaction: Option<Seq<char>>) -> PayloadView {
    match transaction {
        Some(text) => match base64_bytes(trimmed(text)) {
            Some(bytes) => PayloadView::Bytes(bytes, is_transaction(bytes)),
            None => PayloadView::NotBase64,
        },
        None => PayloadView::Missing,
    }
}

fn read_payload(transaction: &Option<String>) -> (payload: Payload)
    ensures
        payload@ == payload_of(text_option_view(*transaction)),
{
    match transaction {
        Some(text) => match decode_base64(trim(text.as_str())) {
            Some(bytes) => {
                let valid = can_deserialize(bytes.as_slice());
                Payload::Bytes(bytes, valid)
            },
            None => Payload::NotBase64,
        },
        None => Payload::Missing,
    }
}

/// Decides what becomes of a transaction in base 64, and of which bytes are to be sent to the
/// address.
pub fn send_transaction_to_solana(rpc_url: &str, transaction: &Option<String>) -> (decision:
    SendDecision)
    ensures
        decision@ == send_decision(
            trimmed(rpc_url@).len() > 0,
            payload_of(text_option_view(*transaction)),
        ),
{
    let url = trim(rpc_url);
    let has_url = url.unicode_len() > 0;
    decide_send(has_url, read_payload(transaction))
}

/// The work on a follow-up.
#[derive(Debug)]
pub struct FollowupRun {
    pub followup: Followup,
    pub readiness: Readiness,
}

/// What is to be done next.
#[derive(Debug)]
pub enum FollowupAction {
    /// Wait for the endpoints to get ready.
    Wait,
    /// Stop: this becomes of the transaction.
    Settle(SendDecision),
}

/// What an action says.
pub ghost enum FollowupActionView {
    Wait,
    Settle(SendDecisionView),
}

impl View for FollowupAction {
    type V = FollowupActionView;

    open spec fn view(&self) -> FollowupActionView {
        match *self {
            FollowupAction::Wait => FollowupActionView::Wait,
            FollowupAction::Settle(decision) => FollowupActionView::Settle(decision@),
        }
    }
}

/// What is to be done next: as long as endpoints are waited for, the transaction is held back.
pub open spec fn followup_action(followup: FollowupView, readiness: Readiness) -> FollowupActionView {
    match readiness {
        Readiness::Waiting { .. } => FollowupActionView::Wait,
        Readiness::Settled { .. } => FollowupActionView::Settle(
            send_decision(
                trimmed(followup.config.solana_rpc_url).len() > 0,
                payload_of(followup.transaction),
            ),
        ),
    }
}

impl FollowupRun {
    fn next_action(&self) -> (action: FollowupAction)
        ensures
            action@ == followup_action(self.followup@, self.readiness),
    {
        match self.readiness {
            Readiness::Waiting { .. } => FollowupAction::Wait,
            Readiness::Settled { .. } => FollowupAction::Settle(
                send_transaction_to_solana(
                    self.followup.config.solana_rpc_url.as_str(),
                    &self.followup.transaction,
                ),
            ),
        }
    }

    /// Takes note of how the endpoints get ready, and says what is to be done next.
    pub fn advance(&mut self, event: ReadinessEvent) -> (action: FollowupAction)
        requires
            old(self).readiness.well_formed(),
        ensures
            final(self).followup == old(self).followup,
            final(self).readiness == old(self).readiness.after(event),
            final(self).readiness.well_formed(),
            action@ == followup_action(final(self).followup@, final(self).readiness),
    {
        self.readiness = self.readiness.advance(event);
        self.next_action()
    }
}

/// Starts the work on a follow-up: the endpoints to subscribe at, and what is to be done next.
pub fn spawn_ws_followups(followup: Followup) -> (started: (
    FollowupRun,
    Vec<Endpoint>,
    FollowupAction,
))
    ensures
        ({
            let (run, list, action) = started;
            &&& run.followup == followup
            &&& endpoint_views(list@) == endpoints(followup.config@)
            &&& run.readiness == Readiness::initial(list@.len() as usize)
            &&& run.readiness.well_formed()
            &&& action@ == followup_action(followup@, run.readiness)
        }),
{
    let list = configured_endpoints(&followup.config);
    let run = FollowupRun { followup, readiness: Readiness::start(list.len()) };
    let action = run.next_action();
    (run, list, action)
}

/// The transaction is sent only once the wait is over, and then exactly where there is an address
/// and the request brought a transaction in base 64.
pub proof fn transactions_are_sent_after_the_wait(
    followup: FollowupView,
    expected: usize,
    events: Seq<ReadinessEvent>,
    bytes: Seq<u8>,
)
    ensures
        followup_action(followup, readiness_after(expected, events)) == FollowupActionView::Settle(
            SendDecisionView::Send(bytes),
        ) <==> {
            &&& readiness_after(expected, events) is Settled
            &&& trimmed(followup.config.solana_rpc_url).len() > 0
            &&& followup.transaction is Some
            &&& base64_bytes(trimmed(followup.transaction->0)) == Some(bytes)
            &&& is_transaction(bytes)
        },
{
}

/// The endpoints that have an address are listed under their names, and in the order of the
/// configuration: those for shreds first, then the local one, the enhanced local one, and Helius.
pub proof fn endpoints_are_listed_in_order(config: EndpointsView)
    ensures
        ({
            let list = endpoints(config);
            let count = |url: Option<Seq<char>>|
                if url is Some {
                    1int
                } else {
                    0
                };
            let local = count(config.shred_ws_url);
            let enhanced = local + count(config.local_ws_url);
            let helius = enhanced + count(config.local_enhanced_ws_url);
            &&& list.len() == helius + count(config.helius_ws_url)
            &&& config.shred_ws_url is Some ==> list[0] == (EndpointView {
                name: "Shred WS"@,
                url: config.shred_ws_url->0,
            })
            &&& config.local_ws_url is Some ==> list[local] == (EndpointView {
                name: "Local WS"@,
                url: config.local_ws_url->0,
            })
            &&& config.local_enhanced_ws_url is Some ==> list[enhanced] == (EndpointView {
                name: "Local Enhanced WS"@,
                url: config.local_enhanced_ws_url->0,
            })
            &&& config.helius_ws_url is Some ==> list[helius] == (EndpointView {
                name: "Helius WS"@,
                url: config.helius_ws_url->0,
            })
        }),
{
}

/// How many endpoints got ready before the first event of another kind.
pub open spec fn confirmed_first(events: Seq<ReadinessEvent>) -> nat
    decreases events.len(),
{
    if events.len() == 0 {
        0
    } else {
        let earlier = confirmed_first(events.drop_last());
        if earlier == events.len() - 1 && events.last() == ReadinessEvent::Confirmed {
            events.len()
        } else {
            earlier
        }
    }
}

/// The endpoints that got ready are counted until all are, or the time is over, or no more will
/// follow; the wait is over exactly then.
pub proof fn ready_endpoints_are_counted(expected: usize, events: Seq<ReadinessEvent>)
    ensures
        ({
            let readiness = readiness_after(expected, events);
            let count = confirmed_first(events);
            &&& count <= events.len()
            &&& readiness.expected() == expected
            &&& readiness.ready() == if count <= expected {
                count as int
            } else {
                expected as int
            }
            &&& readiness is Settled <==> count >= expected || count < events.len()
        }),
    decreases events.len(),
{
    if events.len() > 0 {
        ready_endpoints_are_counted(expected, events.drop_last());
    }
}

/// A follow-up waits exactly as long as endpoints are waited for. What then becomes of the
/// transaction is decided by the first thing that is missing: a transaction, an address that is more
/// than white space, base 64, and in it a transaction.
pub proof fn transactions_fail_for_the_first_reason(followup: FollowupView, readiness: Readiness)
    ensures
        ({
            let action = followup_action(followup, readiness);
            let bytes = base64_bytes(trimmed(followup.transaction->0));
            let addressed = trimmed(followup.config.solana_rpc_url).len() > 0;
            &&& readiness is Waiting <==> action is Wait
            &&& readiness is Settled ==> action == FollowupActionView::Settle(
                if followup.transaction is None {
                    SendDecisionView::MissingTransaction
                } else if !addressed {
                    SendDecisionView::MissingUrl
                } else if bytes is None {
                    SendDecisionView::NotBase64
                } else if !is_transaction(bytes->0) {
                    SendDecisionView::NotATransaction
                } else {
                    SendDecisionView::Send(bytes->0)
                },
            )
        }),
{
}

/// The work on a follow-up starts with the endpoints that have an address, each under its name, and a
/// wait for as many of them to get ready; without any there is no wait.
pub proof fn followups_start_with_all_endpoints(
    followup: Followup,
    started: (FollowupRun, Vec<Endpoint>, FollowupAction),
)
    requires
        call_ensures(spawn_ws_followups, (followup,), started),
    ensures
        ({
            let (run, list, action) = started;
            &&& run.followup == followup
            &&& run.readiness.expected() == list@.len()
            &&& run.readiness.ready() == 0
            &&& run.readiness is Waiting <==> list@.len() > 0
            &&& action is Wait <==> list@.len() > 0
            &&& endpoint_views(list@) == endpoints(followup.config@)
        }),
{
    let (run, list, action) = started;
    assert(list@.len() == endpoint_views(list@).len());
    endpoints_are_listed_in_order(followup.config@);
}

/// As long as a follow-up waits, each endpoint that gets ready is counted, and the wait ends with the
/// last of them, or when the time is over or none will follow. It then stays ended, and what becomes
/// of the transaction is decided.
pub proof fn followups_wait_for_their_endpoints(
    run: &mut FollowupRun,
    event: ReadinessEvent,
    action: FollowupAction,
)
    requires
        call_ensures(FollowupRun::advance, (run, event), action),
        old(run).readiness.well_formed(),
    ensures
        ({
            let before = old(run).readiness;
            let after = final(run).readiness;
            &&& final(run).followup == old(run).followup
            &&& after.expected() == before.expected()
            &&& before is Settled ==> after == before
            &&& before is Waiting && event == ReadinessEvent::Confirmed ==> {
                &&& after.ready() == before.ready() + 1
                &&& after is Settled <==> after.ready() == after.expected()
            }
            &&& before is Waiting && event != ReadinessEvent::Confirmed ==> after is Settled
                && after.ready() == before.ready()
            &&& action is Wait <==> after is Waiting
            &&& action@ == followup_action(old(run).followup@, after)
        }),
{
}

/// A transaction is sent exactly where there is one, there is an address that is more than white
/// space, and the text, without white space around it, is a transaction in base 64; what is sent is
/// then its bytes.
pub proof fn transactions_are_sent_as_encoded(
    rpc_url: &str,
    transaction: &Option<String>,
    decision: SendDecision,
)
    requires
        call_ensures(send_transaction_to_solana, (rpc_url, transaction), decision),
    ensures
        decision is MissingTransaction <==> *transaction is None,
        decision is MissingUrl <==> *transaction is Some && trimmed(rpc_url@).len() == 0,
        *transaction is Some && trimmed(rpc_url@).len() > 0 ==> {
            let bytes = base64_bytes(trimmed(transaction->0@));
            &&& decision is NotBase64 <==> bytes is None
            &&& decision is NotATransaction <==> bytes is Some && !is_transaction(bytes->0)
            &&& decision is Send <==> bytes is Some && is_transaction(bytes->0)
            &&& decision is Send ==> decision->Send_0@ == bytes->0
        },
{
    assert(decision@ == send_decision(
        trimmed(rpc_url@).len() > 0,
        payload_of(text_option_view(*transaction)),
    ));
}

} // verus!
