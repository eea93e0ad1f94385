//! The method `subscribe_tx` of the JSON-RPC server.
use crate::clock::{
    current_timestamp_ms, given_times_tell_the_time, is_time_ms, tells_the_time,
};
use crate::json::{json_of, json_option_view, member_map, parse_json, Json, JsonView};
use crate::jsonrpc::{invalid_params, invalid_request, Error, ErrorCode, ErrorView};
use crate::scan::{reports, subscribed_transactions_are_reported, unmatched, FoundView};
use crate::signature::{is_signature, signature_bytes};
use crate::subscriptions::{held, subscribe, Subscription, Subscriptions};
use crate::text::{text_option_view, text_views};
use vstd::prelude::*;

verus! {

/// The first time, in milliseconds since the UNIX epoch, that a client's timestamp may show. One
/// in seconds is below it.
pub const LEAST_TIMESTAMP_MS: u64 = 1_000_000_000_000;

/// The answer to a request that was accepted.
#[derive(Debug)]
pub struct SubscribeResponse {
    pub status: String,
}

impl Clone for SubscribeResponse {
    fn clone(&self) -> (copy: SubscribeResponse)
        ensures
            copy.status@ == self.status@,
    {
        SubscribeResponse { status: self.status.clone() }
    }
}

/// Where a subscribed transaction is sent, and where else its confirmation is awaited.
#[derive(Debug)]
pub struct WebSocketEndpointsConfig {
    pub shred_ws_url: Option<String>,
    pub local_ws_url: Option<String>,
    pub local_enhanced_ws_url: Option<String>,
    pub helius_ws_url: Option<String>,
    pub solana_rpc_url: String,
}

/// What the configuration of endpoints holds.
pub ghost struct EndpointsView {
    pub shred_ws_url: Option<Seq<char>>,
    pub local_ws_url: Option<Seq<char>>,
    pub local_enhanced_ws_url: Option<Seq<char>>,
    pub helius_ws_url: Option<Seq<char>>,
    pub solana_rpc_url: Seq<char>,
}

impl View for WebSocketEndpointsConfig {
    type V = EndpointsView;

    open spec fn view(&self) -> EndpointsView {
        EndpointsView {
            shred_ws_url: text_option_view(self.shred_ws_url),
            local_ws_url: text_option_view(self.local_ws_url),
            local_enhanced_ws_url: text_option_view(self.local_enhanced_ws_url),
            helius_ws_url: text_option_view(self.helius_ws_url),
            solana_rpc_url: self.solana_rpc_url@,
        }
    }
}

fn copy_url(url: &Option<String>) -> (copy: Option<String>)
    ensures
        text_option_view(copy) == text_option_view(*url),
{
    match url {
        Some(url) => Some(url.clone()),
        None => None,
    }
}

impl Clone for WebSocketEndpointsConfig {
    fn clone(&self) -> (copy: WebSocketEndpointsConfig)
        ensures
            copy@ == self@,
    {
        WebSocketEndpointsConfig {
            shred_ws_url: copy_url(&self.shred_ws_url),
            local_ws_url: copy_url(&self.local_ws_url),
            local_enhanced_ws_url: copy_url(&self.local_enhanced_ws_url),
            helius_ws_url: copy_url(&self.helius_ws_url),
            solana_rpc_url: self.solana_rpc_url.clone(),
        }
    }
}

/// The parameters of a request. Items and members are JSON texts.
#[derive(Debug)]
pub enum Params {
    Absent,
    Array(Vec<String>),
    Object(Vec<(String, String)>),
}

/// What parameters hold.
pub ghost enum ParamsView {
    Absent,
    Array(Seq<Seq<char>>),
    Object(Map<Seq<char>, Seq<char>>),
}

impl View for Params {
    type V = ParamsView;

    open spec fn view(&self) -> ParamsView {
        match *self {
            Params::Absent => ParamsView::Absent,
            Params::Array(items) => ParamsView::Array(text_views(items@)),
            Params::Object(members) => ParamsView::Object(member_map(members@)),
        }
    }
}

/// Parameters as the method takes them: an object is passed as it is, and so is one that is the
/// only item of an array.
pub open spec fn unwrapped(params: ParamsView) -> ParamsView {
    match params {
        ParamsView::Array(items) => if items.len() == 1 {
            match json_of(items[0]) {
                Some(JsonView::Object(members)) => ParamsView::Object(members),
                _ => params,
            }
        } else {
            params
        },
        _ => params,
    }
}

/// Takes an object out of an array that holds nothing else.
pub fn unwrap_params(params: Params) -> (inner: Params)
    ensures
        inner@ == unwrapped(params@),
{
    match &params {
        Params::Array(items) => if items.len() == 1 {
            match parse_json(items[0].as_str()) {
                Some(Json::Object(members)) => Params::Object(members),
                _ => params,
            }
        } else {
            params
        },
        _ => params,
    }
}

/// A request to subscribe to a transaction.
#[derive(Debug)]
pub struct SubscribeRequest {
    pub tx_sig: String,
    /// When the client says that it sent the transaction, in milliseconds since the UNIX epoch.
    pub timestamp: u64,
    /// The transaction, in base 64, for the server to send.
    pub transaction: Option<String>,
}

/// What a request holds.
pub ghost struct SubscribeRequestView {
    pub tx_sig: Seq<char>,
    pub timestamp: u64,
    pub transaction: Option<Seq<char>>,
}

impl View for SubscribeRequest {
    type V = SubscribeRequestView;

    open spec fn view(&self) -> SubscribeRequestView {
        SubscribeRequestView {
            tx_sig: self.tx_sig@,
            timestamp: self.timestamp,
            transaction: text_option_view(self.transaction),
        }
    }
}

pub open spec fn request_option_view(request: Option<SubscribeRequest>) -> Option<
    SubscribeRequestView,
> {
    match request {
        Some(request) => Some(request@),
        None => None,
    }
}

/// The request of those fields, where they are a string, an unsigned integer, and a string or
/// null.
pub open spec fn request_of_fields(
    tx_sig: Option<JsonView>,
    timestamp: Option<JsonView>,
    transaction: Option<JsonView>,
) -> Option<SubscribeRequestView> {
    match (tx_sig, timestamp, transaction) {
        (
            Some(JsonView::Text(tx_sig)),
            Some(JsonView::Number(Some(timestamp))),
            Some(JsonView::Null),
        ) => Some(SubscribeRequestView { tx_sig, timestamp, transaction: None }),
        (
            Some(JsonView::Text(tx_sig)),
            Some(JsonView::Number(Some(timestamp))),
            Some(JsonView::Text(transaction)),
        ) => Some(SubscribeRequestView { tx_sig, timestamp, transaction: Some(transaction) }),
        _ => None,
    }
}

/// Makes a request of its fields.
pub fn make_request(
    tx_sig: Option<Json>,
    timestamp: Option<Json>,
    transaction: Option<Json>,
) -> (request: Option<SubscribeRequest>)
    ensures
        request_option_view(request) == request_of_fields(
            json_option_view(tx_sig),
            json_option_view(timestamp),
            json_option_view(transaction),
        ),
{
    let tx_sig = match tx_sig {
        Some(Json::Text(tx_sig)) => tx_sig,
        _ => {
            return None;
        },
    };
    let timestamp = match timestamp {
        Some(Json::Number(Some(timestamp))) => timestamp,
        _ => {
            return None;
        },
    };
    match transaction {
        Some(Json::Null) => Some(SubscribeRequest { tx_sig, timestamp, transaction: None }),
        Some(Json::Text(transaction)) => Some(
            SubscribeRequest { tx_sig, timestamp, transaction: Some(transaction) },
        ),
        _ => None,
    }
}

/// The request that parameters make up; a transaction that is missing counts as null.
pub open spec fn request_of(params: ParamsView) -> Result<SubscribeRequestView, ErrorView> {
    match params {
        ParamsView::Object(members) => {
            let object = JsonView::Object(members);
            let request = request_of_fields(
                object.member("tx_sig"@),
                object.member("timestamp"@),
                if members.contains_key("transaction"@) {
                    object.member("transaction"@)
                } else {
                    Some(JsonView::Null)
                },
            );
            if request is Some {
                Ok(request->0)
            } else {
                Err(invalid_params("Expected object with tx_sig and timestamp fields"@))
            }
        },
        _ => Err(invalid_params("Expected params array: [{tx_sig, timestamp}]"@)),
    }
}

fn read_request(params: Params) -> (request: Result<SubscribeRequest, Error>)
    ensures
        match request {
            Ok(request) => request_of(params@) == Ok::<SubscribeRequestView, ErrorView>(request@),
            Err(error) => request_of(params@) == Err::<SubscribeRequestView, ErrorView>(error@),
        },
{
    let object = match params {
        Params::Object(members) => Json::Object(members),
        _ => {
            return Err(Error::invalid_params("Expected params array: [{tx_sig, timestamp}]"));
        },
    };
    let transaction = match object.member_text("transaction") {
        Some(text) => parse_json(text.as_str()),
        None => Some(Json::Null),
    };
    let request = make_request(
        object.member("tx_sig"),
        object.member("timestamp"),
        transaction,
    );
    match request {
        Some(request) => Ok(request),
        None => Err(Error::invalid_params("Expected object with tx_sig and timestamp fields")),
    }
}

/// What is left to do for an accepted request: await the confirmation of the transaction
/// elsewhere, and send it.
#[derive(Debug)]
pub struct Followup {
    pub config: WebSocketEndpointsConfig,
    pub tx_sig: String,
    pub client_timestamp_ms: u64,
    pub transaction: Option<String>,
}

/// What a follow-up holds.
pub ghost struct FollowupView {
    pub config: EndpointsView,
    pub tx_sig: Seq<char>,
    pub client_timestamp_ms: u64,
    pub transaction: Option<Seq<char>>,
}

impl View for Followup {
    type V = FollowupView;

    open spec fn view(&self) -> FollowupView {
        FollowupView {
            config: self.config@,
            tx_sig: self.tx_sig@,
            client_timestamp_ms: self.client_timestamp_ms,
            transaction: text_option_view(self.transaction),
        }
    }
}

/// The methods of the server.
pub trait Rpc {
    /// Subscribes to a transaction. The answer does not wait for it to be observed.
    fn subscribe_tx(&mut self, params: Params) -> Result<SubscribeResponse, Error>;
}

/// The server.
pub struct RpcImpl {
    pub subscriptions: Subscriptions,
    pub ws_config: Option<WebSocketEndpointsConfig>,
    /// What is left to do for accepted requests.
    pub followups: Vec<Followup>,
}

/// What the server holds.
#[verifier::ext_equal]
pub ghost struct RpcView {
    pub table: Map<Seq<char>, Subscription>,
    pub ws_config: Option<EndpointsView>,
    pub followups: Seq<FollowupView>,
}

impl View for RpcImpl {
    type V = RpcView;

    open spec fn view(&self) -> RpcView {
        RpcView {
            table: held(self.subscriptions),
            ws_config: match self.ws_config {
                Some(config) => Some(config@),
                None => None,
            },
            followups: self.followups@.map_values(|f: Followup| f@),
        }
    }
}

/// What a response says: the status, or a refusal.
pub open spec fn response_view(response: Result<SubscribeResponse, Error>) -> Result<
    Seq<char>,
    ErrorView,
> {
    match response {
        Ok(response) => Ok(response.status@),
        Err(error) => Err(error@),
    }
}

impl RpcView {
    /// The answer to a request, whose signature is `valid` or not: the status, or a refusal.
    pub open spec fn answer(self, request: SubscribeRequestView, valid: bool) -> Result<
        Seq<char>,
        ErrorView,
    > {
        if request.timestamp < LEAST_TIMESTAMP_MS {
            Err(
                invalid_params(
                    "`timestamp` must be milliseconds since UNIX epoch (ms), not seconds"@,
                ),
            )
        } else if !valid {
            Err(invalid_params("Invalid transaction signature"@))
        } else if self.table.contains_key(request.tx_sig) {
            Err(invalid_request("Transaction already subscribed"@))
        } else {
            Ok("subscribed"@)
        }
    }

    /// The server after the request, received at `now_ms`. One that is accepted is entered into
    /// the table and, where endpoints are configured, followed up.
    pub open spec fn after_request(
        self,
        request: SubscribeRequestView,
        valid: bool,
        now_ms: u64,
    ) -> RpcView {
        if self.answer(request, valid) is Ok {
            RpcView {
                table: self.table.insert(
                    request.tx_sig,
                    Subscription {
                        client_timestamp_ms: request.timestamp,
                        rpc_received_ms: now_ms,
                        websocket: None,
                    },
                ),
                followups: if self.ws_config is Some {
                    self.followups.push(
                        FollowupView {
                            config: self.ws_config->0,
                            tx_sig: request.tx_sig,
                            client_timestamp_ms: request.timestamp,
                            transaction: request.transaction,
                        },
                    )
                } else {
                    self.followups
                },
                ..self
            }
        } else {
            self
        }
    }

    /// The answer to parameters, which need not make up a request.
    pub open spec fn answer_to(self, params: ParamsView) -> Result<Seq<char>, ErrorView> {
        match request_of(params) {
            Ok(request) => self.answer(request, signature_bytes(request.tx_sig) is Some),
            Err(error) => Err(error),
        }
    }

    /// The server after parameters, which need not make up a request, received at `now_ms`.
    pub open spec fn after_params(self, params: ParamsView, now_ms: u64) -> RpcView {
        match request_of(params) {
            Ok(request) => self.after_request(
                request,
                signature_bytes(request.tx_sig) is Some,
                now_ms,
            ),
            Err(_) => self,
        }
    }
}

impl RpcImpl {
    /// Notes what is left to do for an accepted request, where endpoints are configured.
    fn spawn_websocket_followups(
        &mut self,
        tx_sig: String,
        client_timestamp_ms: u64,
        transaction: Option<String>,
    )
        ensures
            final(self)@ == (RpcView {
                followups: if old(self)@.ws_config is Some {
                    old(self)@.followups.push(
                        FollowupView {
                            config: old(self)@.ws_config->0,
                            tx_sig: tx_sig@,
                            client_timestamp_ms,
                            transaction: text_option_view(transaction),
                        },
                    )
                } else {
                    old(self)@.followups
                },
                ..old(self)@
            }),
    {
        let ghost before = self@;
        let config = match &self.ws_config {
            Some(config) => config.clone(),
            None => {
                return;
            },
        };
        let followup = Followup { config, tx_sig, client_timestamp_ms, transaction };
        let ghost view = followup@;
        self.followups.push(followup);
        assert(self@.followups =~= before.followups.push(view));
    }

    /// Answers a request, whose signature is `valid` or not, at the time `now_ms`.
    pub fn handle_request(
        &mut self,
        request: SubscribeRequest,
        valid: bool,
        now_ms: u64,
    ) -> (response: Result<SubscribeResponse, Error>)
        ensures
            final(self)@ == old(self)@.after_request(request@, valid, now_ms),
            response_view(response) == old(self)@.answer(request@, valid),
    {
        let SubscribeRequest { tx_sig, timestamp, transaction } = request;
        if timestamp < LEAST_TIMESTAMP_MS {
            return Err(
                Error::invalid_params(
                    "`timestamp` must be milliseconds since UNIX epoch (ms), not seconds",
                ),
            );
        }
        if !valid {
            return Err(Error::invalid_params("Invalid transaction signature"));
        }
        let subscription = Subscription {
            client_timestamp_ms: timestamp,
            rpc_received_ms: now_ms,
            websocket: None,
        };
        if !subscribe(&mut self.subscriptions, tx_sig.clone(), subscription) {
            return Err(Error::invalid_request("Transaction already subscribed"));
        }
        self.spawn_websocket_followups(tx_sig, timestamp, transaction);
        Ok(SubscribeResponse { status: "subscribed".to_owned() })
    }
}

impl Rpc for RpcImpl {
    fn subscribe_tx(&mut self, params: Params) -> (response: Result<SubscribeResponse, Error>)
        ensures
            response_view(response) == old(self)@.answer_to(params@),
            exists|now_ms: u64|
                final(self)@ == #[trigger] old(self)@.after_params(params@, now_ms) && (
                request_of(params@) is Ok ==> is_time_ms(now_ms)),
            forall|signature: Seq<char>| #[trigger]
                final(self)@.table.contains_key(signature) && !old(self)@.table.contains_key(
                    signature,
                ) ==> is_time_ms(final(self)@.table[signature].rpc_received_ms),
    {
        let request = match read_request(params) {
            Ok(request) => request,
            Err(error) => {
                assert(self@ == old(self)@.after_params(params@, 0));
                return Err(error);
            },
        };
        let valid = is_signature(request.tx_sig.as_str());
        let now_ms = current_timestamp_ms();
        let response = self.handle_request(request, valid, now_ms);
        assert(self@ == old(self)@.after_params(params@, now_ms));
        response
    }
}

/// A request that is refused changes nothing.
pub proof fn refused_requests_change_nothing(server: RpcView, params: ParamsView, now_ms: u64)
    requires
        server.answer_to(params) is Err,
    ensures
        server.after_params(params, now_ms) == server,
{
}

/// A request is refused exactly where it is malformed, its timestamp is not in milliseconds, its
/// signature is not one, or the signature is subscribed to.
pub proof fn refusals_have_their_reasons(server: RpcView, params: ParamsView)
    ensures
        server.answer_to(params) is Ok <==> request_of(params) is Ok && {
            let request = request_of(params)->Ok_0;
            &&& request.timestamp >= LEAST_TIMESTAMP_MS
            &&& signature_bytes(request.tx_sig) is Some
            &&& !server.table.contains_key(request.tx_sig)
        },
{
}

/// A transaction is subscribed to once: as long as its subscription is not used up, another
/// request for it is refused, for that reason where there is no other, and changes nothing.
pub proof fn transactions_are_subscribed_once(
    server: RpcView,
    request: SubscribeRequestView,
    now_ms: u64,
    again: SubscribeRequestView,
    valid: bool,
    later_ms: u64,
)
    requires
        server.answer(request, true) is Ok,
        again.tx_sig == request.tx_sig,
    ensures
        ({
            let after = server.after_request(request, true, now_ms);
            &&& after.answer(again, valid) is Err
            &&& again.timestamp >= LEAST_TIMESTAMP_MS && valid ==> after.answer(again, valid)
                == Err::<Seq<char>, ErrorView>(invalid_request("Transaction already subscribed"@))
            &&& after.after_request(again, valid, later_ms) == after
        }),
{
}

/// A request that is accepted enters its subscription and touches no other.
pub proof fn accepted_requests_enter_one_subscription(
    server: RpcView,
    request: SubscribeRequestView,
    now_ms: u64,
    signature: Seq<char>,
)
    requires
        server.answer(request, true) is Ok,
    ensures
        ({
            let table = server.after_request(request, true, now_ms).table;
            &&& table.contains_key(signature) <==> server.table.contains_key(signature) || signature
                == request.tx_sig
            &&& server.table.contains_key(signature) ==> table[signature] == server.table[signature]
            &&& table[request.tx_sig].client_timestamp_ms == request.timestamp
            &&& table[request.tx_sig].rpc_received_ms == now_ms
            &&& table[request.tx_sig].websocket is None
        }),
{
}

/// A transaction that was subscribed to is detected: when it is observed, it is reported with the
/// slot and with the times that passed from the client's timestamp and from the arrival of the
/// request, and its subscription is gone.
pub proof fn subscribed_transactions_are_detected(
    server: RpcView,
    request: SubscribeRequestView,
    now_ms: u64,
    observed: Seq<Seq<char>>,
    slot: u64,
    found_ms: u64,
)
    requires
        server.answer(request, true) is Ok,
        observed.contains(request.tx_sig),
        request.timestamp <= now_ms <= found_ms,
    ensures
        ({
            let table = server.after_request(request, true, now_ms).table;
            &&& reports(table, observed, slot, found_ms).contains(
                FoundView {
                    signature: request.tx_sig,
                    slot,
                    total_latency_ms: (found_ms - request.timestamp) as u64,
                    rpc_latency_ms: (now_ms - request.timestamp) as u64,
                    after_rpc_latency_ms: (found_ms - now_ms) as u64,
                    client_timestamp_ms: request.timestamp,
                    rpc_received_ms: now_ms,
                    found_ms,
                    websocket: None,
                },
            )
            &&& !unmatched(table, observed).contains_key(request.tx_sig)
        }),
{
    let table = server.after_request(request, true, now_ms).table;
    subscribed_transactions_are_reported(table, observed, slot, found_ms, request.tx_sig);
}

/// An object and an array that holds nothing but it are the same parameters.
pub proof fn wrapped_params_are_the_same(text: Seq<char>, members: Map<Seq<char>, Seq<char>>)
    requires
        json_of(text) == Some(JsonView::Object(members)),
    ensures
        unwrapped(ParamsView::Array(seq![text])) == unwrapped(ParamsView::Object(members)),
        unwrapped(ParamsView::Object(members)) == ParamsView::Object(members),
{
}

/// Parameters are taken as they are, unless they are an array of one object: that object is then
/// taken.
pub proof fn only_lone_objects_are_unwrapped(items: Seq<Seq<char>>)
    ensures
        unwrapped(ParamsView::Absent) == ParamsView::Absent,
        items.len() != 1 ==> unwrapped(ParamsView::Array(items)) == ParamsView::Array(items),
        items.len() == 1 ==> match json_of(items[0]) {
            Some(JsonView::Object(members)) => unwrapped(ParamsView::Array(items))
                == ParamsView::Object(members),
            _ => unwrapped(ParamsView::Array(items)) == ParamsView::Array(items),
        },
{
}

/// Parameters make up a request exactly where they are an object whose member `tx_sig` is a string,
/// whose member `timestamp` is an unsigned integer, and whose member `transaction` is missing, null
/// or a string; the request is then made up of these.
pub proof fn requests_are_made_up_of_their_members(
    members: Map<Seq<char>, Seq<char>>,
    tx_sig: Seq<char>,
    timestamp: u64,
    transaction: Option<Seq<char>>,
)
    ensures
        request_of(ParamsView::Object(members)) == Ok::<SubscribeRequestView, ErrorView>(
            SubscribeRequestView { tx_sig, timestamp, transaction },
        ) <==> {
            &&& members.contains_key("tx_sig"@)
            &&& json_of(members["tx_sig"@]) == Some(JsonView::Text(tx_sig))
            &&& members.contains_key("timestamp"@)
            &&& json_of(members["timestamp"@]) == Some(JsonView::Number(Some(timestamp)))
            &&& match transaction {
                Some(text) => members.contains_key("transaction"@) && json_of(
                    members["transaction"@],
                ) == Some(JsonView::Text(text)),
                None => members.contains_key("transaction"@) ==> json_of(
                    members["transaction"@],
                ) == Some(JsonView::Null),
            }
        },
        request_of(ParamsView::Object(members)) is Err ==> request_of(ParamsView::Object(members))
            == Err::<SubscribeRequestView, ErrorView>(
            ErrorView {
                code: ErrorCode::InvalidParams,
                message: "Expected object with tx_sig and timestamp fields"@,
            },
        ),
        forall|params: ParamsView|
            !(params is Object) ==> #[trigger] request_of(params) == Err::<
                SubscribeRequestView,
                ErrorView,
            >(
                ErrorView {
                    code: ErrorCode::InvalidParams,
                    message: "Expected params array: [{tx_sig, timestamp}]"@,
                },
            ),
{
}

/// Parameters that make up no request are refused for that reason. A request is refused first for a
/// timestamp before the year 2001 in milliseconds, which one in seconds is; then for a signature that
/// is none; then for a signature that is subscribed to. Any other is accepted.
pub proof fn requests_are_refused_for_the_first_reason(server: RpcView, params: ParamsView)
    ensures
        match request_of(params) {
            Err(error) => server.answer_to(params) == Err::<Seq<char>, ErrorView>(error),
            Ok(request) => {
                let early = request.timestamp < 1_000_000_000_000;
                let malformed = signature_bytes(request.tx_sig) is None;
                let taken = server.table.contains_key(request.tx_sig);
                &&& early ==> server.answer_to(params) == Err::<Seq<char>, ErrorView>(
                    ErrorView {
                        code: ErrorCode::InvalidParams,
                        message: "`timestamp` must be milliseconds since UNIX epoch (ms), not seconds"@,
                    },
                )
                &&& !early && malformed ==> server.answer_to(params) == Err::<Seq<char>, ErrorView>(
                    ErrorView {
                        code: ErrorCode::InvalidParams,
                        message: "Invalid transaction signature"@,
                    },
                )
                &&& !early && !malformed && taken ==> server.answer_to(params) == Err::<
                    Seq<char>,
                    ErrorView,
                >(
                    ErrorView {
                        code: ErrorCode::InvalidRequest,
                        message: "Transaction already subscribed"@,
                    },
                )
                &&& !early && !malformed && !taken ==> server.answer_to(params) == Ok::<
                    Seq<char>,
                    ErrorView,
                >("subscribed"@)
            },
        },
{
}

/// A request that is accepted is entered with the client's timestamp and the time of its arrival, and
/// where endpoints are configured a follow-up is noted for it, behind those that were; nothing else
/// changes, and nothing at all where it is refused.
pub proof fn accepted_requests_are_entered_and_followed_up(
    server: RpcView,
    params: ParamsView,
    now_ms: u64,
    signature: Seq<char>,
)
    ensures
        ({
            let after = server.after_params(params, now_ms);
            let request = request_of(params)->Ok_0;
            &&& server.answer_to(params) is Ok ==> {
                &&& after.table.contains_key(request.tx_sig)
                &&& after.table[request.tx_sig].client_timestamp_ms == request.timestamp
                &&& after.table[request.tx_sig].rpc_received_ms == now_ms
                &&& after.table[request.tx_sig].websocket is None
                &&& signature != request.tx_sig ==> (after.table.contains_key(signature)
                    <==> server.table.contains_key(signature))
                &&& server.table.contains_key(signature) ==> after.table[signature]
                    == server.table[signature]
                &&& server.ws_config is None ==> after.followups == server.followups
                &&& server.ws_config is Some ==> {
                    let followup = after.followups.last();
                    &&& after.followups.len() == server.followups.len() + 1
                    &&& after.followups.drop_last() == server.followups
                    &&& followup.config == server.ws_config->0
                    &&& followup.tx_sig == request.tx_sig
                    &&& followup.client_timestamp_ms == request.timestamp
                    &&& followup.transaction == request.transaction
                }
            }
            &&& server.answer_to(params) is Err ==> after == server
            &&& after.ws_config == server.ws_config
        }),
{
    let after = server.after_params(params, now_ms);
    if server.answer_to(params) is Ok && server.ws_config is Some {
        assert(after.followups.drop_last() =~= server.followups);
    }
}

/// A request that is accepted is entered with the client's timestamp, and with a time of arrival that
/// the clock gave while it was handled; no other subscription changes. One that is refused changes
/// nothing.
pub proof fn requests_arrive_when_the_clock_says(
    server: &mut RpcImpl,
    params: Params,
    response: Result<SubscribeResponse, Error>,
    signature: Seq<char>,
)
    requires
        call_ensures(<RpcImpl as Rpc>::subscribe_tx, (server, params), response),
    ensures
        ({
            let before = old(server)@;
            let after = final(server)@;
            let request = request_of(params@)->Ok_0;
            &&& response is Ok <==> old(server)@.answer_to(params@) is Ok
            &&& response is Ok ==> {
                &&& after.table.contains_key(request.tx_sig)
                &&& after.table[request.tx_sig].client_timestamp_ms == request.timestamp
                &&& tells_the_time(after.table[request.tx_sig].rpc_received_ms)
                &&& after.table[request.tx_sig].websocket is None
                &&& signature != request.tx_sig ==> (after.table.contains_key(signature)
                    <==> before.table.contains_key(signature))
                &&& before.table.contains_key(signature) ==> after.table[signature]
                    == before.table[signature]
            }
            &&& response is Err ==> after == before
        }),
{
    let before = old(server)@;
    let now_ms = choose|now_ms: u64|
        final(server)@ == #[trigger] before.after_params(params@, now_ms) && (request_of(
            params@,
        ) is Ok ==> is_time_ms(now_ms));
    accepted_requests_are_entered_and_followed_up(before, params@, now_ms, signature);
    requests_are_refused_for_the_first_reason(before, params@);
    if response is Ok {
        given_times_tell_the_time(now_ms);
    }
}

/// What is left to do for an accepted request is noted as it was asked for: with the endpoints that
/// are configured, the signature, the client's timestamp and the transaction.
pub proof fn followups_are_noted_as_asked(
    server: &mut RpcImpl,
    params: Params,
    response: Result<SubscribeResponse, Error>,
)
    requires
        call_ensures(<RpcImpl as Rpc>::subscribe_tx, (server, params), response),
        response is Ok,
    ensures
        ({
            let request = request_of(params@)->Ok_0;
            let before = old(server).followups@;
            let after = final(server).followups@;
            &&& response->Ok_0.status@ == "subscribed"@
            &&& old(server).ws_config is None ==> after.len() == before.len()
            &&& old(server).ws_config is Some ==> {
                let followup = after.last();
                &&& after.len() == before.len() + 1
                &&& followup.tx_sig@ == request.tx_sig
                &&& followup.client_timestamp_ms == request.timestamp
                &&& followup.config@ == old(server).ws_config->0@
                &&& followup.transaction is Some <==> request.transaction is Some
                &&& request.transaction is Some ==> followup.transaction->0@
                    == request.transaction->0
            }
        }),
{
    let before = old(server)@;
    let now_ms = choose|now_ms: u64|
        final(server)@ == #[trigger] before.after_params(params@, now_ms) && (request_of(
            params@,
        ) is Ok ==> is_time_ms(now_ms));
    accepted_requests_are_entered_and_followed_up(before, params@, now_ms, Seq::empty());
    requests_are_refused_for_the_first_reason(before, params@);
    let after = final(server).followups@;
    assert(final(server)@.followups.len() == after.len());
    if old(server).ws_config is Some {
        assert(final(server)@.followups.last() == after.last()@);
    }
}

/// Endpoints are known by the addresses that are configured.
pub proof fn endpoints_are_seen_as_configured(config: WebSocketEndpointsConfig)
    ensures
        config@.shred_ws_url is Some <==> config.shred_ws_url is Some,
        config.shred_ws_url is Some ==> config@.shred_ws_url->0 == config.shred_ws_url->0@,
        config@.local_ws_url is Some <==> config.local_ws_url is Some,
        config.local_ws_url is Some ==> config@.local_ws_url->0 == config.local_ws_url->0@,
        config@.local_enhanced_ws_url is Some <==> config.local_enhanced_ws_url is Some,
        config.local_enhanced_ws_url is Some ==> config@.local_enhanced_ws_url->0
            == config.local_enhanced_ws_url->0@,
        config@.helius_ws_url is Some <==> config.helius_ws_url is Some,
        config.helius_ws_url is Some ==> config@.helius_ws_url->0 == config.helius_ws_url->0@,
        config@.solana_rpc_url == config.solana_rpc_url@,
{
}

} // verus!
