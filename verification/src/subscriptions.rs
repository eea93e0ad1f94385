//! The table of transactions that clients wait for.
use dashmap::DashMap;
use vstd::prelude::*;

verus! {

/// The websocket connection that waits for a transaction.
#[derive(Clone, Copy, Debug, PartialEq, Eq, Structural)]
pub struct WebsocketSubscription {
    /// Number of the subscription; no two subscriptions have the same.
    pub id: u64,
    /// Number of the connection whose outbound channel takes the notification.
    pub sender: u64,
}

/// A client's wish to hear of a transaction.
#[derive(Clone, Copy, Debug, PartialEq, Eq, Structural)]
pub struct Subscription {
    /// When the client says that it sent the transaction, in milliseconds since the UNIX epoch.
    pub client_timestamp_ms: u64,
    /// When the server received the request, in milliseconds since the UNIX epoch.
    pub rpc_received_ms: u64,
    /// The websocket connection to notify, where the request came over one.
    pub websocket: Option<WebsocketSubscription>,
}

/// The subscriptions by transaction signature, in base 58.
pub type Subscriptions = DashMap<String, Subscription>;

/// `dashmap::DashMap`, a hash map.
#[verifier::external_type_specification]
#[verifier::external_body]
#[verifier::reject_recursive_types(K)]
#[verifier::reject_recursive_types(V)]
#[verifier::reject_recursive_types(S)]
pub struct ExDashMap<K, V, S>(DashMap<K, V, S>);

/// What a table of subscriptions holds.
///
/// The methods of `DashMap` that change the map take a shared reference, so that threads can share
/// it. Here they are called with an exclusive one: nothing else changes the table meanwhile.
pub uninterp spec fn held(subscriptions: DashMap<String, Subscription>) -> Map<Seq<char>, Subscription>;

/// The table that holds nothing.
pub open spec fn no_subscriptions() -> Map<Seq<char>, Subscription> {
    Map::empty()
}

/// `DashMap::new`: the map that it makes is empty.
#[verifier::external_body]
fn new_map() -> (subscriptions: DashMap<String, Subscription>)
    ensures
        held(subscriptions) == no_subscriptions(),
{
    DashMap::new()
}

/// `DashMap::contains_key`: whether the map holds an entry of the key.
#[verifier::external_body]
fn map_contains(subscriptions: &DashMap<String, Subscription>, signature: &str) -> (found: bool)
    ensures
        found == held(*subscriptions).contains_key(signature@),
{
    subscriptions.contains_key(signature)
}

/// `DashMap::insert`: the key maps to the value afterwards, nothing else changes, and the value
/// that the key mapped to before is handed out.
#[verifier::external_body]
fn map_insert(
    subscriptions: &mut DashMap<String, Subscription>,
    signature: String,
    subscription: Subscription,
) -> (replaced: Option<Subscription>)
    ensures
        held(*final(subscriptions)) == held(*old(subscriptions)).insert(signature@, subscription),
        replaced == if held(*old(subscriptions)).contains_key(signature@) {
            Some(held(*old(subscriptions))[signature@])
        } else {
            None
        },
{
    subscriptions.insert(signature, subscription)
}

/// `DashMap::remove`: the map holds no entry of the key afterwards, nothing else changes, and the
/// value that the key mapped to is handed out.
#[verifier::external_body]
pub(crate) fn map_remove(subscriptions: &mut DashMap<String, Subscription>, signature: &str) -> (removed: Option<
    Subscription,
>)
    ensures
        held(*final(subscriptions)) == held(*old(subscriptions)).remove(signature@),
        removed == if held(*old(subscriptions)).contains_key(signature@) {
            Some(held(*old(subscriptions))[signature@])
        } else {
            None
        },
{
    subscriptions.remove(signature).map(|entry| entry.1)
}

/// Whether the subscription is the websocket subscription of that number.
pub open spec fn has_websocket_id(subscription: Subscription, id: u64) -> bool {
    subscription.websocket is Some && subscription.websocket->0.id == id
}

fn is_websocket_subscription(subscription: &Subscription, id: u64) -> (is: bool)
    ensures
        is == has_websocket_id(*subscription, id),
{
    match &subscription.websocket {
        Some(websocket) => websocket.id == id,
        None => false,
    }
}

/// `DashMap::remove_if`: the entry of the key is removed where the closure holds of it, and
/// nothing else changes.
#[verifier::external_body]
pub(crate) fn map_remove_if_websocket(
    subscriptions: &mut DashMap<String, Subscription>,
    signature: &str,
    id: u64,
)
    ensures
        held(*final(subscriptions)) == without_websocket(
            held(*old(subscriptions)),
            signature@,
            id,
        ),
{
    subscriptions.remove_if(signature, |_, subscription| is_websocket_subscription(subscription, id));
}

/// The table without the entry of the signature, where that is the websocket subscription `id`.
pub open spec fn without_websocket(
    table: Map<Seq<char>, Subscription>,
    signature: Seq<char>,
    id: u64,
) -> Map<Seq<char>, Subscription> {
    if table.contains_key(signature) && has_websocket_id(table[signature], id) {
        table.remove(signature)
    } else {
        table
    }
}

/// Makes a table without subscriptions.
pub fn new_subscriptions() -> (subscriptions: Subscriptions)
    ensures
        held(subscriptions) == no_subscriptions(),
{
    new_map()
}

/// Enters a subscription unless the signature has one; the answer is whether it was entered.
pub fn subscribe(
    subscriptions: &mut Subscriptions,
    signature: String,
    subscription: Subscription,
) -> (entered: bool)
    ensures
        entered == !held(*old(subscriptions)).contains_key(signature@),
        held(*final(subscriptions)) == if entered {
            held(*old(subscriptions)).insert(signature@, subscription)
        } else {
            held(*old(subscriptions))
        },
{
    if map_contains(subscriptions, signature.as_str()) {
        return false;
    }
    let _ = map_insert(subscriptions, signature, subscription);
    true
}

/// To end a websocket subscription takes the entry of its signature out of the table exactly where
/// that is the websocket subscription of that number, and touches no other entry.
pub proof fn websocket_subscriptions_end_by_number(
    table: Map<Seq<char>, Subscription>,
    signature: Seq<char>,
    id: u64,
    other: Seq<char>,
)
    ensures
        ({
            let after = without_websocket(table, signature, id);
            &&& after.contains_key(other) <==> table.contains_key(other) && !(other == signature
                && table[other].websocket is Some && table[other].websocket->0.id == id)
            &&& after.contains_key(other) ==> after[other] == table[other]
        }),
        no_subscriptions().dom() =~= Set::<Seq<char>>::empty(),
{
}

} // verus!
