//! Search of decoded entries for transactions that clients wait for.
use crate::signature::{signature_bytes, signature_text, write_signature};
use crate::subscriptions::{held, map_remove, Subscription, Subscriptions, WebsocketSubscription};
use crate::text::{decimal, decimal_text, text_views};
use vstd::prelude::*;
use vstd::string::StringExecFns;

verus! {

/// Number of the chain in the trace log.
pub const CHAIN_ID: u64 = 501;

/// Number of this process in the trace log.
pub const PROCESS: u64 = 10_010;

/// A transaction of the ledger, as far as the search looks into it.
#[derive(Debug)]
pub struct Transaction {
    pub signatures: Vec<[u8; 64]>,
}

/// An entry of the ledger, as far as the search looks into it.
#[derive(Debug)]
pub struct Entry {
    pub transactions: Vec<Transaction>,
}

impl View for Transaction {
    type V = Seq<Seq<u8>>;

    open spec fn view(&self) -> Seq<Seq<u8>> {
        self.signatures@.map_values(|s: [u8; 64]| s@)
    }
}

impl View for Entry {
    type V = Seq<Seq<Seq<u8>>>;

    open spec fn view(&self) -> Seq<Seq<Seq<u8>>> {
        self.transactions@.map_values(|t: Transaction| t@)
    }
}

pub open spec fn entry_views(entries: Seq<Entry>) -> Seq<Seq<Seq<Seq<u8>>>> {
    entries.map_values(|e: Entry| e@)
}

/// The entries that a deshredded payload holds, each as the signatures of its transactions.
pub uninterp spec fn entries_in(payload: Seq<u8>) -> Option<Seq<Seq<Seq<Seq<u8>>>>>;

/// `bincode::deserialize` of the payload as a `Vec` of `solana_entry`'s `Entry`: the entries, each
/// as the signatures of its transactions, where the payload starts with such a list.
#[verifier::external_body]
pub(crate) fn deserialize_entries(payload: &[u8]) -> (entries: Option<Vec<Entry>>)
    ensures
        match entries {
            Some(entries) => entries_in(payload@) == Some(entry_views(entries@)),
            None => entries_in(payload@) is None,
        },
{
    let entries: Vec<solana_entry::entry::Entry> = bincode::deserialize(payload).ok()?;
    let convert = |tx: solana_sdk::transaction::VersionedTransaction| Transaction {
        signatures: tx.signatures.into_iter().map(|signature| signature.into()).collect(),
    };
    Some(entries.into_iter().map(|entry| Entry {
        transactions: entry.transactions.into_iter().map(convert).collect(),
    }).collect())
}

/// The first signature of each transaction of an entry that has one, in order.
pub open spec fn signed_in_entry(transactions: Seq<Seq<Seq<u8>>>) -> Seq<Seq<u8>>
    decreases transactions.len(),
{
    if transactions.len() == 0 {
        Seq::empty()
    } else {
        let earlier = signed_in_entry(transactions.drop_last());
        if transactions.last().len() == 0 {
            earlier
        } else {
            earlier.push(transactions.last()[0])
        }
    }
}

/// The first signature of each transaction of some entries that has one, in order.
pub open spec fn signed(entries: Seq<Seq<Seq<Seq<u8>>>>) -> Seq<Seq<u8>>
    decreases entries.len(),
{
    if entries.len() == 0 {
        Seq::empty()
    } else {
        signed(entries.drop_last()) + signed_in_entry(entries.last())
    }
}

/// The identifiers of the transactions of some entries, in order: the notation of the first
/// signature of each.
pub open spec fn observed(entries: Seq<Seq<Seq<Seq<u8>>>>) -> Seq<Seq<char>> {
    signature_texts(signed(entries))
}

pub open spec fn signature_texts(signatures: Seq<Seq<u8>>) -> Seq<Seq<char>> {
    signatures.map_values(|signature: Seq<u8>| signature_text(signature))
}

/// The observed transactions that a table of subscriptions knows, each at its first occurrence.
pub open spec fn matched(table: Map<Seq<char>, Subscription>, observed: Seq<Seq<char>>) -> Seq<
    Seq<char>,
>
    decreases observed.len(),
{
    if observed.len() == 0 {
        Seq::empty()
    } else {
        let earlier = matched(table, observed.drop_last());
        if table.contains_key(observed.last()) && !observed.drop_last().contains(observed.last()) {
            earlier.push(observed.last())
        } else {
            earlier
        }
    }
}

/// The table once the observed transactions have been taken out of it.
pub open spec fn unmatched(table: Map<Seq<char>, Subscription>, observed: Seq<Seq<char>>) -> Map<
    Seq<char>,
    Subscription,
> {
    table.remove_keys(observed.to_set())
}

/// A subscribed transaction that has been observed.
#[derive(Debug)]
pub struct Found {
    pub signature: String,
    pub slot: u64,
    /// From the client's timestamp to the observation.
    pub total_latency_ms: u64,
    /// From the client's timestamp to the arrival of the request.
    pub rpc_latency_ms: u64,
    /// From the arrival of the request to the observation.
    pub after_rpc_latency_ms: u64,
    pub client_timestamp_ms: u64,
    pub rpc_received_ms: u64,
    pub found_ms: u64,
    /// The websocket connection to notify.
    pub websocket: Option<WebsocketSubscription>,
}

/// What is reported of a subscribed transaction that has been observed.
pub ghost struct FoundView {
    pub signature: Seq<char>,
    pub slot: u64,
    pub total_latency_ms: u64,
    pub rpc_latency_ms: u64,
    pub after_rpc_latency_ms: u64,
    pub client_timestamp_ms: u64,
    pub rpc_received_ms: u64,
    pub found_ms: u64,
    pub websocket: Option<WebsocketSubscription>,
}

impl View for Found {
    type V = FoundView;

    open spec fn view(&self) -> FoundView {
        FoundView {
            signature: self.signature@,
            slot: self.slot,
            total_latency_ms: self.total_latency_ms,
            rpc_latency_ms: self.rpc_latency_ms,
            after_rpc_latency_ms: self.after_rpc_latency_ms,
            client_timestamp_ms: self.client_timestamp_ms,
            rpc_received_ms: self.rpc_received_ms,
            found_ms: self.found_ms,
            websocket: self.websocket,
        }
    }
}

pub open spec fn found_views(found: Seq<Found>) -> Seq<FoundView> {
    found.map_values(|f: Found| f@)
}

/// The time from `start` to `end`, or none where the clocks disagree on their order.
pub open spec fn elapsed(start: u64, end: u64) -> u64 {
    if start <= end {
        (end - start) as u64
    } else {
        0
    }
}

/// The report on a subscribed transaction that was observed in `slot` at `found_ms`.
pub open spec fn report(
    signature: Seq<char>,
    subscription: Subscription,
    slot: u64,
    found_ms: u64,
) -> FoundView {
    FoundView {
        signature,
        slot,
        total_latency_ms: elapsed(subscription.client_timestamp_ms, found_ms),
        rpc_latency_ms: elapsed(subscription.client_timestamp_ms, subscription.rpc_received_ms),
        after_rpc_latency_ms: elapsed(subscription.rpc_received_ms, found_ms),
        client_timestamp_ms: subscription.client_timestamp_ms,
        rpc_received_ms: subscription.rpc_received_ms,
        found_ms,
        websocket: subscription.websocket,
    }
}

/// The reports on all observed transactions that the table knows.
pub open spec fn reports(
    table: Map<Seq<char>, Subscription>,
    observed: Seq<Seq<char>>,
    slot: u64,
    found_ms: u64,
) -> Seq<FoundView> {
    matched(table, observed).map_values(
        |signature: Seq<char>| report(signature, table[signature], slot, found_ms),
    )
}

fn make_report(signature: String, subscription: Subscription, slot: u64, found_ms: u64) -> (found:
    Found)
    ensures
        found@ == report(signature@, subscription, slot, found_ms),
{
    Found {
        signature,
        slot,
        total_latency_ms: found_ms.saturating_sub(subscription.client_timestamp_ms),
        rpc_latency_ms: subscription.rpc_received_ms.saturating_sub(
            subscription.client_timestamp_ms,
        ),
        after_rpc_latency_ms: found_ms.saturating_sub(subscription.rpc_received_ms),
        client_timestamp_ms: subscription.client_timestamp_ms,
        rpc_received_ms: subscription.rpc_received_ms,
        found_ms,
        websocket: subscription.websocket,
    }
}

/// Whether a text denotes one of the signatures.
pub open spec fn is_signed(text: Seq<char>, signatures: Seq<Seq<u8>>) -> bool {
    signature_bytes(text) is Some && signatures.contains(signature_bytes(text)->0)
}

/// Whether texts are the notation of signatures, from which these can be read back.
pub open spec fn denote(texts: Seq<Seq<char>>, signatures: Seq<Seq<u8>>) -> bool {
    &&& texts == signature_texts(signatures)
    &&& forall|i: int|
        0 <= i < texts.len() ==> signature_bytes(#[trigger] texts[i]) == Some(signatures[i])
}

/// Lists the identifiers of all transactions of some entries, in order.
fn observed_signatures(entries: &Vec<Entry>) -> (texts: Vec<String>)
    ensures
        denote(text_views(texts@), signed(entry_views(entries@))),
{
    let ghost views = entry_views(entries@);
    let mut texts: Vec<String> = Vec::new();
    let mut i: usize = 0;
    assert(views.take(0) =~= Seq::empty());
    assert(text_views(texts@) =~= signature_texts(signed(views.take(0))));
    while i < entries.len()
        invariant
            i <= entries@.len(),
            views == entry_views(entries@),
            denote(text_views(texts@), signed(views.take(i as int))),
        decreases entries@.len() - i,
    {
        let ghost earlier = signed(views.take(i as int));
        let transactions = &entries[i].transactions;
        let ghost txs = entries@[i as int]@;
        let mut j: usize = 0;
        assert(txs.take(0) =~= Seq::empty());
        assert(earlier + signed_in_entry(txs.take(0)) =~= earlier);
        while j < transactions.len()
            invariant
                j <= transactions@.len(),
                txs == transactions@.map_values(|t: Transaction| t@),
                denote(text_views(texts@), earlier + signed_in_entry(txs.take(j as int))),
            decreases transactions@.len() - j,
        {
            let ghost before = texts@;
            let ghost signatures = earlier + signed_in_entry(txs.take(j as int));
            assert(txs.take(j + 1).drop_last() =~= txs.take(j as int));
            assert(txs.take(j + 1).last() == transactions@[j as int]@);
            let list = &transactions[j].signatures;
            if list.len() > 0 {
                let text = write_signature(&list[0]);
                let ghost signature = list@[0]@;
                assert(transactions@[j as int]@[0] == signature);
                texts.push(text);
                proof {
                    assert(text_views(texts@) =~= text_views(before).push(text@));
                    assert(earlier + signed_in_entry(txs.take(j + 1)) =~= signatures.push(
                        signature,
                    ));
                    assert(text_views(texts@) =~= signature_texts(signatures.push(signature)));
                }
            }
            j += 1;
        }
        proof {
            assert(txs.take(txs.len() as int) =~= txs);
            assert(views.take(i + 1).drop_last() =~= views.take(i as int));
            assert(views.take(i + 1).last() == txs);
        }
        i += 1;
    }
    assert(views.take(views.len() as int) =~= views);
    texts
}

proof fn lemma_observe_another(
    table: Map<Seq<char>, Subscription>,
    before: Seq<Seq<char>>,
    signature: Seq<char>,
)
    ensures
        unmatched(table, before.push(signature)) == unmatched(table, before).remove(signature),
        matched(table, before.push(signature)) == if unmatched(table, before).contains_key(
            signature,
        ) {
            matched(table, before).push(signature)
        } else {
            matched(table, before)
        },
{
    let after = before.push(signature);
    assert(after.drop_last() =~= before);
    before.lemma_push_to_set_commute(signature);
    assert(unmatched(table, after) =~= unmatched(table, before).remove(signature));
    assert(unmatched(table, before).contains_key(signature) <==> table.contains_key(signature)
        && !before.contains(signature));
}

/// Takes the subscriptions of observed transactions out of the table and reports on each of them.
pub fn report_observed(
    signatures: &Vec<String>,
    subscriptions: &mut Subscriptions,
    slot: u64,
    found_ms: u64,
) -> (found: Vec<Found>)
    ensures
        found_views(found@) == reports(
            held(*old(subscriptions)),
            text_views(signatures@),
            slot,
            found_ms,
        ),
        held(*final(subscriptions)) == unmatched(
            held(*old(subscriptions)),
            text_views(signatures@),
        ),
{
    let ghost table = held(*subscriptions);
    let ghost seen = text_views(signatures@);
    let mut found: Vec<Found> = Vec::new();
    let mut i: usize = 0;
    assert(seen.take(0) =~= Seq::empty());
    assert(unmatched(table, Seq::empty()) =~= table);
    assert(found_views(found@) =~= reports(table, Seq::empty(), slot, found_ms));
    while i < signatures.len()
        invariant
            i <= signatures@.len(),
            seen == text_views(signatures@),
            found_views(found@) == reports(table, seen.take(i as int), slot, found_ms),
            held(*subscriptions) == unmatched(table, seen.take(i as int)),
        decreases signatures@.len() - i,
    {
        let ghost before = seen.take(i as int);
        let ghost text = signatures@[i as int]@;
        proof {
            assert(seen.take(i + 1) =~= before.push(text));
            lemma_observe_another(table, before, text);
        }
        match map_remove(subscriptions, signatures[i].as_str()) {
            Some(subscription) => {
                let ghost earlier = found@;
                let record = make_report(signatures[i].clone(), subscription, slot, found_ms);
                found.push(record);
                proof {
                    assert(found_views(found@) =~= found_views(earlier).push(record@));
                    assert(reports(table, before.push(text), slot, found_ms) =~= reports(
                        table,
                        before,
                        slot,
                        found_ms,
                    ).push(record@));
                }
            },
            None => {},
        }
        i += 1;
    }
    assert(seen.take(seen.len() as int) =~= seen);
    found
}

/// Takes the subscriptions of all transactions in the entries out of the table and reports on
/// each of them.
pub fn scan_entries(
    entries: &Vec<Entry>,
    subscriptions: &mut Subscriptions,
    slot: u64,
    found_ms: u64,
) -> (found: Vec<Found>)
    ensures
        found_views(found@) == reports(
            held(*old(subscriptions)),
            observed(entry_views(entries@)),
            slot,
            found_ms,
        ),
        held(*final(subscriptions)) == unmatched(
            held(*old(subscriptions)),
            observed(entry_views(entries@)),
        ),
        forall|i: int|
            0 <= i < found@.len() ==> is_signed(
                (#[trigger] found@[i]).signature@,
                signed(entry_views(entries@)),
            ),
{
    let ghost table = held(*subscriptions);
    let texts = observed_signatures(entries);
    let ghost seen = text_views(texts@);
    let found = report_observed(&texts, subscriptions, slot, found_ms);
    proof {
        matches_are_the_observed_subscriptions(table, seen);
        assert forall|i: int| 0 <= i < found@.len() implies is_signed(
            (#[trigger] found@[i]).signature@,
            signed(entry_views(entries@)),
        ) by {
            assert(found_views(found@).len() == matched(table, seen).len());
            assert(found_views(found@)[i] == found@[i]@);
            let signature = matched(table, seen)[i];
            assert(matched(table, seen).contains(signature));
            assert(seen.contains(signature));
            let k = seen.index_of(signature);
            assert(signature_bytes(seen[k]) == Some(signed(entry_views(entries@))[k]));
        }
    }
    found
}

/// Scans entries without any shreds: takes the subscriptions of all transactions in them out of
/// the table and lists the signatures that had one.
pub fn scan_entries_for_subscriptions_for_test(
    entries: &Vec<Entry>,
    subscriptions: &mut Subscriptions,
) -> (signatures: Vec<String>)
    ensures
        text_views(signatures@) == matched(
            held(*old(subscriptions)),
            observed(entry_views(entries@)),
        ),
        held(*final(subscriptions)) == unmatched(
            held(*old(subscriptions)),
            observed(entry_views(entries@)),
        ),
{
    let ghost table = held(*subscriptions);
    let ghost seen = observed(entry_views(entries@));
    let found = scan_entries(entries, subscriptions, 0, 0);
    let mut signatures: Vec<String> = Vec::new();
    let mut i: usize = 0;
    assert(found_views(found@).len() == matched(table, seen).len());
    while i < found.len()
        invariant
            i <= found@.len(),
            signatures@.len() == i,
            found@.len() == matched(table, seen).len(),
            found_views(found@) == reports(table, seen, 0, 0),
            forall|j: int| 0 <= j < i ==> (#[trigger] signatures@[j])@ == matched(table, seen)[j],
        decreases found@.len() - i,
    {
        proof {
            assert(found_views(found@)[i as int] == found@[i as int]@);
            assert(reports(table, seen, 0, 0)[i as int].signature == matched(table, seen)[i as int]);
        }
        signatures.push(found[i].signature.clone());
        i += 1;
    }
    assert(text_views(signatures@) =~= matched(table, seen));
    signatures
}

/// The line that the trace log holds of an observed transaction. Its comma-separated fields are
/// chain, hash, status, service name, business, client, chain number, process, process word, index,
/// inner index, current time, reference, contract address and block height; those that this
/// process does not know are empty.
pub open spec fn trace_line(signature: Seq<char>, found_ms: u64) -> Seq<char> {
    "SOL,"@ + signature + ",,,,,"@ + decimal(CHAIN_ID as nat) + ","@ + decimal(PROCESS as nat)
        + ",node_e2e_shreds_parse,,,"@ + decimal(found_ms as nat) + ",,,\n"@
}

impl Found {
    /// Writes the transaction's line of the trace log.
    pub fn trace_log_line(&self) -> (line: String)
        ensures
            line@ == trace_line(self@.signature, self@.found_ms),
    {
        let mut line = "SOL,".to_owned();
        line.append(self.signature.as_str());
        line.append(",,,,,");
        line.append(decimal_text(CHAIN_ID).as_str());
        line.append(",");
        line.append(decimal_text(PROCESS).as_str());
        line.append(",node_e2e_shreds_parse,,,");
        line.append(decimal_text(self.found_ms).as_str());
        line.append(",,,\n");
        line
    }
}

/// The total latency is the sum of the latency before and after the arrival of the request exactly
/// where the clocks agree: the arrival lies between the client's timestamp and the observation.
pub proof fn latencies_add_up(
    signature: Seq<char>,
    subscription: Subscription,
    slot: u64,
    found_ms: u64,
)
    ensures
        ({
            let sent = subscription.client_timestamp_ms;
            let arrived = subscription.rpc_received_ms;
            let found = report(signature, subscription, slot, found_ms);
            (found.total_latency_ms == found.rpc_latency_ms + found.after_rpc_latency_ms) <==> (
            sent <= arrived <= found_ms || found_ms <= arrived <= sent)
        }),
{
}

/// A transaction is reported exactly where it was subscribed to and observed, and only once.
pub proof fn matches_are_the_observed_subscriptions(
    table: Map<Seq<char>, Subscription>,
    observed: Seq<Seq<char>>,
)
    ensures
        matched(table, observed).no_duplicates(),
        forall|signature: Seq<char>| #[trigger]
            matched(table, observed).contains(signature) <==> table.contains_key(signature)
                && observed.contains(signature),
    decreases observed.len(),
{
    if observed.len() > 0 {
        let earlier = observed.drop_last();
        let last = observed.last();
        matches_are_the_observed_subscriptions(table, earlier);
        let m = matched(table, observed);
        let m0 = matched(table, earlier);
        assert forall|signature: Seq<char>| #[trigger] m.contains(signature) <==> table.contains_key(
            signature,
        ) && observed.contains(signature) by {
            if m0.contains(signature) {
                let k = m0.index_of(signature);
                assert(m[k] == signature);
            }
            if earlier.contains(signature) {
                let k = earlier.index_of(signature);
                assert(observed[k] == signature);
            }
            if observed.contains(signature) && signature != last {
                let k = observed.index_of(signature);
                assert(earlier[k] == signature);
            }
            if signature == last {
                assert(observed[observed.len() - 1] == signature);
                if m.len() == m0.len() + 1 {
                    assert(m[m0.len() as int] == signature);
                }
            }
            if m.contains(signature) && !m0.contains(signature) {
                let k = m.index_of(signature);
                assert(k == m0.len());
            }
        }
        assert(m.no_duplicates()) by {
            if m.len() == m0.len() + 1 {
                assert(!m0.contains(last));
            }
        }
    }
}

/// A subscribed transaction that is observed is reported, with the times of its subscription, and
/// its subscription is gone; one that is not subscribed to, or not observed, is not reported.
pub proof fn subscribed_transactions_are_reported(
    table: Map<Seq<char>, Subscription>,
    observed: Seq<Seq<char>>,
    slot: u64,
    found_ms: u64,
    signature: Seq<char>,
)
    ensures
        table.contains_key(signature) && observed.contains(signature) ==> {
            &&& reports(table, observed, slot, found_ms).contains(
                report(signature, table[signature], slot, found_ms),
            )
            &&& !unmatched(table, observed).contains_key(signature)
        },
        forall|i: int|
            0 <= i < reports(table, observed, slot, found_ms).len() && (#[trigger] reports(
                table,
                observed,
                slot,
                found_ms,
            )[i]).signature == signature ==> {
                &&& table.contains_key(signature) && observed.contains(signature)
                &&& reports(table, observed, slot, found_ms)[i] == report(
                    signature,
                    table[signature],
                    slot,
                    found_ms,
                )
            },
{
    matches_are_the_observed_subscriptions(table, observed);
    let all = reports(table, observed, slot, found_ms);
    let found = matched(table, observed);
    if table.contains_key(signature) && observed.contains(signature) {
        assert(found.contains(signature));
        let k = found.index_of(signature);
        assert(all[k] == report(signature, table[signature], slot, found_ms));
    }
    assert forall|i: int| 0 <= i < all.len() && (#[trigger] all[i]).signature == signature implies {
        &&& table.contains_key(signature) && observed.contains(signature)
        &&& all[i] == report(signature, table[signature], slot, found_ms)
    } by {
        assert(found[i] == signature);
        assert(found.contains(signature));
    }
}

/// A subscription is used up by the transaction that it waits for: none of an observed
/// transaction remains, every other one remains as it was, and observing the same transactions
/// again reports nothing.
pub proof fn subscriptions_are_used_once(
    table: Map<Seq<char>, Subscription>,
    observed: Seq<Seq<char>>,
    again: Seq<Seq<char>>,
)
    requires
        forall|i: int| 0 <= i < again.len() ==> observed.contains(#[trigger] again[i]),
    ensures
        forall|signature: Seq<char>| #[trigger]
            unmatched(table, observed).contains_key(signature) <==> table.contains_key(signature)
                && !observed.contains(signature),
        forall|signature: Seq<char>|
            unmatched(table, observed).contains_key(signature) ==> #[trigger] unmatched(
                table,
                observed,
            )[signature] == table[signature],
        matched(unmatched(table, observed), again) == Seq::<Seq<char>>::empty(),
    decreases again.len(),
{
    if again.len() > 0 {
        assert(again.last() == again[again.len() - 1]);
        assert forall|i: int| 0 <= i < again.drop_last().len() implies observed.contains(
            #[trigger] again.drop_last()[i],
        ) by {
            assert(again.drop_last()[i] == again[i]);
        }
        subscriptions_are_used_once(table, observed, again.drop_last());
    }
}

/// To scan one list of transactions and then another reports what scanning both in one go
/// reports, and leaves the same subscriptions.
pub proof fn scans_compose(
    table: Map<Seq<char>, Subscription>,
    first: Seq<Seq<char>>,
    second: Seq<Seq<char>>,
)
    ensures
        matched(table, first + second) == matched(table, first) + matched(
            unmatched(table, first),
            second,
        ),
        unmatched(table, first + second) == unmatched(unmatched(table, first), second),
    decreases second.len(),
{
    let all = first + second;
    assert(unmatched(table, all) =~= unmatched(unmatched(table, first), second)) by {
        assert forall|s: Seq<char>| all.to_set().contains(s) <==> first.to_set().contains(s)
            || second.to_set().contains(s) by {
            if first.contains(s) {
                assert(all[first.index_of(s)] == s);
            }
            if second.contains(s) {
                assert(all[first.len() + second.index_of(s)] == s);
            }
        }
    }
    if second.len() == 0 {
        assert(all =~= first);
        assert(matched(table, first) + Seq::<Seq<char>>::empty() =~= matched(table, first));
    } else {
        scans_compose(table, first, second.drop_last());
        assert(all.drop_last() =~= first + second.drop_last());
        let last = second.last();
        let shorter = first + second.drop_last();
        assert(shorter.contains(last) <==> first.contains(last) || second.drop_last().contains(last)) by {
            if first.contains(last) {
                assert(shorter[first.index_of(last)] == last);
            }
            if second.drop_last().contains(last) {
                assert(shorter[first.len() + second.drop_last().index_of(last)] == last);
            }
        }
        assert(matched(table, all) =~= matched(table, first) + matched(
            unmatched(table, first),
            second,
        ));
    }
}

proof fn lemma_signed_in_entry(transactions: Seq<Seq<Seq<u8>>>, signature: Seq<u8>)
    ensures
        signed_in_entry(transactions).contains(signature) <==> exists|t: int|
            0 <= t < transactions.len() && (#[trigger] transactions[t]).len() > 0
                && transactions[t][0] == signature,
    decreases transactions.len(),
{
    if transactions.len() > 0 {
        let shorter = transactions.drop_last();
        let last = transactions.len() - 1;
        let earlier = signed_in_entry(shorter);
        let all = signed_in_entry(transactions);
        lemma_signed_in_entry(shorter, signature);
        assert forall|t: int| 0 <= t < shorter.len() implies shorter[t]
            == #[trigger] transactions[t] by {}
        if earlier.contains(signature) {
            assert(all[earlier.index_of(signature)] == signature);
            let t = choose|t: int|
                0 <= t < shorter.len() && (#[trigger] shorter[t]).len() > 0 && shorter[t][0]
                    == signature;
            assert(transactions[t].len() > 0 && transactions[t][0] == signature);
        }
        if transactions[last].len() > 0 && transactions[last][0] == signature {
            assert(all[earlier.len() as int] == signature);
        }
        if all.contains(signature) && !earlier.contains(signature) {
            let k = all.index_of(signature);
            assert(k == earlier.len());
            assert(transactions[last].len() > 0);
        }
        if exists|t: int|
            0 <= t < transactions.len() && (#[trigger] transactions[t]).len() > 0
                && transactions[t][0] == signature {
            let t = choose|t: int|
                0 <= t < transactions.len() && (#[trigger] transactions[t]).len() > 0
                    && transactions[t][0] == signature;
            if t < last {
                assert(shorter[t].len() > 0 && shorter[t][0] == signature);
            }
        }
    }
}

/// What is seen of entries is the first signature of every transaction that has one, and nothing
/// else.
pub proof fn every_transaction_is_seen(entries: Seq<Seq<Seq<Seq<u8>>>>, signature: Seq<u8>)
    ensures
        signed(entries).contains(signature) <==> exists|e: int, t: int|
            {
                &&& 0 <= e < entries.len() && 0 <= t < entries[e].len()
                &&& (#[trigger] entries[e][t]).len() > 0
                &&& entries[e][t][0] == signature
            },
        signed(entries).contains(signature) ==> observed(entries).contains(
            signature_text(signature),
        ),
    decreases entries.len(),
{
    if signed(entries).contains(signature) {
        let k = signed(entries).index_of(signature);
        assert(observed(entries)[k] == signature_text(signature));
    }
    if entries.len() > 0 {
        let shorter = entries.drop_last();
        let last = entries.len() - 1;
        every_transaction_is_seen(shorter, signature);
        lemma_signed_in_entry(entries[last], signature);
        let earlier = signed(shorter);
        let tail = signed_in_entry(entries[last]);
        assert forall|e: int| 0 <= e < shorter.len() implies shorter[e] == #[trigger] entries[e] by {}
        if earlier.contains(signature) {
            assert(signed(entries)[earlier.index_of(signature)] == signature);
            let (e, t) = choose|e: int, t: int|
                {
                    &&& 0 <= e < shorter.len() && 0 <= t < shorter[e].len()
                    &&& (#[trigger] shorter[e][t]).len() > 0
                    &&& shorter[e][t][0] == signature
                };
            assert(entries[e][t].len() > 0 && entries[e][t][0] == signature);
        }
        if tail.contains(signature) {
            assert(signed(entries)[earlier.len() + tail.index_of(signature)] == signature);
            let t = choose|t: int|
                0 <= t < entries[last].len() && (#[trigger] entries[last][t]).len() > 0
                    && entries[last][t][0] == signature;
            assert(entries[last][t].len() > 0);
        }
        if signed(entries).contains(signature) && !earlier.contains(signature) {
            let k = signed(entries).index_of(signature);
            assert(k >= earlier.len());
            assert(tail[k - earlier.len()] == signature);
        }
        if exists|e: int, t: int|
            {
                &&& 0 <= e < entries.len() && 0 <= t < entries[e].len()
                &&& (#[trigger] entries[e][t]).len() > 0
                &&& entries[e][t][0] == signature
            } {
            let (e, t) = choose|e: int, t: int|
                {
                    &&& 0 <= e < entries.len() && 0 <= t < entries[e].len()
                    &&& (#[trigger] entries[e][t]).len() > 0
                    &&& entries[e][t][0] == signature
                };
            if e < last {
                assert(shorter[e][t].len() > 0 && shorter[e][t][0] == signature);
            } else {
                assert(entries[last][t].len() > 0);
            }
        }
    }
}

/// A report tells the times of the subscription and of the observation, and how long it took from
/// one to the other; where the clocks disagree on their order, no time has passed.
pub proof fn reports_tell_the_times(
    signature: Seq<char>,
    subscription: Subscription,
    slot: u64,
    found_ms: u64,
)
    ensures
        ({
            let found = report(signature, subscription, slot, found_ms);
            let sent = subscription.client_timestamp_ms;
            let arrived = subscription.rpc_received_ms;
            &&& found.signature == signature
            &&& found.slot == slot
            &&& found.client_timestamp_ms == sent
            &&& found.rpc_received_ms == arrived
            &&& found.found_ms == found_ms
            &&& found.websocket == subscription.websocket
            &&& sent <= found_ms ==> sent + found.total_latency_ms == found_ms
            &&& sent > found_ms ==> found.total_latency_ms == 0
            &&& sent <= arrived ==> sent + found.rpc_latency_ms == arrived
            &&& sent > arrived ==> found.rpc_latency_ms == 0
            &&& arrived <= found_ms ==> arrived + found.after_rpc_latency_ms == found_ms
            &&& arrived > found_ms ==> found.after_rpc_latency_ms == 0
        }),
{
}

/// Entries are read in order, and so are the transactions of an entry: what is seen of one more
/// follows what was seen before. A transaction is seen under its first signature, and one without
/// signatures is not seen.
pub proof fn entries_are_read_in_order(
    entries: Seq<Seq<Seq<Seq<u8>>>>,
    transactions: Seq<Seq<Seq<u8>>>,
    transaction: Seq<Seq<u8>>,
)
    ensures
        observed(Seq::empty()) == Seq::<Seq<char>>::empty(),
        observed(entries.push(Seq::empty())) == observed(entries),
        observed(entries.push(transactions.push(transaction))) == if transaction.len() == 0 {
            observed(entries.push(transactions))
        } else {
            observed(entries.push(transactions)) + seq![signature_text(transaction[0])]
        },
{
    let more = transactions.push(transaction);
    assert(entries.push(transactions).drop_last() =~= entries);
    assert(entries.push(more).drop_last() =~= entries);
    assert(entries.push(Seq::empty()).drop_last() =~= entries);
    assert(more.drop_last() =~= transactions);
    assert(observed(Seq::empty()) =~= Seq::<Seq<char>>::empty());
    assert(signed_in_entry(Seq::empty()) =~= Seq::empty());
    assert(signed(entries.push(Seq::empty())) =~= signed(entries));
    if transaction.len() == 0 {
        assert(signed(entries.push(more)) =~= signed(entries.push(transactions)));
    } else {
        assert(signed(entries.push(more)) =~= signed(entries.push(transactions)).push(
            transaction[0],
        ));
        assert(observed(entries.push(more)) =~= observed(entries.push(transactions)) + seq![
            signature_text(transaction[0]),
        ]);
    }
}

/// Fields of a line, with a comma between each and the next.
pub open spec fn separated(fields: Seq<Seq<char>>) -> Seq<char>
    decreases fields.len(),
{
    if fields.len() == 0 {
        Seq::empty()
    } else if fields.len() == 1 {
        fields[0]
    } else {
        separated(fields.drop_last()) + seq![','] + fields.last()
    }
}

spec fn commas(count: nat) -> Seq<char> {
    Seq::new(count, |i: int| ',')
}

proof fn lemma_next_field(fields: Seq<Seq<char>>, count: int, before: Seq<char>)
    requires
        0 < count < fields.len(),
        separated(fields.take(count)) == before,
    ensures
        separated(fields.take(count + 1)) == before + seq![','] + fields[count],
{
    assert(fields.take(count + 1).drop_last() =~= fields.take(count));
}

proof fn lemma_empty_fields(fields: Seq<Seq<char>>, from: int, to: int, before: Seq<char>)
    requires
        0 < from <= to <= fields.len(),
        separated(fields.take(from)) == before,
        forall|i: int| from <= i < to ==> (#[trigger] fields[i]).len() == 0,
    ensures
        separated(fields.take(to)) == before + commas((to - from) as nat),
    decreases to - from,
{
    if from < to {
        lemma_empty_fields(fields, from, to - 1, before);
        let middle = before + commas((to - 1 - from) as nat);
        lemma_next_field(fields, to - 1, middle);
        assert(middle + seq![','] + fields[to - 1] =~= before + commas((to - from) as nat));
    } else {
        assert(before + commas(0) =~= before);
    }
}

proof fn lemma_field_after_gap(before: Seq<char>, gap: nat, field: Seq<char>)
    ensures
        before + commas(gap) + seq![','] + field == before + commas(gap + 1) + field,
{
    assert(before + commas(gap) + seq![','] + field =~= before + commas(gap + 1) + field);
}

proof fn lemma_trace_literals()
    ensures
        "SOL,"@ == seq!['S', 'O', 'L'] + seq![','],
        ",,,,,"@ == commas(5),
        ","@ == seq![','],
        ",node_e2e_shreds_parse,,,"@ == seq![','] + "node_e2e_shreds_parse"@ + commas(3),
        ",,,\n"@ == commas(3) + seq!['\n'],
{
    reveal_strlit("SOL,");
    reveal_strlit(",,,,,");
    reveal_strlit(",");
    reveal_strlit(",node_e2e_shreds_parse,,,");
    reveal_strlit("node_e2e_shreds_parse");
    reveal_strlit(",,,\n");
}

/// A line of the trace log has fifteen fields: the chain is the first, the signature the second, the
/// numbers of the chain and of the process and the word for it the seventh to the ninth, and the time
/// of the observation the twelfth; the others are empty.
pub proof fn trace_lines_have_fifteen_fields(signature: Seq<char>, found_ms: u64)
    ensures
        ({
            let fields = Seq::new(
                15,
                |i: int|
                    if i == 0 {
                        seq!['S', 'O', 'L']
                    } else if i == 1 {
                        signature
                    } else if i == 6 {
                        decimal(501)
                    } else if i == 7 {
                        decimal(10_010)
                    } else if i == 8 {
                        "node_e2e_shreds_parse"@
                    } else if i == 11 {
                        decimal(found_ms as nat)
                    } else {
                        Seq::empty()
                    },
            );
            trace_line(signature, found_ms) == separated(fields) + seq!['\n']
        }),
{
    let fields = Seq::new(
        15,
        |i: int|
            if i == 0 {
                seq!['S', 'O', 'L']
            } else if i == 1 {
                signature
            } else if i == 6 {
                decimal(501)
            } else if i == 7 {
                decimal(10_010)
            } else if i == 8 {
                "node_e2e_shreds_parse"@
            } else if i == 11 {
                decimal(found_ms as nat)
            } else {
                Seq::empty()
            },
    );
    let chain = decimal(501);
    let process = decimal(10_010);
    let word = "node_e2e_shreds_parse"@;
    let time = decimal(found_ms as nat);
    let start = seq!['S', 'O', 'L'] + seq![','] + signature;
    let to_chain = start + commas(5) + chain;
    let to_process = to_chain + seq![','] + process;
    let to_word = to_process + seq![','] + word;
    let to_time = to_word + commas(3) + time;
    assert(separated(fields.take(1)) == fields[0]);
    lemma_next_field(fields, 1, seq!['S', 'O', 'L']);
    lemma_empty_fields(fields, 2, 6, start);
    lemma_next_field(fields, 6, start + commas(4));
    lemma_field_after_gap(start, 4, chain);
    lemma_next_field(fields, 7, to_chain);
    lemma_next_field(fields, 8, to_process);
    lemma_empty_fields(fields, 9, 11, to_word);
    lemma_next_field(fields, 11, to_word + commas(2));
    lemma_field_after_gap(to_word, 2, time);
    lemma_empty_fields(fields, 12, 15, to_time);
    assert(fields.take(15) =~= fields);
    lemma_trace_literals();
    lemma_trace_line(to_process, word, time);
}

proof fn lemma_trace_line(front: Seq<char>, word: Seq<char>, time: Seq<char>)
    ensures
        front + (seq![','] + word + commas(3)) + time + (commas(3) + seq!['\n']) == (front + seq![
            ',',
        ] + word + commas(3) + time + commas(3)) + seq!['\n'],
{
    assert(front + (seq![','] + word + commas(3)) + time + (commas(3) + seq!['\n']) =~= (front
        + seq![','] + word + commas(3) + time + commas(3)) + seq!['\n']);
}

/// Observed transactions are reported in the order in which they were seen first, each with its own
/// signature.
pub proof fn reports_follow_the_observation(
    table: Map<Seq<char>, Subscription>,
    observed: Seq<Seq<char>>,
    slot: u64,
    found_ms: u64,
    i: int,
)
    ensures
        ({
            let all = reports(table, observed, slot, found_ms);
            &&& all.len() == matched(table, observed).len()
            &&& 0 <= i < all.len() ==> all[i].signature == matched(table, observed)[i]
            &&& 0 <= i < all.len() ==> all[i].slot == slot && all[i].found_ms == found_ms
        }),
{
}

/// What is found is told as it is reported, and entries are seen as the signatures of their
/// transactions.
pub proof fn findings_are_told_as_they_are(found: Found, entry: Entry, t: int, s: int)
    requires
        0 <= t < entry.transactions@.len(),
        0 <= s < entry.transactions@[t].signatures@.len(),
    ensures
        found@.signature == found.signature@,
        found@.slot == found.slot,
        found@.total_latency_ms == found.total_latency_ms,
        found@.rpc_latency_ms == found.rpc_latency_ms,
        found@.after_rpc_latency_ms == found.after_rpc_latency_ms,
        found@.client_timestamp_ms == found.client_timestamp_ms,
        found@.rpc_received_ms == found.rpc_received_ms,
        found@.found_ms == found.found_ms,
        found@.websocket == found.websocket,
        entry@.len() == entry.transactions@.len(),
        entry@[t].len() == entry.transactions@[t].signatures@.len(),
        entry@[t][s] == entry.transactions@[t].signatures@[s]@,
{
}

/// The line that is written of a transaction that was found has its signature and the time of the
/// observation.
pub proof fn findings_are_written_to_the_trace(found: &Found, line: String)
    requires
        call_ensures(Found::trace_log_line, (found,), line),
    ensures
        line@ == trace_line(found.signature@, found.found_ms),
{
}

/// The subscriptions of observed transactions are taken out of the table, and each is reported once,
/// in the slot and at the time given; the others stay.
pub proof fn observations_use_up_subscriptions(
    signatures: &Vec<String>,
    subscriptions: &mut Subscriptions,
    slot: u64,
    found_ms: u64,
    found: Vec<Found>,
    signature: Seq<char>,
)
    requires
        call_ensures(report_observed, (signatures, subscriptions, slot, found_ms), found),
    ensures
        ({
            let before = held(*old(subscriptions));
            let after = held(*final(subscriptions));
            let seen = exists|i: int|
                0 <= i < signatures@.len() && (#[trigger] signatures@[i])@ == signature;
            &&& after.contains_key(signature) <==> before.contains_key(signature) && !seen
            &&& after.contains_key(signature) ==> after[signature] == before[signature]
            &&& (exists|i: int|
                0 <= i < found@.len() && (#[trigger] found@[i]).signature@ == signature)
                <==> before.contains_key(signature) && seen
            &&& forall|i: int|
                0 <= i < found@.len() ==> (#[trigger] found@[i]).slot == slot && found@[i].found_ms
                    == found_ms
            &&& forall|i: int, j: int|
                0 <= i < j < found@.len() ==> (#[trigger] found@[i]).signature@ != (
                #[trigger] found@[j]).signature@
        }),
{
    let table = held(*old(subscriptions));
    let seen = text_views(signatures@);
    let m = matched(table, seen);
    let all = reports(table, seen, slot, found_ms);
    matches_are_the_observed_subscriptions(table, seen);
    subscriptions_are_used_once(table, seen, Seq::empty());
    assert(seen.contains(signature) <==> exists|i: int|
        0 <= i < signatures@.len() && (#[trigger] signatures@[i])@ == signature) by {
        if seen.contains(signature) {
            let i = seen.index_of(signature);
            assert(signatures@[i]@ == signature);
        }
        if exists|i: int| 0 <= i < signatures@.len() && (#[trigger] signatures@[i])@ == signature {
            let i = choose|i: int|
                0 <= i < signatures@.len() && (#[trigger] signatures@[i])@ == signature;
            assert(seen[i] == signature);
        }
    }
    assert(found@.len() == found_views(found@).len() == all.len() == m.len());
    assert forall|i: int| 0 <= i < found@.len() implies (#[trigger] found@[i]).signature@ == m[i]
        && found@[i].slot == slot && found@[i].found_ms == found_ms by {
        assert(found_views(found@)[i] == found@[i]@);
        assert(all[i].signature == m[i]);
    }
    assert(m.contains(signature) <==> exists|i: int|
        0 <= i < found@.len() && (#[trigger] found@[i]).signature@ == signature) by {
        if m.contains(signature) {
            let i = m.index_of(signature);
            assert(found@[i].signature@ == signature);
        }
        if exists|i: int| 0 <= i < found@.len() && (#[trigger] found@[i]).signature@ == signature {
            let i = choose|i: int|
                0 <= i < found@.len() && (#[trigger] found@[i]).signature@ == signature;
            assert(m[i] == signature);
        }
    }
    assert forall|i: int, j: int| 0 <= i < j < found@.len() implies (
    #[trigger] found@[i]).signature@ != (#[trigger] found@[j]).signature@ by {
        assert(m[i] != m[j]);
    }
}

} // verus!
