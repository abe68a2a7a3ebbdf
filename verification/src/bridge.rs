//! The bridge relay logic: per-message conversion of an incoming payload into
//! an outgoing envelope, and the strictly sequential relay over a stream,
//! with every per-message failure isolated to its own iteration.

use crate::sanitize::push_char;
use vstd::prelude::*;

verus! {

/// A wall-clock capture time: whole seconds and a nanosecond remainder.
#[derive(Clone, Copy, Debug, PartialEq, Eq, Structural)]
pub struct Timestamp {
    pub seconds: i64,
    pub nanos: i32,
}

/// The header of an outgoing envelope.
pub struct Header {
    pub timestamp: Timestamp,
    pub reference_id: u32,
    pub entity_path: String,
}

/// A message received from the source subscription: its text body.
pub struct IncomingMessage {
    pub data: String,
}

/// A transport-level receive failure, described for the log.
pub struct ReceiveError {
    pub detail: String,
}

/// The destination-transport message: a header and the relayed text body.
pub struct OutgoingEnvelope {
    pub header: Header,
    pub body: String,
}

/// The root entity path.
pub open spec fn spec_root_path() -> Seq<char> {
    seq!['/']
}

/// True when `e` is exactly the envelope owed for a message with body `body`
/// captured at time `t`: that capture time, reference identifier zero, the
/// root entity path, and the body copied verbatim.
pub open spec fn envelope_matches(e: OutgoingEnvelope, t: Timestamp, body: Seq<char>) -> bool {
    &&& e.header.timestamp == t
    &&& e.header.reference_id == 0
    &&& e.header.entity_path@ == spec_root_path()
    &&& e.body@ == body
}

/// Builds the outgoing envelope for a body received successfully and
/// captured at time `now`.
pub fn make_envelope(now: Timestamp, body: String) -> (e: OutgoingEnvelope)
    ensures
        envelope_matches(e, now, body@),
{
    let mut path = String::new();
    push_char(&mut path, '/');
    proof {
        assert(path@ =~= spec_root_path());
    }
    OutgoingEnvelope { header: Header { timestamp: now, reference_id: 0, entity_path: path }, body }
}

/// What one stream item leads to: a publish attempt of the built envelope,
/// or a receive error reported and skipped.
pub enum ItemAction {
    Publish(OutgoingEnvelope),
    ReportReceiveError(ReceiveError),
}

/// Decides one loop iteration. A successfully received message becomes
/// exactly the envelope owed for its body at capture time `now`; a receive
/// failure is handed back to be reported, and nothing is published for it.
pub fn handle_item(item: Result<IncomingMessage, ReceiveError>, now: Timestamp) -> (a: ItemAction)
    ensures
        (item matches Ok(m) ==> a matches ItemAction::Publish(e) && envelope_matches(
            e,
            now,
            m.data@,
        )),
        (item matches Err(err) ==> a matches ItemAction::ReportReceiveError(r) && r == err),
{
    match item {
        Ok(m) => ItemAction::Publish(make_envelope(now, m.data)),
        Err(err) => ItemAction::ReportReceiveError(err),
    }
}

/// The relay plan for a stream: for each successfully received message, in
/// stream order, the capture time handed to its iteration and its body.
/// Items that failed to be received contribute nothing.
pub open spec fn spec_relayed(
    items: Seq<Result<IncomingMessage, ReceiveError>>,
    times: Seq<Timestamp>,
) -> Seq<(Timestamp, Seq<char>)>
    decreases items.len(),
{
    if items.len() == 0 {
        seq![]
    } else {
        match items.first() {
            Ok(m) => seq![(times.first(), m.data@)] + spec_relayed(
                items.drop_first(),
                times.drop_first(),
            ),
            Err(_) => spec_relayed(items.drop_first(), times.drop_first()),
        }
    }
}

/// How many items of the stream were receive failures.
pub open spec fn spec_receive_error_count(
    items: Seq<Result<IncomingMessage, ReceiveError>>,
) -> nat
    decreases items.len(),
{
    if items.len() == 0 {
        0
    } else {
        (((if items.first() is Err {
            1int
        } else {
            0int
        })) + spec_receive_error_count(items.drop_first())) as nat
    }
}

/// How many publish attempts fail, when the attempt for the `i`-th stream
/// item (if that item was received successfully) has outcome `outcomes[i]`.
pub open spec fn spec_failed_publish_count(
    items: Seq<Result<IncomingMessage, ReceiveError>>,
    outcomes: Seq<bool>,
) -> nat
    decreases items.len(),
{
    if items.len() == 0 {
        0
    } else {
        (((if items.first() is Ok && !outcomes.first() {
            1int
        } else {
            0int
        })) + spec_failed_publish_count(items.drop_first(), outcomes.drop_first())) as nat
    }
}

/// The receive-error count never exceeds the stream length.
pub proof fn lemma_receive_error_count_bound(items: Seq<Result<IncomingMessage, ReceiveError>>)
    ensures
        spec_receive_error_count(items) <= items.len(),
    decreases items.len(),
{
    if items.len() > 0 {
        lemma_receive_error_count_bound(items.drop_first());
    }
}

/// The failed-publish count never exceeds the stream length.
pub proof fn lemma_failed_publish_count_bound(
    items: Seq<Result<IncomingMessage, ReceiveError>>,
    outcomes: Seq<bool>,
)
    ensures
        spec_failed_publish_count(items, outcomes) <= items.len(),
    decreases items.len(),
{
    if items.len() > 0 {
        lemma_failed_publish_count_bound(items.drop_first(), outcomes.drop_first());
    }
}

/// The bodies of the successfully received messages of a stream, in order.
pub open spec fn spec_ok_bodies(items: Seq<Result<IncomingMessage, ReceiveError>>) -> Seq<
    Seq<char>,
>
    decreases items.len(),
{
    if items.len() == 0 {
        seq![]
    } else {
        match items.first() {
            Ok(m) => seq![m.data@] + spec_ok_bodies(items.drop_first()),
            Err(_) => spec_ok_bodies(items.drop_first()),
        }
    }
}

/// Order-preservation law: the relay plan publishes exactly the bodies of
/// the successfully received messages, in the order they were received.
pub proof fn lemma_relay_order(
    items: Seq<Result<IncomingMessage, ReceiveError>>,
    times: Seq<Timestamp>,
)
    ensures
        spec_relayed(items, times).map_values(|p: (Timestamp, Seq<char>)| p.1) =~= spec_ok_bodies(
            items,
        ),
    decreases items.len(),
{
    if items.len() == 0 {
    } else {
        lemma_relay_order(items.drop_first(), times.drop_first());
        let rest = spec_relayed(items.drop_first(), times.drop_first());
        match items.first() {
            Ok(m) => {
                assert((seq![(times.first(), m.data@)] + rest).map_values(
                    |p: (Timestamp, Seq<char>)| p.1,
                ) =~= seq![m.data@] + rest.map_values(|p: (Timestamp, Seq<char>)| p.1));
            },
            Err(_) => {},
        }
    }
}

/// Isolation law: every successfully received message gets a publish
/// attempt — the length of the relay plan equals the number of items minus
/// the receive failures, whatever the outcomes of earlier publish attempts.
pub proof fn lemma_attempt_count(
    items: Seq<Result<IncomingMessage, ReceiveError>>,
    times: Seq<Timestamp>,
)
    ensures
        spec_relayed(items, times).len() == items.len() - spec_receive_error_count(items),
    decreases items.len(),
{
    lemma_receive_error_count_bound(items);
    if items.len() > 0 {
        lemma_attempt_count(items.drop_first(), times.drop_first());
        lemma_receive_error_count_bound(items.drop_first());
    }
}

/// What one full relay run did: every envelope for which a publish was
/// attempted, in order, and the counts of per-message failures that were
/// reported and skipped.
pub struct BridgeReport {
    pub attempts: Vec<OutgoingEnvelope>,
    pub publish_failures: usize,
    pub receive_errors: usize,
}

/// Relays a finite stream, strictly sequentially: each item is handled to
/// completion before the next. `times[i]` is the wall-clock capture time of
/// iteration `i`; `publish_ok[i]` is the outcome the destination transport
/// would give the publish attempt of item `i` (consulted only when item `i`
/// was received successfully). Per-message failures are counted, never
/// propagated: the run always reaches the end of the stream.
pub fn run_bridge(
    items: Vec<Result<IncomingMessage, ReceiveError>>,
    times: Vec<Timestamp>,
    publish_ok: Vec<bool>,
) -> (r: BridgeReport)
    requires
        times@.len() == items@.len(),
        publish_ok@.len() == items@.len(),
    ensures
        r.attempts@.len() == spec_relayed(items@, times@).len(),
        forall|k: int|
            0 <= k < r.attempts@.len() ==> envelope_matches(
                #[trigger] r.attempts@[k],
                spec_relayed(items@, times@)[k].0,
                spec_relayed(items@, times@)[k].1,
            ),
        r.receive_errors == spec_receive_error_count(items@),
        r.publish_failures == spec_failed_publish_count(items@, publish_ok@),
{
    let ghost gitems = items@;
    let ghost gtimes = times@;
    let ghost gok = publish_ok@;
    let mut items = items;
    let mut times = times;
    let mut publish_ok = publish_ok;
    let mut attempts: Vec<OutgoingEnvelope> = Vec::new();
    let mut publish_failures: usize = 0;
    let mut receive_errors: usize = 0;
    let n0 = items.len();
    proof {
        assert(gitems.len() == n0);
        assert(gitems.skip(0) =~= gitems);
        assert(gtimes.skip(0) =~= gtimes);
        assert(gok.skip(0) =~= gok);
    }
    while items.len() > 0
        invariant
            gitems.len() <= usize::MAX,
            receive_errors <= gitems.len() - items@.len(),
            publish_failures <= gitems.len() - items@.len(),
            gtimes.len() == gitems.len(),
            gok.len() == gitems.len(),
            times@.len() == items@.len(),
            publish_ok@.len() == items@.len(),
            items@.len() <= gitems.len(),
            items@ =~= gitems.skip(gitems.len() - items@.len()),
            times@ =~= gtimes.skip(gitems.len() - items@.len()),
            publish_ok@ =~= gok.skip(gitems.len() - items@.len()),
            attempts@.len() + spec_relayed(items@, times@).len() == spec_relayed(
                gitems,
                gtimes,
            ).len(),
            spec_relayed(gitems, gtimes).skip(attempts@.len() as int) =~= spec_relayed(
                items@,
                times@,
            ),
            forall|k: int|
                0 <= k < attempts@.len() ==> envelope_matches(
                    #[trigger] attempts@[k],
                    spec_relayed(gitems, gtimes)[k].0,
                    spec_relayed(gitems, gtimes)[k].1,
                ),
            receive_errors + spec_receive_error_count(items@) == spec_receive_error_count(gitems),
            publish_failures + spec_failed_publish_count(items@, publish_ok@)
                == spec_failed_publish_count(gitems, gok),
        decreases items@.len(),
    {
        proof {
            lemma_receive_error_count_bound(gitems);
            lemma_failed_publish_count_bound(gitems, gok);
            lemma_receive_error_count_bound(items@.drop_first());
            lemma_failed_publish_count_bound(items@.drop_first(), publish_ok@.drop_first());
        }
        let ghost pre_items = items@;
        let ghost pre_times = times@;
        let ghost pre_ok = publish_ok@;
        let item = items.remove(0);
        let t = times.remove(0);
        let ok = publish_ok.remove(0);
        proof {
            assert(items@ =~= pre_items.drop_first());
            assert(times@ =~= pre_times.drop_first());
            assert(publish_ok@ =~= pre_ok.drop_first());
            assert(items@ =~= gitems.skip(gitems.len() - items@.len()));
            assert(times@ =~= gtimes.skip(gitems.len() - items@.len()));
            assert(publish_ok@ =~= gok.skip(gitems.len() - items@.len()));
        }
        let a = handle_item(item, t);
        match a {
            ItemAction::Publish(e) => {
                proof {
                    let plan = spec_relayed(gitems, gtimes);
                    assert(spec_relayed(pre_items, pre_times) == seq![
                        (pre_times.first(), pre_items.first()->Ok_0.data@),
                    ] + spec_relayed(items@, times@));
                    assert(plan.skip(attempts@.len() as int).first() == (
                        pre_times.first(),
                        pre_items.first()->Ok_0.data@,
                    ));
                    assert(plan[attempts@.len() as int] == (
                        pre_times.first(),
                        pre_items.first()->Ok_0.data@,
                    ));
                    assert(plan.skip(attempts@.len() as int + 1) =~= plan.skip(
                        attempts@.len() as int,
                    ).drop_first());
                }
                attempts.push(e);
                if !ok {
                    publish_failures = publish_failures + 1;
                }
            },
            ItemAction::ReportReceiveError(_) => {
                receive_errors = receive_errors + 1;
            },
        }
    }
    proof {
        assert(spec_relayed(items@, times@) =~= Seq::<(Timestamp, Seq<char>)>::empty());
        assert(spec_relayed(gitems, gtimes).skip(attempts@.len() as int).len() == 0);
    }
    BridgeReport { attempts, publish_failures, receive_errors }
}

} // verus!
