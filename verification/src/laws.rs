//! What holds of every endpoint, whatever its policy and whatever the client
//! and the upstream agent send.

use crate::agent::{list_request_frame, ExchangeModel};
use crate::fingerprint::spec_fingerprint;
use crate::session::{
    answering, is_sign_request, next_step, opening, ActionModel, EventModel, SessionModel,
};
use crate::socket::{lemma_rewritten_fits, Policy};
use crate::supervisor::{owns_file, supervise, Signal, Stage, SupervisorModel, Task};
use crate::wire::{
    be32, be32_value, failure_frame, frame, identities_body, lemma_be32_value_roundtrip,
    lemma_count_field, lemma_encode_len, lemma_failure_frame, lemma_frame_well_framed,
    lemma_identities_roundtrip, parse_identities_answer, parse_sign_blob, well_framed,
    IdentityModel, REQUEST_IDENTITIES, SIGN_REQUEST,
};
use vstd::prelude::*;

verus! {

/// Deny dominates allow: a fingerprint that is denied is not admitted,
/// whether or not it is allowed as well.
pub proof fn law_deny_dominates(policy: Policy, f: Seq<char>)
    requires
        policy.denied.contains(f),
    ensures
        !policy.admits(f),
{
}

/// Where nothing is allowed by name, every fingerprint that is not denied is
/// admitted.
pub proof fn law_empty_allow_admits(policy: Policy, f: Seq<char>)
    requires
        policy.allowed =~= Set::<Seq<char>>::empty(),
        !policy.denied.contains(f),
    ensures
        policy.admits(f),
{
}

/// Where fingerprints are allowed by name, exactly those of them that are not
/// denied are admitted.
pub proof fn law_allow_list_admits(policy: Policy, f: Seq<char>)
    requires
        !(policy.allowed =~= Set::<Seq<char>>::empty()),
    ensures
        policy.admits(f) <==> policy.allowed.contains(f) && !policy.denied.contains(f),
{
}

/// Decoding inverts encoding: the frame that is built from a list of
/// identities is a whole frame, and its body is read back as that list.
pub proof fn law_decode_inverts_encode(ids: Seq<IdentityModel>)
    requires
        identities_body(ids).len() <= u32::MAX,
    ensures
        well_framed(frame(identities_body(ids))),
        parse_identities_answer(frame(identities_body(ids)).skip(4)) == Some(ids),
{
    lemma_frame_well_framed(identities_body(ids));
    lemma_identities_roundtrip(ids);
}

/// What a client sees when it asks for the identities and upstream answers
/// with a whole identities answer: a whole frame that lists exactly the
/// admitted identities of the upstream answer, in their order.
pub proof fn law_listing_is_filtered(policy: Policy, answer: Seq<u8>)
    requires
        well_framed(answer),
        parse_identities_answer(answer.skip(4)) is Some,
    ensures
        ({
            let held = parse_identities_answer(answer.skip(4))->0;
            let shown = frame(identities_body(policy.admitted(held)));
            &&& next_step(
                policy,
                SessionModel::Relaying { listing: true },
                EventModel::Upstream(ExchangeModel::Answered(answer)),
            ) == answering(shown)
            &&& well_framed(shown)
            &&& parse_identities_answer(shown.skip(4)) == Some(policy.admitted(held))
        }),
{
    let held = parse_identities_answer(answer.skip(4))->0;
    lemma_rewritten_fits(policy, answer);
    law_decode_inverts_encode(policy.admitted(held));
}

/// An identity is among the admitted ones of a list exactly where it is in
/// the list and the endpoint admits it, and every admitted one is admitted.
pub proof fn law_admitted_members(policy: Policy, held: Seq<IdentityModel>, k: IdentityModel)
    ensures
        policy.admitted(held).contains(k) <==> held.contains(k) && policy.admits_blob(k.blob),
        policy.admitted(held).len() <= held.len(),
{
    let keep = |id: IdentityModel| policy.admits_blob(id.blob);
    let kept = held.filter(keep);
    held.lemma_filter_len(keep);
    if kept.contains(k) {
        let i = choose|i: int| 0 <= i < kept.len() && kept[i] == k;
        held.lemma_filter_pred(keep, i);
        held.lemma_filter_contains_rev(keep, k);
    }
    if held.contains(k) && policy.admits_blob(k.blob) {
        let i = choose|i: int| 0 <= i < held.len() && held[i] == k;
        held.lemma_filter_contains(keep, i);
    }
}

/// Whether `places` says where in `all` each item of `part` stands, going
/// strictly upwards.
pub open spec fn places_in(
    part: Seq<IdentityModel>,
    all: Seq<IdentityModel>,
    places: Seq<int>,
) -> bool {
    &&& places.len() == part.len()
    &&& forall|i: int|
        0 <= i < part.len() ==> 0 <= #[trigger] places[i] < all.len() && all[places[i]] == part[i]
    &&& forall|i: int, j: int|
        0 <= i < j < part.len() ==> #[trigger] places[i] < #[trigger] places[j]
}

/// The admitted identities keep the order in which upstream gave them: they
/// stand in the upstream list at places that go strictly upwards.
pub proof fn law_order_is_kept(policy: Policy, held: Seq<IdentityModel>)
    ensures
        exists|places: Seq<int>| places_in(policy.admitted(held), held, places),
    decreases held.len(),
{
    let keep = |id: IdentityModel| policy.admits_blob(id.blob);
    reveal(Seq::filter);
    if held.len() == 0 {
        assert(places_in(policy.admitted(held), held, Seq::<int>::empty()));
    } else {
        let front = held.drop_last();
        law_order_is_kept(policy, front);
        let before = choose|places: Seq<int>| places_in(policy.admitted(front), front, places);
        if keep(held.last()) {
            let places = before.push(held.len() - 1);
            assert(policy.admitted(held) == front.filter(keep).push(held.last()));
            assert(places_in(policy.admitted(held), held, places));
        } else {
            assert(policy.admitted(held) == front.filter(keep));
            assert(places_in(policy.admitted(held), held, before));
        }
    }
}

/// An identity appears in the list that a client sees exactly where upstream
/// holds it and the endpoint admits it.
pub proof fn law_seen_iff_admitted(policy: Policy, answer: Seq<u8>, k: IdentityModel)
    requires
        well_framed(answer),
        parse_identities_answer(answer.skip(4)) is Some,
    ensures
        ({
            let held = parse_identities_answer(answer.skip(4))->0;
            let shown = frame(identities_body(policy.admitted(held)));
            let seen = parse_identities_answer(shown.skip(4))->0;
            seen.contains(k) <==> held.contains(k) && policy.admits_blob(k.blob)
        }),
{
    let held = parse_identities_answer(answer.skip(4))->0;
    let shown = frame(identities_body(policy.admitted(held)));
    assert(parse_identities_answer(shown.skip(4)) == Some(policy.admitted(held))) by {
        law_listing_is_filtered(policy, answer);
    }
    law_admitted_members(policy, held, k);
}

/// Nothing leaks through the list that a client sees: the count it declares
/// is the number of admitted identities, it is no greater than the number that
/// upstream holds, and every identity in it is admitted.
pub proof fn law_listing_leaks_nothing(policy: Policy, answer: Seq<u8>)
    requires
        well_framed(answer),
        parse_identities_answer(answer.skip(4)) is Some,
    ensures
        ({
            let held = parse_identities_answer(answer.skip(4))->0;
            let shown = frame(identities_body(policy.admitted(held)));
            let seen = parse_identities_answer(shown.skip(4))->0;
            &&& be32_value(shown.skip(5)) == policy.admitted(held).len()
            &&& seen.len() == policy.admitted(held).len()
            &&& seen.len() <= held.len()
            &&& forall|i: int| 0 <= i < seen.len() ==> policy.admits_blob((#[trigger] seen[i]).blob)
        }),
{
    let held = parse_identities_answer(answer.skip(4))->0;
    let kept = policy.admitted(held);
    let shown = frame(identities_body(kept));
    assert(parse_identities_answer(shown.skip(4)) == Some(kept)) by {
        law_listing_is_filtered(policy, answer);
    }
    assert(kept.len() <= held.len()) by {
        law_admitted_members(policy, held, arbitrary());
    }
    assert(be32_value(shown.skip(5)) == kept.len()) by {
        lemma_rewritten_fits(policy, answer);
        lemma_encode_len(kept);
        lemma_count_field(kept);
    }
    assert forall|i: int| 0 <= i < kept.len() implies policy.admits_blob(
        (#[trigger] kept[i]).blob,
    ) by {
        assert(kept.contains(kept[i]));
        law_admitted_members(policy, held, kept[i]);
    }
}

/// Frames are preserved: a request that neither asks for the identities nor
/// for a signature goes upstream byte for byte, and the answer that upstream
/// gives goes to the client byte for byte, after which the next request is
/// read.
pub proof fn law_frames_preserved(policy: Policy, header: Seq<u8>, body: Seq<u8>, answer: Seq<u8>)
    requires
        header.len() == 4,
        be32_value(header) == body.len(),
        body.len() <= policy.frame_limit,
        body.len() == 0 || (body[0] != REQUEST_IDENTITIES && body[0] != SIGN_REQUEST),
        well_framed(answer),
    ensures
        ({
            let read = next_step(policy, SessionModel::Idle, EventModel::Read(header));
            let sent = next_step(policy, read.session, EventModel::Read(body));
            let told = next_step(
                policy,
                sent.session,
                EventModel::Upstream(ExchangeModel::Answered(answer)),
            );
            let done = next_step(policy, told.session, EventModel::Written);
            &&& read.action == ActionModel::Read(body.len() as int)
            &&& sent.action == ActionModel::Forward(header + body)
            &&& told.action == ActionModel::Write(answer)
            &&& done == opening()
        }),
{
    lemma_be32_value_roundtrip(header);
}

/// Whatever is written to a client is a whole frame: its length prefix equals
/// the length of the body that follows it.
pub proof fn law_written_frames_are_whole(policy: Policy, session: SessionModel, event: EventModel)
    ensures
        next_step(policy, session, event).action matches ActionModel::Write(f) ==> well_framed(f),
{
    lemma_failure_frame();
    match (session, event) {
        (
            SessionModel::Relaying { listing },
            EventModel::Upstream(ExchangeModel::Answered(answer)),
        ) => {
            if listing && well_framed(answer) && parse_identities_answer(answer.skip(4)) is Some {
                law_listing_is_filtered(policy, answer);
            }
        },
        _ => {},
    }
}

/// Every error of the upstream agent reaches the client as a failure, and the
/// connection goes on.
pub proof fn law_upstream_errors_become_failures(policy: Policy, listing: bool)
    ensures
        next_step(
            policy,
            SessionModel::Relaying { listing },
            EventModel::Upstream(ExchangeModel::Unreachable),
        ) == answering(failure_frame()),
        next_step(
            policy,
            SessionModel::Relaying { listing },
            EventModel::Upstream(ExchangeModel::Interrupted),
        ) == answering(failure_frame()),
        next_step(
            policy,
            SessionModel::Answering { closing: false },
            EventModel::Written,
        ) == opening(),
{
}

/// A signing request for a key that upstream holds and the endpoint does not
/// admit never goes upstream: the identities are listed, the client gets a
/// failure, and the connection goes on.
pub proof fn law_refused_signing_stays_here(policy: Policy, body: Seq<u8>, listing: Seq<u8>)
    requires
        is_sign_request(body),
        parse_sign_blob(body) is Some,
        well_framed(listing),
        parse_identities_answer(listing.skip(4)) is Some,
        policy.refuses(parse_sign_blob(body)->0, parse_identities_answer(listing.skip(4))->0),
    ensures
        ({
            let asked = next_step(
                policy,
                SessionModel::Body { declared: body.len() as int },
                EventModel::Read(body),
            );
            let told = next_step(
                policy,
                asked.session,
                EventModel::Upstream(ExchangeModel::Answered(listing)),
            );
            &&& asked.action == ActionModel::Forward(list_request_frame())
            &&& told == answering(failure_frame())
            &&& next_step(policy, told.session, EventModel::Written) == opening()
        }),
{
    let request = be32(body.len() as int) + body;
    assert(request.skip(4) =~= body);
}

/// A signing request for a key that the endpoint admits, or that upstream
/// does not hold, goes upstream byte for byte once the identities were listed,
/// and the answer goes to the client byte for byte.
pub proof fn law_admitted_signing_passes(
    policy: Policy,
    body: Seq<u8>,
    listing: Seq<u8>,
    answer: Seq<u8>,
)
    requires
        is_sign_request(body),
        parse_sign_blob(body) is Some,
        well_framed(listing),
        parse_identities_answer(listing.skip(4)) is Some,
        !policy.refuses(parse_sign_blob(body)->0, parse_identities_answer(listing.skip(4))->0),
        well_framed(answer),
    ensures
        ({
            let asked = next_step(
                policy,
                SessionModel::Body { declared: body.len() as int },
                EventModel::Read(body),
            );
            let sent = next_step(
                policy,
                asked.session,
                EventModel::Upstream(ExchangeModel::Answered(listing)),
            );
            let told = next_step(
                policy,
                sent.session,
                EventModel::Upstream(ExchangeModel::Answered(answer)),
            );
            &&& asked.action == ActionModel::Forward(list_request_frame())
            &&& sent.action == ActionModel::Forward(be32(body.len() as int) + body)
            &&& told == answering(answer)
        }),
{
    let request = be32(body.len() as int) + body;
    assert(request.skip(4) =~= body);
}

/// The fingerprint is a function of the key blob alone: identities with equal
/// blobs have equal fingerprints, and an endpoint treats them alike.
pub proof fn law_fingerprint_follows_blob(policy: Policy, a: IdentityModel, b: IdentityModel)
    requires
        a.blob == b.blob,
    ensures
        spec_fingerprint(a.blob) == spec_fingerprint(b.blob),
        policy.admits_blob(a.blob) == policy.admits_blob(b.blob),
{
}

/// The cap on connections holds at every step: a connection is served only
/// where fewer than the cap are in service, and the number in service never
/// exceeds the cap.
pub proof fn law_cap_is_kept(state: SupervisorModel, signal: Signal)
    requires
        0 <= state.active <= state.limit,
    ensures
        ({
            let (after, task) = supervise(state, signal);
            &&& 0 <= after.active <= after.limit
            &&& after.limit == state.limit
            &&& task == Task::Serve ==> state.active < state.limit && after.active == state.active
                + 1
            &&& signal == Signal::Incoming && state.stage == Stage::Accepting && state.active
                >= state.limit ==> task == Task::Reject && after == state
        }),
{
}

/// The socket file comes and goes with the listener: an endpoint gets its
/// file only when the bind succeeds, lets go of it only once its removal was
/// asked for, and an endpoint that has its file never stops without asking for
/// the removal.
pub proof fn law_file_follows_listener(state: SupervisorModel, signal: Signal)
    ensures
        ({
            let (after, task) = supervise(state, signal);
            &&& !owns_file(state.stage) && owns_file(after.stage) ==> state.stage == Stage::Binding
                && signal == Signal::Done && after.stage == Stage::Accepting
            &&& owns_file(state.stage) && !owns_file(after.stage) ==> state.stage
                == Stage::Removing && after.stage == Stage::Stopped
            &&& after.stage == Stage::Removing ==> task == Task::Remove
            &&& state.stage == Stage::Accepting && signal == Signal::Shutdown ==> after.stage
                == Stage::Draining || after.stage == Stage::Removing
        }),
{
}

/// An endpoint starts by clearing its path: whether or not a file was left
/// there, the tasks up to the first accept are the removal of that file where
/// there is one, the making of the directory, and the bind.
pub proof fn law_startup_clears_the_path(limit: int, stale: bool)
    ensures
        ({
            let created = SupervisorModel { stage: Stage::Created, active: 0, limit };
            let (first, task) = supervise(created, Signal::Start { stale });
            let (cleared, clearing) = if stale {
                supervise(first, Signal::Done)
            } else {
                (first, task)
            };
            let (prepared, binding) = supervise(cleared, Signal::Done);
            let (bound, accepting) = supervise(prepared, Signal::Done);
            &&& stale ==> task == Task::Remove
            &&& clearing == Task::MakeParent
            &&& binding == Task::Bind
            &&& accepting == Task::Accept
            &&& bound.stage == Stage::Accepting
        }),
{
}

} // verus!
