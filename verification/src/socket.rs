//! One filtered endpoint: its policy over fingerprints, the rewriting of
//! identity lists, the vetting of signing requests, and the mediation of one
//! client connection.

use crate::agent::{forwarded, listed, Agent, Exchange, ExchangeModel, SshKey};
use crate::error::ErrorKind;
use crate::fingerprint::{fingerprint, spec_fingerprint};
use crate::session::{next_step, Action, Event, Session, Step};
use crate::supervisor::{
    supervise, Signal, Stage, Supervisor, SupervisorModel, Task, MAX_CONCURRENT_CONNECTIONS,
};
use crate::wire::{
    be32_value, bytes_equal, decode_identities_answer, encode_identities_answer, failure,
    failure_frame, frame, frame_length, identities_body, lemma_be32_value_roundtrip,
    lemma_encode_filter_len, lemma_parse_identities_prefix, models, parse_identities_answer,
    parse_sign_blob, put_u32, sign_request_blob, well_framed, Identity, IdentityModel,
    MAX_FRAME_LEN, REQUEST_IDENTITIES, SIGN_REQUEST,
};
use vstd::prelude::*;

verus! {

/// The texts that a list of strings holds, as a set.
pub open spec fn text_set(list: Seq<String>) -> Set<Seq<char>> {
    Set::new(|text: Seq<char>| exists|i: int| 0 <= i < list.len() && (#[trigger] list[i])@ == text)
}

/// Whether no text stands twice in a list of strings.
pub open spec fn distinct_texts(list: Seq<String>) -> bool {
    forall|i: int, j: int|
        0 <= i < j < list.len() ==> (#[trigger] list[i])@ != (#[trigger] list[j])@
}

/// The rules of one endpoint: whom it admits, and how long a frame may be.
pub struct Policy {
    pub allowed: Set<Seq<char>>,
    pub denied: Set<Seq<char>>,
    pub frame_limit: int,
}

impl Policy {
    /// Whether the endpoint admits the identity with fingerprint `f`: never
    /// where `f` is denied; else always where nothing is allowed by name, and
    /// otherwise where `f` is.
    pub open spec fn admits(self, f: Seq<char>) -> bool {
        &&& !self.denied.contains(f)
        &&& (self.allowed =~= Set::<Seq<char>>::empty() || self.allowed.contains(f))
    }

    /// Whether the endpoint admits the identity with key blob `blob`.
    pub open spec fn admits_blob(self, blob: Seq<u8>) -> bool {
        self.admits(spec_fingerprint(blob))
    }

    /// The identities of `ids` that the endpoint admits, in their order.
    pub open spec fn admitted(self, ids: Seq<IdentityModel>) -> Seq<IdentityModel> {
        ids.filter(|id: IdentityModel| self.admits_blob(id.blob))
    }

    /// The identities answer that the endpoint shows its client in place of
    /// the upstream `answer`: a fresh frame that lists the admitted identities
    /// alone. `Protocol` where `answer` is not a whole identities answer.
    pub open spec fn rewritten(self, answer: Seq<u8>) -> Result<Seq<u8>, ErrorKind> {
        if well_framed(answer) {
            match parse_identities_answer(answer.skip(4)) {
                Some(ids) => Ok(frame(identities_body(self.admitted(ids)))),
                None => Err(ErrorKind::Protocol),
            }
        } else {
            Err(ErrorKind::Protocol)
        }
    }

    /// Whether the endpoint refuses to have the key with `blob` sign: where
    /// upstream holds an identity with exactly that blob and the endpoint does
    /// not admit it.
    pub open spec fn refuses(self, blob: Seq<u8>, held: Seq<IdentityModel>) -> bool {
        &&& exists|i: int| 0 <= i < held.len() && (#[trigger] held[i]).blob == blob
        &&& !self.admits_blob(blob)
    }

    /// What becomes of the signing request in the frame `request`, given what
    /// the listing of the upstream identities brought back: `Ok(None)` where it
    /// is to be forwarded, the failure frame where it is refused, and the
    /// listing's error where the identities could not be had. A request whose
    /// key blob cannot be read is forwarded whatever the listing brought.
    pub open spec fn sign_verdict(self, request: Seq<u8>, listing: ExchangeModel) -> Result<
        Option<Seq<u8>>,
        ErrorKind,
    > {
        if request.len() < 4 {
            Ok(None)
        } else {
            match parse_sign_blob(request.skip(4)) {
                None => Ok(None),
                Some(blob) => match listed(listing) {
                    Err(kind) => Err(kind),
                    Ok(held) => if self.refuses(blob, held) {
                        Ok(Some(failure_frame()))
                    } else {
                        Ok(None)
                    },
                },
            }
        }
    }
}

/// Whether `list` holds `text`.
fn holds(list: &Vec<String>, text: &String) -> (found: bool)
    ensures
        found == text_set(list@).contains(text@),
{
    let mut i: usize = 0;
    while i < list.len()
        invariant
            i <= list@.len(),
            forall|k: int| 0 <= k < i ==> (#[trigger] list@[k])@ != text@,
        decreases list@.len() - i,
    {
        if list[i] == *text {
            return true;
        }
        i = i + 1;
    }
    false
}

/// The strings of `list`, each of them once.
fn distinct(list: Vec<String>) -> (out: Vec<String>)
    ensures
        distinct_texts(out@),
        text_set(out@) == text_set(list@),
        out@.len() <= list@.len(),
{
    let mut out: Vec<String> = Vec::new();
    let mut i: usize = 0;
    assert(text_set(out@) =~= text_set(list@.take(0)));
    while i < list.len()
        invariant
            i <= list@.len(),
            out@.len() <= i,
            distinct_texts(out@),
            text_set(out@) == text_set(list@.take(i as int)),
        decreases list@.len() - i,
    {
        let ghost before = out@;
        let ghost seen = list@.take(i as int);
        let ghost next = list@.take(i + 1);
        let found: bool = holds(&out, &list[i]);
        if !found {
            out.push(list[i].clone());
        }
        proof {
            let text = list@[i as int]@;
            assert(next =~= seen.push(list@[i as int]));
            assert forall|t: Seq<char>| text_set(next).contains(t) <==> (text_set(seen).contains(
                t,
            ) || t == text) by {
                if text_set(seen).contains(t) {
                    let k = choose|k: int| 0 <= k < seen.len() && (#[trigger] seen[k])@ == t;
                    assert(next[k]@ == t);
                }
                if t == text {
                    assert(next[i as int]@ == t);
                }
                if text_set(next).contains(t) {
                    let k = choose|k: int| 0 <= k < next.len() && (#[trigger] next[k])@ == t;
                    if k < i {
                        assert(seen[k]@ == t);
                    }
                }
            }
            assert forall|t: Seq<char>| text_set(out@).contains(t) <==> (text_set(before).contains(
                t,
            ) || t == text) by {
                if text_set(before).contains(t) {
                    let k = choose|k: int| 0 <= k < before.len() && (#[trigger] before[k])@ == t;
                    assert(out@[k]@ == t);
                }
                if t == text && !found {
                    assert(out@[before.len() as int]@ == t);
                }
                if text_set(out@).contains(t) {
                    let k = choose|k: int| 0 <= k < out@.len() && (#[trigger] out@[k])@ == t;
                    if k < before.len() {
                        assert(before[k]@ == t);
                    }
                }
            }
            assert(text_set(out@) =~= text_set(next));
        }
        i = i + 1;
    }
    assert(list@.take(i as int) =~= list@);
    out
}

/// One filtered endpoint of the router.
#[derive(Debug)]
pub struct FilteredSocket {
    path: String,
    allowed_fingerprints: Vec<String>,
    denied_fingerprints: Vec<String>,
    agent: Agent,
    frame_limit: u32,
}

impl FilteredSocket {
    /// What the two sets of a socket always are: lists in which no fingerprint
    /// stands twice.
    #[verifier::type_invariant]
    spec fn well_formed(self) -> bool {
        &&& distinct_texts(self.allowed_fingerprints@)
        &&& distinct_texts(self.denied_fingerprints@)
    }

    /// The rules that this endpoint applies.
    pub closed spec fn policy(&self) -> Policy {
        Policy {
            allowed: text_set(self.allowed_fingerprints@),
            denied: text_set(self.denied_fingerprints@),
            frame_limit: self.frame_limit as int,
        }
    }

    /// The path of the endpoint's socket.
    pub closed spec fn endpoint(&self) -> Seq<char> {
        self.path@
    }

    /// The configured path of the upstream agent.
    pub closed spec fn upstream(&self) -> Seq<char> {
        self.agent.path()
    }

    /// An endpoint at `path` that allows and denies the given fingerprints and
    /// speaks to `agent`, with the default ceiling on frames.
    pub fn new(path: String, allowed: Vec<String>, denied: Vec<String>, agent: Agent) -> (socket:
        Self)
        ensures
            socket.endpoint() == path@,
            socket.upstream() == agent.path(),
            socket.policy() == (Policy {
                allowed: text_set(allowed@),
                denied: text_set(denied@),
                frame_limit: MAX_FRAME_LEN as int,
            }),
    {
        FilteredSocket {
            path,
            allowed_fingerprints: distinct(allowed),
            denied_fingerprints: distinct(denied),
            agent,
            frame_limit: MAX_FRAME_LEN,
        }
    }

    /// The same endpoint with another ceiling on the declared length of a
    /// client's frame.
    pub fn with_frame_limit(self, limit: u32) -> (socket: Self)
        ensures
            socket.endpoint() == self.endpoint(),
            socket.upstream() == self.upstream(),
            socket.policy() == (Policy { frame_limit: limit as int, ..self.policy() }),
    {
        proof {
            use_type_invariant(&self);
        }
        FilteredSocket {
            path: self.path,
            allowed_fingerprints: self.allowed_fingerprints,
            denied_fingerprints: self.denied_fingerprints,
            agent: self.agent,
            frame_limit: limit,
        }
    }

    /// The path of the endpoint's socket.
    pub fn path(&self) -> (path: &str)
        ensures
            path@ == self.endpoint(),
    {
        self.path.as_str()
    }

    /// The upstream agent that the endpoint speaks to.
    pub fn agent(&self) -> (agent: &Agent)
        ensures
            agent.path() == self.upstream(),
    {
        &self.agent
    }

    /// The ceiling on the declared length of a client's frame.
    pub fn frame_limit(&self) -> (limit: u32)
        ensures
            limit == self.policy().frame_limit,
    {
        self.frame_limit
    }

    /// The fingerprints that the endpoint allows, none of them twice.
    pub fn allowed_fingerprints(&self) -> (list: &Vec<String>)
        ensures
            distinct_texts(list@),
            text_set(list@) == self.policy().allowed,
    {
        proof {
            use_type_invariant(self);
        }
        &self.allowed_fingerprints
    }

    /// The fingerprints that the endpoint denies, none of them twice.
    pub fn denied_fingerprints(&self) -> (list: &Vec<String>)
        ensures
            distinct_texts(list@),
            text_set(list@) == self.policy().denied,
    {
        proof {
            use_type_invariant(self);
        }
        &self.denied_fingerprints
    }

    /// Begins the life of the endpoint: a supervisor with the default cap on
    /// connections, and its first task. Where a file is left at the endpoint's
    /// path (`stale`), the first task is to remove it; else to make sure that
    /// the directory of the path exists.
    pub fn start(&self, stale: bool) -> (begun: (Supervisor, Task))
        ensures
            (begun.0@, begun.1) == supervise(
                SupervisorModel {
                    stage: Stage::Created,
                    active: 0,
                    limit: MAX_CONCURRENT_CONNECTIONS as int,
                },
                Signal::Start { stale },
            ),
    {
        let mut supervisor: Supervisor = Supervisor::new();
        let task: Task = supervisor.handle(Signal::Start { stale });
        (supervisor, task)
    }

    /// Whether the endpoint admits the identity with this fingerprint.
    pub fn admits(&self, fingerprint: &str) -> (admitted: bool)
        ensures
            admitted == self.policy().admits(fingerprint@),
    {
        let text: String = fingerprint.to_owned();
        if holds(&self.denied_fingerprints, &text) {
            return false;
        }
        if self.allowed_fingerprints.len() == 0 {
            assert(text_set(self.allowed_fingerprints@) =~= Set::<Seq<char>>::empty());
            return true;
        }
        proof {
            let first = self.allowed_fingerprints@[0]@;
            assert(text_set(self.allowed_fingerprints@).contains(first));
        }
        holds(&self.allowed_fingerprints, &text)
    }

    /// Whether the endpoint admits `key`, judged by the fingerprint it carries.
    pub fn is_key_allowed(&self, key: &SshKey) -> (admitted: bool)
        ensures
            admitted == self.policy().admits(key.fingerprint@),
    {
        self.admits(key.fingerprint.as_str())
    }

    /// The identities of `ids` that the endpoint admits, in their order, each
    /// with its blob and comment as they were.
    pub fn filter_identities(&self, ids: &Vec<Identity>) -> (kept: Vec<Identity>)
        ensures
            models(kept@) == self.policy().admitted(models(ids@)),
    {
        let ghost all = models(ids@);
        let ghost keep = |id: IdentityModel| self.policy().admits_blob(id.blob);
        let mut kept: Vec<Identity> = Vec::new();
        let mut i: usize = 0;
        proof {
            reveal(Seq::filter);
            assert(all.take(0).filter(keep) =~= Seq::<IdentityModel>::empty());
            assert(models(kept@) =~= Seq::<IdentityModel>::empty());
        }
        while i < ids.len()
            invariant
                i <= ids@.len(),
                all == models(ids@),
                keep == |id: IdentityModel| self.policy().admits_blob(id.blob),
                models(kept@) == all.take(i as int).filter(keep),
            decreases ids@.len() - i,
        {
            let ghost before = models(kept@);
            let text: String = fingerprint(ids[i].blob.as_slice());
            let admitted: bool = self.admits(text.as_str());
            if admitted {
                kept.push(ids[i].clone());
            }
            proof {
                reveal(Seq::filter);
                let next = all.take(i + 1);
                assert(next.drop_last() =~= all.take(i as int));
                assert(next.last() == all[i as int]);
                assert(keep(all[i as int]) == admitted);
                if admitted {
                    assert(models(kept@) =~= before.push(all[i as int]));
                }
            }
            i = i + 1;
        }
        assert(all.take(i as int) =~= all);
        kept
    }

    /// The identities answer to show the client in place of the upstream
    /// answer `response`: a fresh frame that lists, in their order and
    /// unchanged, the identities that the endpoint admits. Fails with `Protocol`
    /// where `response` is not a whole identities answer.
    pub fn filter_identities_response(&self, response: &[u8]) -> (r: Result<Vec<u8>, ErrorKind>)
        ensures
            match self.policy().rewritten(response@) {
                Ok(f) => r matches Ok(v) && v@ == f,
                Err(kind) => r matches Err(e) && e == kind,
            },
    {
        assert(response@.skip(0) =~= response@);
        let declared: u32 = match crate::wire::read_u32(response, 0) {
            Some(n) => n,
            None => { return Err(ErrorKind::Protocol); },
        };
        if declared as usize != response.len() - 4 {
            return Err(ErrorKind::Protocol);
        }
        let body: &[u8] = vstd::slice::slice_subrange(response, 4, response.len());
        assert(body@ =~= response@.skip(4));
        let ids: Vec<Identity> = match decode_identities_answer(body) {
            Ok(ids) => ids,
            Err(_) => { return Err(ErrorKind::Protocol); },
        };
        let kept: Vec<Identity> = self.filter_identities(&ids);
        proof {
            lemma_rewritten_fits(self.policy(), response@);
        }
        match encode_identities_answer(&kept) {
            Ok(f) => Ok(f),
            Err(_) => Err(ErrorKind::Protocol),
        }
    }

    /// Whether the frame `request` carries a signing request, which the
    /// endpoint vets before it forwards it.
    pub fn should_filter_request(&self, request: &[u8]) -> (vet: bool)
        ensures
            vet == (request@.len() > 4 && request@[4] == SIGN_REQUEST),
    {
        request.len() > 4 && request[4] == SIGN_REQUEST
    }

    /// Vets the signing request in the frame `request` against what the
    /// listing of the upstream identities brought back. Returns the failure
    /// frame where upstream holds the key and the endpoint does not admit it,
    /// and `None` where the request is to be forwarded: where the key is
    /// admitted, where upstream does not hold it, and where the key blob cannot
    /// be read from the request. Fails as [`Agent::list_keys`] does where the
    /// blob can be read and the listing cannot.
    pub fn filter_sign_request(&self, request: &[u8], listing: Exchange) -> (r: Result<
        Option<Vec<u8>>,
        ErrorKind,
    >)
        ensures
            match self.policy().sign_verdict(request@, listing@) {
                Ok(Some(f)) => r matches Ok(Some(v)) && v@ == f,
                Ok(None) => r matches Ok(None),
                Err(kind) => r matches Err(e) && e == kind,
            },
    {
        if request.len() < 4 {
            return Ok(None);
        }
        let body: &[u8] = vstd::slice::slice_subrange(request, 4, request.len());
        assert(body@ =~= request@.skip(4));
        let blob: Vec<u8> = match sign_request_blob(body) {
            Some(blob) => blob,
            None => { return Ok(None); },
        };
        let answer: Vec<u8> = match self.agent.forward_request(listing) {
            Ok(answer) => answer,
            Err(e) => { return Err(e); },
        };
        let listed_body: &[u8] = vstd::slice::slice_subrange(answer.as_slice(), 4, answer.len());
        assert(listed_body@ =~= answer@.skip(4));
        let held: Vec<Identity> = match decode_identities_answer(listed_body) {
            Ok(held) => held,
            Err(_) => { return Err(ErrorKind::Protocol); },
        };
        let mut i: usize = 0;
        while i < held.len()
            invariant
                i <= held@.len(),
                request@.len() >= 4,
                parse_sign_blob(request@.skip(4)) == Some(blob@),
                listed(listing@) == Ok::<Seq<IdentityModel>, ErrorKind>(models(held@)),
                forall|k: int| 0 <= k < i ==> (#[trigger] models(held@)[k]).blob != blob@,
            decreases held@.len() - i,
        {
            if bytes_equal(held[i].blob.as_slice(), blob.as_slice()) {
                assert(models(held@)[i as int].blob == blob@);
                let text: String = fingerprint(blob.as_slice());
                if self.admits(text.as_str()) {
                    return Ok(None);
                } else {
                    return Ok(Some(failure()));
                }
            }
            i = i + 1;
        }
        Ok(None)
    }

    /// One step of the mediation of a client connection: from where the
    /// connection stands and what the last operation brought, to where it
    /// stands now and what to do next.
    pub fn handle_client(&self, session: Session, event: Event) -> (step: Step)
        ensures
            step@ == next_step(self.policy(), session@, event@),
    {
        match (session, event) {
            (Session::Idle, Event::Eof) => Step {
                session: Session::Closed,
                action: Action::Close(None),
            },
            (Session::Idle, Event::Read(header)) => match frame_length(
                header.as_slice(),
                self.frame_limit,
            ) {
                Ok(n) => Step { session: Session::Body { declared: n }, action: Action::Read(n) },
                Err(_) => Step {
                    session: Session::Answering { closing: true },
                    action: Action::Write(failure()),
                },
            },
            (Session::Body { declared }, Event::Read(body)) => {
                if body.len() != declared as usize {
                    return Step {
                        session: Session::Closed,
                        action: Action::Close(Some(ErrorKind::Io)),
                    };
                }
                let mut request: Vec<u8> = Vec::new();
                put_u32(&mut request, declared);
                let mut i: usize = 0;
                while i < body.len()
                    invariant
                        i <= body@.len(),
                        request@ == crate::wire::be32(declared as int) + body@.take(i as int),
                    decreases body@.len() - i,
                {
                    request.push(body[i]);
                    assert(body@.take(i + 1) =~= body@.take(i as int).push(body@[i as int]));
                    i = i + 1;
                }
                assert(body@.take(i as int) =~= body@);
                let sign: bool = body.len() > 0 && body[0] == SIGN_REQUEST;
                let list: bool = body.len() > 0 && body[0] == REQUEST_IDENTITIES;
                if sign && sign_request_blob(body.as_slice()).is_some() {
                    Step {
                        session: Session::Vetting { request },
                        action: Action::Forward(Agent::list_request()),
                    }
                } else {
                    Step {
                        session: Session::Relaying { listing: list },
                        action: Action::Forward(request),
                    }
                }
            },
            (Session::Vetting { request }, Event::Upstream(listing)) => {
                match self.filter_sign_request(request.as_slice(), listing) {
                    Ok(Some(refusal)) => Step {
                        session: Session::Answering { closing: false },
                        action: Action::Write(refusal),
                    },
                    Ok(None) => Step {
                        session: Session::Relaying { listing: false },
                        action: Action::Forward(request),
                    },
                    Err(_) => Step {
                        session: Session::Answering { closing: false },
                        action: Action::Write(failure()),
                    },
                }
            },
            (Session::Relaying { listing }, Event::Upstream(exchange)) => {
                let answer: Vec<u8> = match self.agent.forward_request(exchange) {
                    Ok(answer) => answer,
                    Err(_) => {
                        return Step {
                            session: Session::Answering { closing: false },
                            action: Action::Write(failure()),
                        };
                    },
                };
                let shown: Vec<u8> = if listing {
                    match self.filter_identities_response(answer.as_slice()) {
                        Ok(list) => list,
                        Err(_) => failure(),
                    }
                } else {
                    answer
                };
                Step {
                    session: Session::Answering { closing: false },
                    action: Action::Write(shown),
                }
            },
            (Session::Answering { closing }, Event::Written) => if closing {
                Step {
                    session: Session::Closed,
                    action: Action::Close(Some(ErrorKind::MalformedFrame)),
                }
            } else {
                Step { session: Session::Idle, action: Action::Read(4) }
            },
            (Session::Closed, _) => Step { session: Session::Closed, action: Action::Close(None) },
            _ => Step { session: Session::Closed, action: Action::Close(Some(ErrorKind::Io)) },
        }
    }
}

/// The rewritten answer always fits a frame: it is no longer than the answer
/// it was made from.
pub proof fn lemma_rewritten_fits(policy: Policy, answer: Seq<u8>)
    requires
        well_framed(answer),
        parse_identities_answer(answer.skip(4)) is Some,
    ensures
        identities_body(policy.admitted(parse_identities_answer(answer.skip(4))->0)).len()
            <= answer.len() - 4 <= u32::MAX,
{
    let body = answer.skip(4);
    let ids = parse_identities_answer(body)->0;
    let keep = |id: IdentityModel| policy.admits_blob(id.blob);
    lemma_be32_value_roundtrip(answer.take(4));
    assert(be32_value(answer.take(4)) == be32_value(answer));
    lemma_parse_identities_prefix(body.skip(5), be32_value(body.skip(1)) as nat);
    lemma_encode_filter_len(ids, keep);
}

} // verus!
