//! The upstream agent as the router sees it: the identities it holds and the
//! outcome of one exchange with it.

use crate::error::ErrorKind;
use crate::fingerprint::{fingerprint, is_canonical, spec_fingerprint};
use crate::wire::{
    copy_bytes, decode_identities_answer, models, parse_identities_answer, parse_key_type,
    read_string, well_framed, Identity, IdentityModel, REQUEST_IDENTITIES,
};
use vstd::prelude::*;
use vstd::utf8::{decode_utf8, valid_utf8};

verus! {

/// The text that `String::from_utf8_lossy` makes of `bytes`.
pub uninterp spec fn lossy_text(bytes: Seq<u8>) -> Seq<char>;

/// `String::from_utf8_lossy`: the text that `bytes` hold. Valid UTF-8 is
/// decoded as it stands; elsewhere the standard library puts U+FFFD in place of
/// what it cannot decode.
#[verifier::external_body]
fn lossy_string(bytes: &[u8]) -> (text: String)
    ensures
        text@ == lossy_text(bytes@),
        valid_utf8(bytes@) ==> text@ == decode_utf8(bytes@),
{
    String::from_utf8_lossy(bytes).into_owned()
}

/// The key type that is shown for a blob whose type tag cannot be read.
pub open spec fn unknown_key_type() -> Seq<char> {
    seq!['u', 'n', 'k', 'n', 'o', 'w', 'n']
}

/// The key type of a blob: the text of the string at its start, or `unknown`
/// where the blob does not start with a whole string.
pub open spec fn key_type_text(blob: Seq<u8>) -> Seq<char> {
    match parse_key_type(blob) {
        Some(tag) => lossy_text(tag),
        None => unknown_key_type(),
    }
}

/// An identity that the upstream agent holds, with what is derived from its
/// blob.
#[derive(Debug)]
pub struct SshKey {
    pub key_type: String,
    pub blob: Vec<u8>,
    pub comment: String,
    pub fingerprint: String,
}

impl Clone for SshKey {
    fn clone(&self) -> (copy: Self)
        ensures
            copy.key_type@ == self.key_type@,
            copy.blob@ == self.blob@,
            copy.comment@ == self.comment@,
            copy.fingerprint@ == self.fingerprint@,
    {
        SshKey {
            key_type: self.key_type.clone(),
            blob: copy_bytes(self.blob.as_slice()),
            comment: self.comment.clone(),
            fingerprint: self.fingerprint.clone(),
        }
    }
}

impl SshKey {
    /// Whether this key is what [`SshKey::from_identity`] makes of `id`.
    pub open spec fn describes(&self, id: IdentityModel) -> bool {
        &&& self.blob@ == id.blob
        &&& self.key_type@ == key_type_text(id.blob)
        &&& self.comment@ == lossy_text(id.comment)
        &&& self.fingerprint@ == spec_fingerprint(id.blob)
    }

    /// A key with the given type, blob and comment, and the fingerprint of the
    /// blob.
    pub fn from_blob(key_type: String, blob: Vec<u8>, comment: String) -> (key: Self)
        ensures
            key.key_type == key_type,
            key.blob == blob,
            key.comment == comment,
            key.fingerprint@ == spec_fingerprint(blob@),
            is_canonical(key.fingerprint@),
    {
        let fingerprint: String = fingerprint(blob.as_slice());
        SshKey { key_type, blob, comment, fingerprint }
    }

    /// The key type that a blob declares: the text of its first string, or
    /// `unknown` where that string cannot be read. The key stays usable either
    /// way. A tag that is valid UTF-8 is shown as the text that it encodes.
    pub fn key_type_of(blob: &[u8]) -> (text: String)
        ensures
            text@ == key_type_text(blob@),
            parse_key_type(blob@) matches Some(tag) ==> (valid_utf8(tag) ==> text@ == decode_utf8(
                tag,
            )),
    {
        assert(blob@.skip(0) =~= blob@);
        match read_string(blob, 0) {
            Some((tag, _)) => lossy_string(tag.as_slice()),
            None => {
                proof {
                    reveal_strlit("unknown");
                    assert("unknown"@ =~= unknown_key_type());
                }
                String::from_str("unknown")
            },
        }
    }

    /// The key that stands for an identity of the wire: its blob as it is, the
    /// key type that the blob declares, the comment as text, and the
    /// fingerprint of the blob. A comment that is valid UTF-8 is shown as the
    /// text that it encodes.
    pub fn from_identity(id: &Identity) -> (key: Self)
        ensures
            key.describes(id@),
            is_canonical(key.fingerprint@),
            valid_utf8(id.comment@) ==> key.comment@ == decode_utf8(id.comment@),
    {
        let key_type: String = Self::key_type_of(id.blob.as_slice());
        let comment: String = lossy_string(id.comment.as_slice());
        Self::from_blob(key_type, copy_bytes(id.blob.as_slice()), comment)
    }
}

/// What one exchange with the upstream agent brought back.
#[derive(Debug, PartialEq, Eq)]
pub enum Exchange {
    /// The agent's endpoint is missing or refused the connection.
    Unreachable,
    /// The request could not be written whole, or the answer was cut short.
    Interrupted,
    /// The answer as it was read: four bytes of length and what followed.
    Answered(Vec<u8>),
}

/// What an [`Exchange`] holds, as mathematical values.
pub enum ExchangeModel {
    Unreachable,
    Interrupted,
    Answered(Seq<u8>),
}

impl View for Exchange {
    type V = ExchangeModel;

    open spec fn view(&self) -> ExchangeModel {
        match self {
            Exchange::Unreachable => ExchangeModel::Unreachable,
            Exchange::Interrupted => ExchangeModel::Interrupted,
            Exchange::Answered(answer) => ExchangeModel::Answered(answer@),
        }
    }
}

/// The upstream agent, known by the path of its endpoint.
#[derive(Debug)]
pub struct Agent {
    upstream_path: String,
}

impl Clone for Agent {
    fn clone(&self) -> (copy: Self)
        ensures
            copy.path() == self.path(),
    {
        Agent { upstream_path: self.upstream_path.clone() }
    }
}

/// The frame that asks an agent for its identities.
pub open spec fn list_request_frame() -> Seq<u8> {
    seq![0u8, 0u8, 0u8, 1u8, REQUEST_IDENTITIES]
}

/// What [`Agent::forward_request`] makes of an exchange: the answer where its
/// length prefix matches what follows it.
pub open spec fn forwarded(exchange: ExchangeModel) -> Result<Seq<u8>, ErrorKind> {
    match exchange {
        ExchangeModel::Unreachable => Err(ErrorKind::Unreachable),
        ExchangeModel::Interrupted => Err(ErrorKind::Io),
        ExchangeModel::Answered(answer) => if well_framed(answer) {
            Ok(answer)
        } else {
            Err(ErrorKind::Protocol)
        },
    }
}

/// The identities that an exchange brought back, where it carried a request
/// for them.
pub open spec fn listed(exchange: ExchangeModel) -> Result<Seq<IdentityModel>, ErrorKind> {
    match forwarded(exchange) {
        Ok(answer) => match parse_identities_answer(answer.skip(4)) {
            Some(ids) => Ok(ids),
            None => Err(ErrorKind::Protocol),
        },
        Err(e) => Err(e),
    }
}

/// The path that [`Agent::resolve_path`] gives: the configured one where it is
/// not empty, else the designated one where there is one and it is not empty.
pub open spec fn resolved(configured: Seq<char>, designated: Option<String>) -> Result<
    Seq<char>,
    ErrorKind,
> {
    if configured.len() > 0 {
        Ok(configured)
    } else {
        match designated {
            Some(d) => if d@.len() > 0 {
                Ok(d@)
            } else {
                Err(ErrorKind::ConfigInvalid)
            },
            None => Err(ErrorKind::ConfigInvalid),
        }
    }
}

impl Agent {
    /// The configured path of the agent's endpoint; empty where none is
    /// configured.
    pub closed spec fn path(&self) -> Seq<char> {
        self.upstream_path@
    }

    /// An agent at `upstream_path`. An empty path stands for the endpoint that
    /// the environment designates.
    pub fn new(upstream_path: String) -> (agent: Self)
        ensures
            agent.path() == upstream_path@,
    {
        Agent { upstream_path }
    }

    /// The configured path of the agent's endpoint.
    pub fn upstream_path(&self) -> (path: &str)
        ensures
            path@ == self.path(),
    {
        self.upstream_path.as_str()
    }

    /// The path to connect to: the configured one where it is not empty, else
    /// the one that the environment designates. Fails with `ConfigInvalid`
    /// where neither names an endpoint.
    pub fn resolve_path(&self, designated: Option<String>) -> (r: Result<String, ErrorKind>)
        ensures
            match resolved(self.path(), designated) {
                Ok(path) => r matches Ok(p) && p@ == path,
                Err(kind) => r matches Err(e) && e == kind,
            },
    {
        if !self.upstream_path.as_str().is_empty() {
            return Ok(self.upstream_path.clone());
        }
        match designated {
            Some(d) => if d.as_str().is_empty() {
                Err(ErrorKind::ConfigInvalid)
            } else {
                Ok(d)
            },
            None => Err(ErrorKind::ConfigInvalid),
        }
    }

    /// The frame to send upstream in order to list the agent's identities.
    pub fn list_request() -> (request: Vec<u8>)
        ensures
            request@ == list_request_frame(),
    {
        let mut request: Vec<u8> = Vec::new();
        request.push(0);
        request.push(0);
        request.push(0);
        request.push(1);
        request.push(REQUEST_IDENTITIES);
        assert(request@ =~= list_request_frame());
        request
    }

    /// The answer to a request that was forwarded upstream, from what the
    /// exchange brought back: the answer's frame as it was read, or
    /// `Unreachable`, `Io`, or `Protocol` where the answer's length prefix does
    /// not match what follows it.
    pub fn forward_request(&self, exchange: Exchange) -> (r: Result<Vec<u8>, ErrorKind>)
        ensures
            match forwarded(exchange@) {
                Ok(answer) => r matches Ok(v) && v@ == answer,
                Err(kind) => r matches Err(e) && e == kind,
            },
    {
        match exchange {
            Exchange::Unreachable => Err(ErrorKind::Unreachable),
            Exchange::Interrupted => Err(ErrorKind::Io),
            Exchange::Answered(answer) => {
                let declared: Option<u32> = crate::wire::read_u32(answer.as_slice(), 0);
                assert(answer@.skip(0) =~= answer@);
                match declared {
                    Some(n) => if n as usize == answer.len() - 4 {
                        Ok(answer)
                    } else {
                        Err(ErrorKind::Protocol)
                    },
                    None => Err(ErrorKind::Protocol),
                }
            },
        }
    }

    /// The identities that the upstream agent holds, from what an exchange that
    /// carried [`Agent::list_request`] brought back. Fails as
    /// [`Agent::forward_request`] does, and with `Protocol` where the answer is
    /// not a whole identities answer.
    pub fn list_keys(&self, exchange: Exchange) -> (r: Result<Vec<SshKey>, ErrorKind>)
        ensures
            match listed(exchange@) {
                Ok(ids) => r matches Ok(keys) && keys@.len() == ids.len() && forall|i: int|
                    0 <= i < ids.len() ==> (#[trigger] keys@[i]).describes(ids[i]),
                Err(kind) => r matches Err(e) && e == kind,
            },
    {
        let answer: Vec<u8> = match self.forward_request(exchange) {
            Ok(answer) => answer,
            Err(e) => { return Err(e); },
        };
        let body: &[u8] = vstd::slice::slice_subrange(answer.as_slice(), 4, answer.len());
        assert(body@ =~= answer@.skip(4));
        let ids: Vec<Identity> = match decode_identities_answer(body) {
            Ok(ids) => ids,
            Err(_) => { return Err(ErrorKind::Protocol); },
        };
        let mut keys: Vec<SshKey> = Vec::new();
        let mut i: usize = 0;
        while i < ids.len()
            invariant
                i <= ids@.len(),
                keys@.len() == i,
                forall|k: int| 0 <= k < i ==> (#[trigger] keys@[k]).describes(models(ids@)[k]),
            decreases ids@.len() - i,
        {
            let key: SshKey = SshKey::from_identity(&ids[i]);
            keys.push(key);
            i = i + 1;
        }
        Ok(keys)
    }
}

} // verus!
