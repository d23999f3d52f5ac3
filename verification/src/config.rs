//! The router's configuration: the upstream agent and the endpoints.

use crate::agent::Agent;
use crate::cli::{
    config_models, copy_strings, parsed_args, texts, SocketConfig, SocketConfigModel,
};
use crate::error::ErrorKind;
use crate::socket::{text_set, FilteredSocket, Policy};
use crate::wire::MAX_FRAME_LEN;
use vstd::prelude::*;

verus! {

/// One endpoint of the configuration.
#[derive(Debug)]
pub struct SocketEntry {
    /// Path of the socket file.
    pub path: String,
    /// Fingerprints of the keys that the endpoint allows.
    pub allowed: Vec<String>,
    /// Fingerprints of the keys that the endpoint denies.
    pub denied: Vec<String>,
}

impl View for SocketEntry {
    type V = SocketConfigModel;

    open spec fn view(&self) -> SocketConfigModel {
        SocketConfigModel {
            path: self.path@,
            allowed: texts(self.allowed@),
            denied: texts(self.denied@),
        }
    }
}

impl SocketEntry {
    /// The entry that an endpoint of the command line becomes.
    pub fn from_config(config: SocketConfig) -> (entry: Self)
        ensures
            entry@ == config@,
    {
        SocketEntry {
            path: config.path,
            allowed: config.allowed_fingerprints,
            denied: config.denied_fingerprints,
        }
    }
}

/// The router's configuration.
#[derive(Debug)]
pub struct Config {
    /// Path of the upstream agent's socket.
    pub upstream: String,
    /// The endpoints.
    pub sockets: Vec<SocketEntry>,
}

/// The models of a list of entries, in order.
pub open spec fn entry_models(list: Seq<SocketEntry>) -> Seq<SocketConfigModel> {
    list.map_values(|e: SocketEntry| e@)
}

/// The upstream path of a configuration that is made from the command line:
/// the given one where it is not empty, else the designated one, else none.
pub open spec fn upstream_of(given: Seq<char>, designated: Option<String>) -> Seq<char> {
    if given.len() > 0 {
        given
    } else {
        match designated {
            Some(d) => d@,
            None => Seq::<char>::empty(),
        }
    }
}

impl Config {
    /// Whether the router can start from this configuration: it names an
    /// upstream agent and at least one endpoint.
    pub open spec fn usable(&self) -> bool {
        self.upstream@.len() > 0 && self.sockets@.len() > 0
    }

    /// Whether `socket` is the endpoint that the entry at `i` specifies.
    pub open spec fn builds(&self, socket: FilteredSocket, i: int) -> bool {
        &&& socket.endpoint() == self.sockets@[i].path@
        &&& socket.upstream() == self.upstream@
        &&& socket.policy() == (Policy {
            allowed: text_set(self.sockets@[i].allowed@),
            denied: text_set(self.sockets@[i].denied@),
            frame_limit: MAX_FRAME_LEN as int,
        })
    }

    /// A configuration with the given upstream path and no endpoint.
    pub fn with_upstream(upstream: String) -> (config: Self)
        ensures
            config.upstream@ == upstream@,
            config.sockets@.len() == 0,
    {
        Config { upstream, sockets: Vec::new() }
    }

    /// The configuration that the command line specifies: the upstream path
    /// that was given or, where none was, the one that the environment
    /// designates, and the endpoints that `args` specify. Fails with
    /// `ConfigInvalid` where `args` do not keep their form.
    pub fn from_args(
        upstream: String,
        designated: Option<String>,
        args: &Vec<String>,
    ) -> (r: Result<Self, ErrorKind>)
        ensures
            match parsed_args(texts(args@)) {
                Some(configs) => r matches Ok(config) && config.upstream@ == upstream_of(
                    upstream@,
                    designated,
                ) && entry_models(config.sockets@) == configs,
                None => r matches Err(e) && e == ErrorKind::ConfigInvalid,
            },
    {
        let configs: Vec<SocketConfig> = match SocketConfig::parse_args(args) {
            Ok(configs) => configs,
            Err(e) => { return Err(e); },
        };
        let upstream: String = if upstream.as_str().is_empty() {
            match designated {
                Some(d) => d,
                None => String::new(),
            }
        } else {
            upstream
        };
        let mut sockets: Vec<SocketEntry> = Vec::new();
        let mut i: usize = 0;
        assert(entry_models(sockets@) =~= config_models(configs@.take(0)));
        while i < configs.len()
            invariant
                i <= configs@.len(),
                entry_models(sockets@) == config_models(configs@.take(i as int)),
            decreases configs@.len() - i,
        {
            let ghost before = sockets@;
            let entry: SocketEntry = SocketEntry::from_config(configs[i].clone());
            sockets.push(entry);
            proof {
                assert(configs@.take(i + 1) =~= configs@.take(i as int).push(configs@[i as int]));
                assert(entry_models(sockets@) =~= entry_models(before).push(entry@));
                assert(config_models(configs@.take(i + 1)) =~= config_models(
                    configs@.take(i as int),
                ).push(configs@[i as int]@));
            }
            i = i + 1;
        }
        assert(configs@.take(i as int) =~= configs@);
        Ok(Config { upstream, sockets })
    }

    /// The endpoints of the router, one for each entry and in their order, all
    /// speaking to the same upstream agent. Fails with `ConfigInvalid` where
    /// the configuration names no upstream agent or no endpoint.
    pub fn endpoints(&self) -> (r: Result<Vec<FilteredSocket>, ErrorKind>)
        ensures
            match r {
                Ok(list) => self.usable() && list@.len() == self.sockets@.len() && forall|i: int|
                    0 <= i < list@.len() ==> self.builds(#[trigger] list@[i], i),
                Err(e) => !self.usable() && e == ErrorKind::ConfigInvalid,
            },
    {
        if self.upstream.as_str().is_empty() || self.sockets.len() == 0 {
            return Err(ErrorKind::ConfigInvalid);
        }
        let agent: Agent = Agent::new(self.upstream.clone());
        let mut list: Vec<FilteredSocket> = Vec::new();
        let mut i: usize = 0;
        while i < self.sockets.len()
            invariant
                i <= self.sockets@.len(),
                list@.len() == i,
                agent.path() == self.upstream@,
                forall|k: int| 0 <= k < i ==> self.builds(#[trigger] list@[k], k),
            decreases self.sockets@.len() - i,
        {
            let entry: &SocketEntry = &self.sockets[i];
            let allowed: Vec<String> = copy_strings(&entry.allowed);
            let denied: Vec<String> = copy_strings(&entry.denied);
            proof {
                lemma_same_texts(allowed@, entry.allowed@);
                lemma_same_texts(denied@, entry.denied@);
            }
            let socket: FilteredSocket = FilteredSocket::new(
                entry.path.clone(),
                allowed,
                denied,
                agent.clone(),
            );
            list.push(socket);
            i = i + 1;
        }
        Ok(list)
    }
}

/// Lists with the same texts hold the same set of texts.
proof fn lemma_same_texts(a: Seq<String>, b: Seq<String>)
    requires
        texts(a) == texts(b),
    ensures
        text_set(a) == text_set(b),
{
    assert(a.len() == texts(a).len());
    assert(b.len() == texts(b).len());
    assert forall|t: Seq<char>| text_set(a).contains(t) <==> text_set(b).contains(t) by {
        if text_set(a).contains(t) {
            let i = choose|i: int| 0 <= i < a.len() && (#[trigger] a[i])@ == t;
            assert(texts(a)[i] == a[i]@);
            assert(texts(b)[i] == b[i]@);
        }
        if text_set(b).contains(t) {
            let i = choose|i: int| 0 <= i < b.len() && (#[trigger] b[i])@ == t;
            assert(texts(a)[i] == a[i]@);
            assert(texts(b)[i] == b[i]@);
        }
    }
    assert(text_set(a) =~= text_set(b));
}

} // verus!
