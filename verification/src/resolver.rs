use vstd::prelude::*;

verus! {

use crate::error::DnsError;
use crate::header::ResponseCode;
use crate::packet::{Packet, PacketV, spec_first_a, spec_resolved_ns, spec_unresolved_ns};
use crate::record::{Ipv4Addr, QueryType};

/// Configuration a resolver is constructed with: the root server to
/// start every resolution from, the port queries are sent to, a bound on
/// the number of exchanges one resolution may make, and how many times a
/// failed exchange is retried against the same nameserver.
#[derive(Copy, Clone, Debug)]
pub struct ResolverConfig {
    pub root: Ipv4Addr,
    pub port: u16,
    pub max_steps: u32,
    pub retries: u32,
}

/// One pending lookup on the resolver's stack.
struct Frame {
    qname: String,
    qtype: QueryType,
    ns: Ipv4Addr,
    attempts: u32,
    pending: Option<Packet>,
    visited: Vec<Ipv4Addr>,
}

/// The model of one pending lookup: the name and type being resolved,
/// the nameserver currently queried, how often the current exchange was
/// retried, the delegating response that is waiting for a nameserver
/// address to be resolved (present on every frame below the top), and
/// the nameservers already queried for this lookup.
#[verifier::ext_equal]
pub struct FrameV {
    pub qname: Seq<char>,
    pub qtype: QueryType,
    pub ns: Ipv4Addr,
    pub attempts: u32,
    pub pending: Option<PacketV>,
    pub visited: Seq<Ipv4Addr>,
}

impl View for Frame {
    type V = FrameV;

    closed spec fn view(&self) -> FrameV {
        FrameV {
            qname: self.qname@,
            qtype: self.qtype,
            ns: self.ns,
            attempts: self.attempts,
            pending: match self.pending {
                Some(p) => Some(p@),
                None => None,
            },
            visited: self.visited@,
        }
    }
}

/// The model of a resolver: its configuration, the stack of pending
/// lookups (top last), and how many exchanges it may still make.
#[verifier::ext_equal]
pub struct ResolverV {
    pub config: ResolverConfig,
    pub frames: Seq<FrameV>,
    pub steps_left: u32,
}

/// What the caller must do next: send a query and hand the reply (or the
/// transport failure) back, or stop with a final response or a failure.
pub enum ResolverAction {
    SendQuery { ns: Ipv4Addr, port: u16, qname: String, qtype: QueryType },
    Finished { response: Packet },
    Failed { error: DnsError },
}

/// The model of a resolver action.
#[verifier::ext_equal]
pub enum ActionV {
    SendQuery { ns: Ipv4Addr, port: u16, qname: Seq<char>, qtype: QueryType },
    Finished { response: PacketV },
    Failed { error: DnsError },
}

impl View for ResolverAction {
    type V = ActionV;

    open spec fn view(&self) -> ActionV {
        match self {
            ResolverAction::SendQuery { ns, port, qname, qtype } => ActionV::SendQuery {
                ns: *ns,
                port: *port,
                qname: qname@,
                qtype: *qtype,
            },
            ResolverAction::Finished { response } => ActionV::Finished { response: response@ },
            ResolverAction::Failed { error } => ActionV::Failed { error: *error },
        }
    }
}

/// A valid resolver state: at least one pending lookup, and every frame
/// below the top holds the delegating response it is waiting to resume.
pub open spec fn resolver_wf(s: ResolverV) -> bool {
    s.frames.len() >= 1 && (forall|i: int|
        0 <= i < s.frames.len() - 1 ==> s.frames[i].pending is Some)
}

/// The state and action a fresh resolution starts with: one frame aimed
/// at the configured root, and the first query, unless the exchange
/// bound is already exhausted.
pub open spec fn spec_start(qname: Seq<char>, qtype: QueryType, config: ResolverConfig) -> (
    ResolverV,
    ActionV,
) {
    let f = FrameV {
        qname: qname,
        qtype: qtype,
        ns: config.root,
        attempts: 0,
        pending: None,
        visited: seq![config.root],
    };
    let s = ResolverV { config, frames: seq![f], steps_left: config.max_steps };
    if config.max_steps == 0 {
        (s, ActionV::Failed { error: DnsError::ResolutionExhausted })
    } else {
        (
            ResolverV { steps_left: (config.max_steps - 1) as u32, ..s },
            ActionV::SendQuery { ns: config.root, port: config.port, qname: qname, qtype: qtype },
        )
    }
}

/// How a finished lookup propagates down the stack.  The finished frame
/// is already removed.  If no lookup is waiting, `p` is the overall
/// result.  Otherwise the waiting lookup wanted a nameserver address:
/// the first A answer of `p` becomes its next nameserver (unless already
/// visited, or the exchange bound is spent), and if `p` carries no A
/// answer the waiting lookup gives up on it and its own delegating
/// response propagates further down.
pub open spec fn spec_complete(s: ResolverV, p: PacketV) -> (ResolverV, ActionV)
    decreases s.frames.len(),
{
    if s.frames.len() == 0 {
        (s, ActionV::Finished { response: p })
    } else {
        let parent = s.frames.last();
        match spec_first_a(p.answers) {
            Some(ip) => {
                if parent.visited.contains(ip) {
                    (s, ActionV::Failed { error: DnsError::ResolutionExhausted })
                } else if s.steps_left == 0 {
                    (s, ActionV::Failed { error: DnsError::ResolutionExhausted })
                } else {
                    let parent2 = FrameV {
                        ns: ip,
                        attempts: 0,
                        pending: None,
                        visited: parent.visited.push(ip),
                        ..parent
                    };
                    (
                        ResolverV {
                            frames: s.frames.update(s.frames.len() - 1, parent2),
                            steps_left: (s.steps_left - 1) as u32,
                            ..s
                        },
                        ActionV::SendQuery {
                            ns: ip,
                            port: s.config.port,
                            qname: parent.qname,
                            qtype: parent.qtype,
                        },
                    )
                }
            },
            None => match parent.pending {
                Some(pp) => spec_complete(
                    ResolverV { frames: s.frames.drop_last(), ..s },
                    pp,
                ),
                None => (
                    ResolverV { frames: s.frames.drop_last(), ..s },
                    ActionV::Failed { error: DnsError::ResolutionExhausted },
                ),
            },
        }
    }
}

/// The decision one response leads to.  A response with answers and
/// NOERROR, or with NXDOMAIN, finishes the top lookup.  Otherwise a
/// matching delegation with glue moves the top lookup to that
/// nameserver; a glue-less delegation pushes a fresh lookup for the
/// nameserver's own address; and a response offering neither finishes
/// the top lookup with this response as its result.
pub open spec fn spec_on_response(s: ResolverV, p: PacketV) -> (ResolverV, ActionV) {
    let top = s.frames.last();
    let popped = ResolverV { frames: s.frames.drop_last(), ..s };
    if (p.answers.len() > 0 && p.header.response_code == ResponseCode::NOERROR)
        || p.header.response_code == ResponseCode::NXDOMAIN {
        spec_complete(popped, p)
    } else {
        match spec_resolved_ns(p.authorities, p.additionals, top.qname) {
            Some(ip) => {
                if top.visited.contains(ip) {
                    (s, ActionV::Failed { error: DnsError::ResolutionExhausted })
                } else if s.steps_left == 0 {
                    (s, ActionV::Failed { error: DnsError::ResolutionExhausted })
                } else {
                    let top2 = FrameV {
                        ns: ip,
                        attempts: 0,
                        visited: top.visited.push(ip),
                        ..top
                    };
                    (
                        ResolverV {
                            frames: s.frames.update(s.frames.len() - 1, top2),
                            steps_left: (s.steps_left - 1) as u32,
                            ..s
                        },
                        ActionV::SendQuery {
                            ns: ip,
                            port: s.config.port,
                            qname: top.qname,
                            qtype: top.qtype,
                        },
                    )
                }
            },
            None => match spec_unresolved_ns(p.authorities, top.qname) {
                Some(host) => {
                    if s.steps_left == 0 {
                        (s, ActionV::Failed { error: DnsError::ResolutionExhausted })
                    } else {
                        let top2 = FrameV { pending: Some(p), ..top };
                        let child = FrameV {
                            qname: host,
                            qtype: QueryType::A,
                            ns: s.config.root,
                            attempts: 0,
                            pending: None,
                            visited: seq![s.config.root],
                        };
                        (
                            ResolverV {
                                frames: s.frames.update(s.frames.len() - 1, top2).push(child),
                                steps_left: (s.steps_left - 1) as u32,
                                ..s
                            },
                            ActionV::SendQuery {
                                ns: s.config.root,
                                port: s.config.port,
                                qname: host,
                                qtype: QueryType::A,
                            },
                        )
                    }
                },
                None => spec_complete(popped, p),
            },
        }
    }
}

/// The decision a transport failure leads to: the same query is retried
/// against the same nameserver until the retry bound is spent, then the
/// failure is the resolution's result.
pub open spec fn spec_on_failure(s: ResolverV, error: DnsError) -> (ResolverV, ActionV) {
    let top = s.frames.last();
    if top.attempts < s.config.retries {
        let top2 = FrameV { attempts: (top.attempts + 1) as u32, ..top };
        (
            ResolverV { frames: s.frames.update(s.frames.len() - 1, top2), ..s },
            ActionV::SendQuery {
                ns: top.ns,
                port: s.config.port,
                qname: top.qname,
                qtype: top.qtype,
            },
        )
    } else {
        (s, ActionV::Failed { error })
    }
}

/// Whether the address is among those already queried.
fn contains_ip(v: &Vec<Ipv4Addr>, ip: Ipv4Addr) -> (r: bool)
    ensures
        r == v@.contains(ip),
{
    let mut i: usize = 0;
    while i < v.len()
        invariant
            i <= v@.len(),
            forall|k: int| 0 <= k < i ==> v@[k] != ip,
        decreases v@.len() - i,
    {
        if v[i] == ip {
            return true;
        }
        i = i + 1;
    }
    false
}

/// The algorithm that drives repeated message exchanges over a transport
/// to perform a full recursive resolution.  The caller owns the
/// transport: it performs each `SendQuery` action and hands the reply
/// back through `on_response`, or the failure through
/// `on_transport_failure`.  The explicit stack, the per-lookup visited
/// set and the exchange bound make the resolution terminate on every
/// delegation chain.
pub struct Resolver {
    config: ResolverConfig,
    frames: Vec<Frame>,
    steps_left: u32,
}

impl View for Resolver {
    type V = ResolverV;

    closed spec fn view(&self) -> ResolverV {
        ResolverV {
            config: self.config,
            frames: self.frames@.map_values(|f: Frame| f@),
            steps_left: self.steps_left,
        }
    }
}

impl Resolver {
    /// A valid mid-resolution state.
    pub open spec fn wf(&self) -> bool {
        resolver_wf(self@)
    }

    /// Begins resolving `qname` with the given configuration, returning
    /// the resolver and its first action.
    pub fn start(qname: String, qtype: QueryType, config: ResolverConfig) -> (r: (
        Resolver,
        ResolverAction,
    ))
        ensures
            r.0@ == spec_start(qname@, qtype, config).0,
            r.1@ == spec_start(qname@, qtype, config).1,
            r.0.wf(),
    {
        let action_name = qname.clone();
        let mut visited: Vec<Ipv4Addr> = Vec::new();
        visited.push(config.root);
        let frame = Frame {
            qname,
            qtype,
            ns: config.root,
            attempts: 0,
            pending: None,
            visited,
        };
        let mut frames: Vec<Frame> = Vec::new();
        frames.push(frame);
        if config.max_steps == 0 {
            let resolver = Resolver { config, frames, steps_left: 0 };
            proof {
                assert(resolver@.frames =~= spec_start(action_name@, qtype, config).0.frames);
                assert(resolver@ =~= spec_start(action_name@, qtype, config).0);
            }
            (resolver, ResolverAction::Failed { error: DnsError::ResolutionExhausted })
        } else {
            let resolver = Resolver { config, frames, steps_left: config.max_steps - 1 };
            proof {
                assert(resolver@.frames =~= spec_start(action_name@, qtype, config).0.frames);
                assert(resolver@ =~= spec_start(action_name@, qtype, config).0);
            }
            (
                resolver,
                ResolverAction::SendQuery {
                    ns: config.root,
                    port: config.port,
                    qname: action_name,
                    qtype,
                },
            )
        }
    }

    /// Propagates a finished lookup whose frame is already removed.
    fn complete(&mut self, response: Packet) -> (r: ResolverAction)
        requires
            forall|i: int|
                0 <= i < old(self)@.frames.len() ==> old(self)@.frames[i].pending is Some,
        ensures
            final(self)@ == spec_complete(old(self)@, response@).0,
            r@ == spec_complete(old(self)@, response@).1,
            (r@ matches ActionV::SendQuery { .. }) ==> final(self).wf(),
    {
        let mut p = response;
        loop
            invariant
                spec_complete(old(self)@, response@) == spec_complete(self@, p@),
                forall|i: int| 0 <= i < self@.frames.len() ==> self@.frames[i].pending is Some,
            decreases self.frames@.len(),
        {
            if self.frames.len() == 0 {
                return ResolverAction::Finished { response: p };
            }
            let ghost pre = self@;
            match p.random_answer() {
                Some(ip) => {
                    let idx = self.frames.len() - 1;
                    if contains_ip(&self.frames[idx].visited, ip) {
                        return ResolverAction::Failed { error: DnsError::ResolutionExhausted };
                    }
                    if self.steps_left == 0 {
                        return ResolverAction::Failed { error: DnsError::ResolutionExhausted };
                    }
                    let mut parent = self.frames.pop().unwrap();
                    parent.ns = ip;
                    parent.attempts = 0;
                    parent.pending = None;
                    parent.visited.push(ip);
                    let qname = parent.qname.clone();
                    let qtype = parent.qtype;
                    self.frames.push(parent);
                    self.steps_left = self.steps_left - 1;
                    proof {
                        assert(self@.frames =~= spec_complete(pre, p@).0.frames);
                        assert(self@ =~= spec_complete(pre, p@).0);
                    }
                    return ResolverAction::SendQuery {
                        ns: ip,
                        port: self.config.port,
                        qname,
                        qtype,
                    };
                },
                None => {
                    let parent = self.frames.pop().unwrap();
                    proof {
                        assert(self@.frames =~= pre.frames.drop_last());
                    }
                    match parent.pending {
                        Some(pp) => {
                            p = pp;
                        },
                        None => {
                            return ResolverAction::Failed {
                                error: DnsError::ResolutionExhausted,
                            };
                        },
                    }
                },
            }
        }
    }

    /// Feeds the reply of the last `SendQuery` action to the resolver
    /// and returns what to do next.
    pub fn on_response(&mut self, response: Packet) -> (r: ResolverAction)
        requires
            old(self).wf(),
        ensures
            final(self)@ == spec_on_response(old(self)@, response@).0,
            r@ == spec_on_response(old(self)@, response@).1,
            (r@ matches ActionV::SendQuery { .. }) ==> final(self).wf(),
    {
        let ghost s0 = self@;
        if (response.answers.len() > 0 && response.header.response_code == ResponseCode::NOERROR)
            || response.header.response_code == ResponseCode::NXDOMAIN {
            let _top = self.frames.pop().unwrap();
            proof {
                assert(self@.frames =~= s0.frames.drop_last());
                assert(self@ =~= (ResolverV { frames: s0.frames.drop_last(), ..s0 }));
            }
            return self.complete(response);
        }
        let idx = self.frames.len() - 1;
        let resolved = response.resolved_ns(self.frames[idx].qname.as_str());
        match resolved {
            Some(ip) => {
                if contains_ip(&self.frames[idx].visited, ip) {
                    return ResolverAction::Failed { error: DnsError::ResolutionExhausted };
                }
                if self.steps_left == 0 {
                    return ResolverAction::Failed { error: DnsError::ResolutionExhausted };
                }
                let mut top = self.frames.pop().unwrap();
                top.ns = ip;
                top.attempts = 0;
                top.visited.push(ip);
                let qname = top.qname.clone();
                let qtype = top.qtype;
                self.frames.push(top);
                self.steps_left = self.steps_left - 1;
                proof {
                    assert(self@.frames =~= spec_on_response(s0, response@).0.frames);
                    assert(self@ =~= spec_on_response(s0, response@).0);
                }
                ResolverAction::SendQuery { ns: ip, port: self.config.port, qname, qtype }
            },
            None => {
                let unresolved = response.unresolved_ns(self.frames[idx].qname.as_str());
                match unresolved {
                    Some(host) => {
                        if self.steps_left == 0 {
                            return ResolverAction::Failed {
                                error: DnsError::ResolutionExhausted,
                            };
                        }
                        self.steps_left = self.steps_left - 1;
                        let mut top = self.frames.pop().unwrap();
                        top.pending = Some(response);
                        self.frames.push(top);
                        let action_name = host.clone();
                        let mut visited: Vec<Ipv4Addr> = Vec::new();
                        visited.push(self.config.root);
                        self.frames.push(Frame {
                            qname: host,
                            qtype: QueryType::A,
                            ns: self.config.root,
                            attempts: 0,
                            pending: None,
                            visited,
                        });
                        proof {
                            assert(self@.frames =~= spec_on_response(s0, response@).0.frames);
                            assert(self@ =~= spec_on_response(s0, response@).0);
                        }
                        ResolverAction::SendQuery {
                            ns: self.config.root,
                            port: self.config.port,
                            qname: action_name,
                            qtype: QueryType::A,
                        }
                    },
                    None => {
                        let _top = self.frames.pop().unwrap();
                        proof {
                            assert(self@.frames =~= s0.frames.drop_last());
                            assert(self@ =~= (ResolverV { frames: s0.frames.drop_last(), ..s0 }));
                        }
                        self.complete(response)
                    },
                }
            },
        }
    }

    /// Feeds a transport failure of the last `SendQuery` action to the
    /// resolver: the exchange is retried against the same nameserver
    /// until the retry bound is spent, then the failure is final.
    pub fn on_transport_failure(&mut self, error: DnsError) -> (r: ResolverAction)
        requires
            old(self).wf(),
        ensures
            final(self)@ == spec_on_failure(old(self)@, error).0,
            r@ == spec_on_failure(old(self)@, error).1,
            final(self).wf(),
    {
        let ghost s0 = self@;
        let idx = self.frames.len() - 1;
        if self.frames[idx].attempts < self.config.retries {
            let mut top = self.frames.pop().unwrap();
            top.attempts = top.attempts + 1;
            let qname = top.qname.clone();
            let qtype = top.qtype;
            let ns = top.ns;
            self.frames.push(top);
            proof {
                assert(self@.frames =~= spec_on_failure(s0, error).0.frames);
                assert(self@ =~= spec_on_failure(s0, error).0);
            }
            ResolverAction::SendQuery { ns, port: self.config.port, qname, qtype }
        } else {
            ResolverAction::Failed { error }
        }
    }
}

} // verus!
