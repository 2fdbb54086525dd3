use vstd::prelude::*;

verus! {

use crate::header::{Header, ResponseCode, empty_header};
use crate::packet::{Packet, PacketV};
use crate::question::{Question, QuestionV};
use crate::record::QueryType;
use vstd::string::StringExecFns;

/// Identifier stamped on every outgoing lookup query.
pub const QUERY_ID: u16 = 1000;

/// The message one lookup exchange sends: a single question with
/// recursion desired.
pub open spec fn spec_query(name: Seq<char>, qtype: QueryType) -> PacketV {
    PacketV {
        header: Header {
            id: 1000,
            recursion_desired: true,
            question_count: 1,
            ..empty_header()
        },
        questions: seq![QuestionV { name: name, qtype: qtype }],
        answers: Seq::empty(),
        authorities: Seq::empty(),
        additionals: Seq::empty(),
    }
}

/// The reply a server builds for one received query.  The reply echoes
/// the request's identifier and marks itself a recursive response.  A
/// request without a question, or one whose resolution failed, is
/// answered with SERVFAIL rather than dropped; otherwise the request's
/// question is echoed and the resolved sections are copied over.
pub open spec fn spec_response(req: PacketV, lookup: Option<PacketV>) -> PacketV {
    let base = Header {
        id: req.header.id,
        recursion_desired: true,
        recursion_available: true,
        query_response: true,
        ..empty_header()
    };
    let servfail = PacketV {
        header: Header { response_code: ResponseCode::SERVFAIL, ..base },
        questions: Seq::empty(),
        answers: Seq::empty(),
        authorities: Seq::empty(),
        additionals: Seq::empty(),
    };
    if req.questions.len() == 0 {
        servfail
    } else {
        match lookup {
            Some(p) => PacketV {
                header: base,
                questions: seq![req.questions.last()],
                answers: p.answers,
                authorities: p.authorities,
                additionals: p.additionals,
            },
            None => servfail,
        }
    }
}

/// The message-level half of a server: it builds outgoing queries and
/// turns a request plus the outcome of its resolution into the reply to
/// send back.  The sockets and the accept loop stay with the caller.
pub struct Server;

impl Server {
    /// Builds the query message one lookup exchange sends.
    pub fn build_query(domain: &str, qtype: QueryType) -> (r: Packet)
        ensures
            r@ == spec_query(domain@, qtype),
    {
        let mut packet = Packet::new();
        packet.header.id = QUERY_ID;
        packet.header.question_count = 1;
        packet.header.recursion_desired = true;
        packet.questions.push(Question::new(String::from_str(domain), qtype));
        proof {
            assert(packet@.questions =~= spec_query(domain@, qtype).questions);
            assert(packet@.answers =~= spec_query(domain@, qtype).answers);
            assert(packet@.authorities =~= spec_query(domain@, qtype).authorities);
            assert(packet@.additionals =~= spec_query(domain@, qtype).additionals);
            assert(packet@ =~= spec_query(domain@, qtype));
        }
        packet
    }

    /// Builds the reply to one received request, given the result of
    /// resolving its question (`None` when resolution failed or was not
    /// attempted).
    pub fn build_response(request: Packet, lookup: Option<Packet>) -> (r: Packet)
        ensures
            lookup is None ==> r@ == spec_response(request@, None),
            (lookup matches Some(p) ==> r@ == spec_response(request@, Some(p@))),
    {
        let ghost reqv = request@;
        let mut req = request;
        let mut res = Packet::new();
        res.header.id = req.header.id;
        res.header.recursion_desired = true;
        res.header.recursion_available = true;
        res.header.query_response = true;
        match req.questions.pop() {
            Some(question) => {
                match lookup {
                    Some(p) => {
                        res.questions.push(question);
                        res.answers = p.answers;
                        res.authorities = p.authorities;
                        res.additionals = p.additionals;
                        proof {
                            assert(res@.questions =~= spec_response(reqv, Some(p@)).questions);
                            assert(res@ =~= spec_response(reqv, Some(p@)));
                        }
                    },
                    None => {
                        res.header.response_code = ResponseCode::SERVFAIL;
                        proof {
                            assert(res@ =~= spec_response(reqv, None));
                        }
                    },
                }
            },
            None => {
                res.header.response_code = ResponseCode::SERVFAIL;
                proof {
                    assert(lookup is None ==> res@ =~= spec_response(reqv, None));
                    assert(forall|pv: PacketV| res@ =~= spec_response(reqv, Some(pv)));
                }
            },
        }
        res
    }
}

} // verus!
