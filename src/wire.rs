//! The DNS wire format, through hickory-proto: reading a request into plain
//! values, and writing a response from what the query handler decided.
use vstd::prelude::*;

use hickory_proto::op::{Header, Message, Query, ResponseCode};
use hickory_proto::rr::rdata::TXT;
use hickory_proto::rr::record_data::RData;
use hickory_proto::rr::{DNSClass, Record};

verus! {

#[verifier::external_type_specification]
#[verifier::external_body]
pub struct ExHeader(Header);

#[verifier::external_type_specification]
#[verifier::external_body]
pub struct ExQuery(Query);


/// A question as read off the wire: its name as text (with a trailing `.` for
/// a fully qualified name), its class and its type.
pub type WireQuestion = (Seq<char>, u16, u16);

/// An answer as read off the wire: its owner name as text, its class, its
/// type, its time to live, and, for TXT data, its character-strings read as
/// UTF-8 text (none for any other data).
pub type WireAnswer = (Seq<char>, u16, u16, u32, Seq<Seq<char>>);

/// A header as read off the wire: id, response flag, op code, authoritative,
/// truncated, recursion desired, checking disabled, response code.
pub type WireHeader = (u16, bool, u8, bool, bool, bool, bool, u16);

/// A message as read off the wire: header, questions, answers.
pub type WireView = (WireHeader, Seq<WireQuestion>, Seq<WireAnswer>);

/// What a datagram reads as through hickory-proto's `Message::from_vec`;
/// none when it is no well-formed message.
pub uninterp spec fn wire_message(b: Seq<u8>) -> Option<WireView>;

/// What the query handler reads of a request: id, op code, recursion
/// desired, checking disabled, and the questions.
pub type RequestView = (u16, u8, bool, bool, Seq<WireQuestion>);

pub open spec fn request_of(m: WireView) -> RequestView {
    (m.0.0, m.0.2, m.0.5, m.0.6, m.1)
}

/// One question of a request: its name as text, its class and its type.
#[derive(Debug, Clone)]
pub struct Question {
    pub name: String,
    pub qclass: u16,
    pub qtype: u16,
}

impl View for Question {
    type V = WireQuestion;

    open spec fn view(&self) -> WireQuestion {
        (self.name@, self.qclass, self.qtype)
    }
}

/// What the query handler reads of a request.
#[derive(Debug, Clone)]
pub struct RequestInfo {
    pub id: u16,
    pub op_code: u8,
    pub recursion_desired: bool,
    pub checking_disabled: bool,
    pub questions: Vec<Question>,
}

impl View for RequestInfo {
    type V = RequestView;

    open spec fn view(&self) -> RequestView {
        (
            self.id,
            self.op_code,
            self.recursion_desired,
            self.checking_disabled,
            self.questions@.map_values(|q: Question| q@),
        )
    }
}

/// A request read off the wire: its header and questions, kept to build the
/// response, and the plain values read from them. Only `decode_request`
/// makes one, so the kept header and questions are those the values were
/// read from.
pub struct DecodedRequest {
    header: Header,
    queries: Vec<Query>,
    info: RequestInfo,
}

impl DecodedRequest {
    /// The plain values read from the request.
    pub closed spec fn request(&self) -> RequestView {
        self.info@
    }

    /// One kept question for each question read.
    pub closed spec fn wf(&self) -> bool {
        self.queries@.len() == self.info.questions@.len()
    }

    pub fn info(&self) -> (r: &RequestInfo)
        ensures
            r@ == self.request(),
    {
        &self.info
    }
}

/// The response code that the handler chose.
#[derive(Debug, Clone, Copy, PartialEq, Eq, Structural)]
pub enum ResponseKind {
    NoError,
    NXDomain,
    NotImp,
}

impl ResponseKind {
    /// The code's value on the wire.
    pub open spec fn value(self) -> u16 {
        match self {
            ResponseKind::NoError => 0,
            ResponseKind::NXDomain => 3,
            ResponseKind::NotImp => 4,
        }
    }

    pub fn code(&self) -> (r: u16)
        ensures
            r == self.value(),
    {
        match self {
            ResponseKind::NoError => 0,
            ResponseKind::NXDomain => 3,
            ResponseKind::NotImp => 4,
        }
    }
}

/// One answer of a response: the index of the question it answers, its
/// class, and the record text.
#[derive(Debug, Clone)]
pub struct Answer {
    pub question: usize,
    pub class: u16,
    pub text: String,
}

/// What a response says: whether it is authoritative, its code, and its
/// answers.
#[derive(Debug, Clone)]
pub struct ResponsePlan {
    pub authoritative: bool,
    pub code: ResponseKind,
    pub answers: Vec<Answer>,
}

pub type PlanView = (bool, ResponseKind, Seq<(int, u16, Seq<char>)>);

impl View for ResponsePlan {
    type V = PlanView;

    open spec fn view(&self) -> PlanView {
        (
            self.authoritative,
            self.code,
            self.answers@.map_values(|a: Answer| (a.question as int, a.class, a.text@)),
        )
    }
}

/// The number of bytes of the UTF-8 encoding of `s`.
pub open spec fn utf8_len(s: Seq<char>) -> nat
    decreases s.len(),
{
    if s.len() == 0 {
        0
    } else {
        let c = s.last() as u32;
        utf8_len(s.drop_last()) + if c < 0x80 {
            1nat
        } else if c < 0x800 {
            2nat
        } else if c < 0x10000 {
            3nat
        } else {
            4nat
        }
    }
}

/// The most questions a response is sure to hold in full: with names of at
/// most 255 bytes and answer texts of at most 255 bytes, 84 questions with
/// one answer each stay under the 65535 bytes of a message.
pub const MAX_FULL_QUESTIONS: usize = 84;

/// Few enough questions and answers that no answer is cut for size.
pub open spec fn few_questions(req: RequestView, plan: PlanView) -> bool {
    req.4.len() <= MAX_FULL_QUESTIONS && plan.2.len() <= req.4.len()
}

/// Every answer text fits in one character-string of 255 bytes.
pub open spec fn texts_fit(plan: PlanView) -> bool {
    forall|i: int| 0 <= i < plan.2.len() ==> utf8_len(#[trigger] plan.2[i].2) <= 255
}

/// The response can be written in full.
pub open spec fn reply_fits(req: RequestView, plan: PlanView) -> bool {
    few_questions(req, plan) && texts_fit(plan)
}

/// The response that the plan describes, as it reads off the wire: the
/// request's id, op code, recursion-desired and checking-disabled bits, and
/// questions; each answer owned by its question's name, in its class, of
/// type TXT, with the given time to live and the text as its one string.
pub open spec fn reply_view(req: RequestView, plan: PlanView, ttl: u32) -> WireView {
    (
        (req.0, true, req.1, plan.0, false, req.2, req.3, plan.1.value()),
        req.4,
        plan.2.map_values(|a: (int, u16, Seq<char>)| (req.4[a.0].0, a.1, 16u16, ttl, seq![a.2])),
    )
}

/// A written response repeats the request, carries the plan's header bits,
/// and holds the plan's answers in order: all of them unless it is marked
/// truncated, and only answers whose text fits in a character-string.
pub open spec fn reply_written(m: WireView, req: RequestView, plan: PlanView, ttl: u32) -> bool {
    let full = reply_view(req, plan, ttl).2;
    &&& m.0.0 == req.0
    &&& m.0.1
    &&& m.0.2 == req.1
    &&& m.0.3 == plan.0
    &&& m.0.5 == req.2
    &&& m.0.6 == req.3
    &&& m.0.7 == plan.1.value()
    &&& m.1 == req.4
    &&& m.2.len() <= full.len()
    &&& forall|i: int| 0 <= i < m.2.len() ==> #[trigger] m.2[i] == full[i]
    &&& forall|i: int| 0 <= i < m.2.len() ==> utf8_len(#[trigger] plan.2[i].2) <= 255
    &&& !m.0.4 ==> m.2.len() == full.len()
}

/// Relies on hickory_proto's Message::from_vec to read a datagram; the result
/// depends on the bytes alone. The header's id, op code (`u8::from(OpCode)`),
/// recursion-desired and checking-disabled bits, and each question's name
/// (`Name::to_string`), class (`u16::from(DNSClass)`) and type
/// (`u16::from(RecordType)`) are copied out as plain values, one question
/// per query.
#[verifier::external_body]
pub(crate) fn decode_request(data: &[u8]) -> (r: Option<DecodedRequest>)
    ensures
        r is Some <==> wire_message(data@) is Some,
        r is Some ==> r->0.request() == request_of(wire_message(data@)->0),
        r is Some ==> r->0.wf(),
{
    let m = Message::from_vec(data).ok()?;
    let mut questions = Vec::new();
    for q in m.queries() {
        let (qclass, qtype) = (q.query_class().into(), q.query_type().into());
        questions.push(Question { name: q.name().to_string(), qclass, qtype });
    }
    let h = *m.header();
    let (id, op_code) = (h.id(), h.op_code().into());
    let (recursion_desired, checking_disabled) = (h.recursion_desired(), h.checking_disabled());
    let info = RequestInfo { id, op_code, recursion_desired, checking_disabled, questions };
    Some(DecodedRequest { header: h, queries: m.queries().to_vec(), info })
}

/// Relies on hickory_proto to write the response: Header::response_from_request
/// (the request's id, op code, recursion-desired and checking-disabled bits)
/// with Header::set_authoritative, Message::add_queries for the kept
/// questions, TXT::new, Record::from_rdata and Record::set_dns_class for each
/// answer, Message::set_response_code, and Message::to_vec. What is written
/// reads back through Message::from_vec as the same values (classes below
/// 0x8000 read back unchanged, with or without hickory's mdns feature). `to_vec` fails on
/// a character-string over 255 bytes; past 65535 bytes it drops the answers
/// that do not fit and marks the message truncated; a name takes at most 255
/// bytes.
#[verifier::external_body]
pub(crate) fn encode_response(req: &DecodedRequest, plan: &ResponsePlan, rcode: u16, ttl: u32) -> (r: Option<Vec<u8>>)
    requires
        req.wf(),
        rcode == plan.code.value(),
        forall|i: int| 0 <= i < plan.answers@.len() ==> (#[trigger] plan.answers@[i]).question < req.request().4.len(),
        forall|i: int| 0 <= i < plan.answers@.len() ==> (#[trigger] plan.answers@[i]).class < 0x8000,
    ensures
        r is Some ==> wire_message(r->0@) is Some && reply_written(
            wire_message(r->0@)->0,
            req.request(),
            plan@,
            ttl,
        ),
        r is Some || !reply_fits(req.request(), plan@),
        r is Some && reply_fits(req.request(), plan@) ==> wire_message(r->0@) == Some(
            reply_view(req.request(), plan@, ttl),
        ),
        r is None || !few_questions(req.request(), plan@) || texts_fit(plan@),
{
    let mut header = Header::response_from_request(&req.header);
    header.set_authoritative(plan.authoritative);
    let mut msg = Message::new();
    msg.set_header(header).add_queries(req.queries.iter().cloned());
    for a in plan.answers.iter() {
        let txt = RData::TXT(TXT::new(vec![a.text.clone()]));
        let mut record = Record::from_rdata(req.queries[a.question].name().clone(), ttl, txt);
        msg.add_answer(record.set_dns_class(DNSClass::from(a.class)).clone());
    }
    msg.set_response_code(<ResponseCode as From<u16>>::from(rcode));
    msg.to_vec().ok()
}

} // verus!
