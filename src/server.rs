//! The query handler: from a request datagram to the response datagram, and
//! the server state that counts the datagrams handled.
use vstd::prelude::*;

use crate::resolver::resolve_name;
use crate::wire::{
    decode_request, encode_response, reply_fits, reply_view, request_of,
    wire_message, WireView, utf8_len, few_questions, reply_written, texts_fit, Answer, PlanView, RequestInfo, RequestView, ResponseKind, ResponsePlan,
    WireQuestion,
};
use crate::zone::HesiodZone;

verus! {

/// The Hesiod class.
pub const DNS_CLASS_HS: u16 = 4;

/// The Internet class, accepted as a fallback.
pub const DNS_CLASS_IN: u16 = 1;

/// The TXT record type.
pub const RECORD_TYPE_TXT: u16 = 16;

/// The standard query operation code.
pub const OP_CODE_QUERY: u8 = 0;

/// The answer text for one question: only HS- or IN-class TXT questions are
/// looked up; every other question is passed over.
pub open spec fn question_answer(q: (Seq<char>, u16, u16), zone: HesiodZone) -> Option<Seq<char>> {
    if (q.1 == DNS_CLASS_HS || q.1 == DNS_CLASS_IN) && q.2 == RECORD_TYPE_TXT {
        zone.resolve_spec(q.0)
    } else {
        None
    }
}

/// The answers to the questions, in question order, each in the HS class,
/// whichever of the accepted classes its question came in.
pub open spec fn answers_for(qs: Seq<(Seq<char>, u16, u16)>, zone: HesiodZone) -> Seq<(int, u16, Seq<char>)>
    decreases qs.len(),
{
    if qs.len() == 0 {
        Seq::empty()
    } else {
        let prev = answers_for(qs.drop_last(), zone);
        match question_answer(qs.last(), zone) {
            Some(t) => prev.push((qs.len() - 1, DNS_CLASS_HS, t)),
            None => prev,
        }
    }
}

/// The response to a request: not implemented for any operation but a
/// standard query; else the answers found, and NXDOMAIN where there are none.
pub open spec fn response_for(req: RequestView, zone: HesiodZone) -> PlanView {
    if req.1 != OP_CODE_QUERY {
        (true, ResponseKind::NotImp, Seq::empty())
    } else {
        let a = answers_for(req.4, zone);
        (true, if a.len() == 0 {
            ResponseKind::NXDomain
        } else {
            ResponseKind::NoError
        }, a)
    }
}

/// The answer, if any, to one question.
fn answer_question(q: &crate::wire::Question, zone: &HesiodZone) -> (r: Option<String>)
    requires
        zone.wf(),
    ensures
        r matches Some(t) ==> question_answer(q@, *zone) == Some(t@),
        r is None ==> question_answer(q@, *zone) is None,
{
    if (q.qclass == DNS_CLASS_HS || q.qclass == DNS_CLASS_IN) && q.qtype == RECORD_TYPE_TXT {
        resolve_name(q.name.as_str(), zone)
    } else {
        None
    }
}

/// Decides the response to a request.
pub fn respond(info: &RequestInfo, zone: &HesiodZone) -> (r: ResponsePlan)
    requires
        zone.wf(),
    ensures
        r@ == response_for(info@, *zone),
        forall|i: int| 0 <= i < r.answers@.len() ==> (#[trigger] r.answers@[i]).question < info.questions@.len(),
        forall|i: int| 0 <= i < r.answers@.len() ==> (#[trigger] r.answers@[i]).class == DNS_CLASS_HS,
{
    if info.op_code != OP_CODE_QUERY {
        let r = ResponsePlan { authoritative: true, code: ResponseKind::NotImp, answers: Vec::new() };
        assert(r@.2 =~= Seq::<(int, u16, Seq<char>)>::empty());
        return r;
    }
    let ghost qs = info@.4;
    let mut answers: Vec<Answer> = Vec::new();
    let mut i: usize = 0;
    assert(qs.take(0) =~= Seq::<(Seq<char>, u16, u16)>::empty());
    while i < info.questions.len()
        invariant
            qs == info@.4,
            i <= qs.len(),
            zone.wf(),
            answers@.map_values(|a: Answer| (a.question as int, a.class, a.text@)) == answers_for(qs.take(i as int), *zone),
            forall|j: int| 0 <= j < answers@.len() ==> (#[trigger] answers@[j]).question < i,
            forall|j: int| 0 <= j < answers@.len() ==> (#[trigger] answers@[j]).class == DNS_CLASS_HS,
        decreases qs.len() - i,
    {
        let ghost before = answers@;
        assert(qs.take(i + 1).drop_last() =~= qs.take(i as int));
        assert(qs.take(i + 1).last() == info.questions@[i as int]@);
        match answer_question(&info.questions[i], zone) {
            Some(text) => {
                answers.push(Answer { question: i, class: DNS_CLASS_HS, text });
                assert(answers@.map_values(|a: Answer| (a.question as int, a.class, a.text@)) =~= before.map_values(
                    |a: Answer| (a.question as int, a.class, a.text@),
                ).push((i as int, DNS_CLASS_HS, answers@[before.len() as int].text@)));
            },
            None => {},
        }
        i = i + 1;
    }
    assert(qs.take(i as int) =~= qs);
    let code = if answers.len() == 0 {
        ResponseKind::NXDomain
    } else {
        ResponseKind::NoError
    };
    ResponsePlan { authoritative: true, code, answers }
}

/// Why no response goes back for a datagram.
#[derive(Debug, Clone, Copy, PartialEq, Eq, Structural)]
pub enum QueryError {
    /// The datagram is no well-formed message.
    Malformed,
    /// The response could not be written.
    Unencodable,
}

/// The response datagram to a request datagram: the response that `respond`
/// decides, written with the request's id, op code and questions, its
/// answers HS-class TXT records with the zone's time to live.
///
/// Each answer holds its record text as one character-string. A text longer
/// than the 255 bytes that a character-string can hold is not split or cut:
/// the response then cannot be written, and the datagram gets none
/// (`QueryError::Unencodable`). Every question of a request is looked at;
/// the response is promised in full for up to `MAX_FULL_QUESTIONS` questions,
/// past which a very large response may come back with answers cut short.
pub fn handle_query(data: &[u8], zone: &HesiodZone) -> (r: Result<Vec<u8>, QueryError>)
    requires
        zone.wf(),
    ensures
        r == Err::<Vec<u8>, QueryError>(QueryError::Malformed) <==> wire_message(data@) is None,
        wire_message(data@) matches Some(m) ==> handled(r.ok(), request_of(m), *zone),
        r == Err::<Vec<u8>, QueryError>(QueryError::Unencodable) ==> wire_message(data@) is Some
            && !reply_fits(
            request_of(wire_message(data@)->0),
            response_for(request_of(wire_message(data@)->0), *zone),
        ),
{
    let request = match decode_request(data) {
        Some(d) => d,
        None => return Err(QueryError::Malformed),
    };
    let plan = respond(request.info(), zone);
    match encode_response(&request, &plan, plan.code.code(), zone.ttl) {
        Some(bytes) => Ok(bytes),
        None => Err(QueryError::Unencodable),
    }
}

/// What holds of the datagram sent back, if any, for a well-formed request:
/// one that is sent repeats the request, carries the response's code and
/// flags, and holds the response's answers in order (all of them unless
/// marked truncated); where the response can be written in full, it is sent,
/// and reads back as exactly that response with the zone's time to live;
/// and where nothing is cut for size but an answer text is over 255 bytes,
/// none is sent.
pub open spec fn handled(r: Option<Vec<u8>>, req: RequestView, zone: HesiodZone) -> bool {
    let plan = response_for(req, zone);
    &&& r is Some ==> wire_message(r->0@) is Some && reply_written(
        wire_message(r->0@)->0,
        req,
        plan,
        zone.ttl,
    )
    &&& reply_fits(req, plan) ==> r is Some && wire_message(r->0@) == Some(
        reply_view(req, plan, zone.ttl),
    )
    &&& few_questions(req, plan) && !texts_fit(plan) ==> r is None
}

/// The count after one more datagram: it wraps at the top of its range.
pub open spec fn next_count(c: u64) -> u64 {
    if c == u64::MAX {
        0
    } else {
        (c + 1) as u64
    }
}

/// The count after `n` more datagrams.
pub open spec fn count_after(c: u64, n: nat) -> u64
    decreases n,
{
    if n == 0 {
        c
    } else {
        next_count(count_after(c, (n - 1) as nat))
    }
}

/// The serving state: the zone, read only, and the number of datagrams
/// handled.
pub struct DnsServerState {
    pub zone: HesiodZone,
    pub query_count: u64,
}

impl DnsServerState {
    pub fn new(zone: HesiodZone) -> (r: DnsServerState)
        ensures
            r.zone == zone,
            r.query_count == 0,
    {
        DnsServerState { zone, query_count: 0 }
    }

    /// Handles one datagram and counts it; the response, if one goes back.
    pub fn handle_datagram(&mut self, data: &[u8]) -> (r: Option<Vec<u8>>)
        requires
            old(self).zone.wf(),
        ensures
            final(self).zone == old(self).zone,
            final(self).query_count == next_count(old(self).query_count),
            wire_message(data@) is None ==> r is None,
            wire_message(data@) matches Some(m) ==> handled(r, request_of(m), old(self).zone),
    {
        let response = handle_query(data, &self.zone);
        self.query_count = if self.query_count == u64::MAX {
            0
        } else {
            self.query_count + 1
        };
        match response {
            Ok(bytes) => Some(bytes),
            Err(_) => None,
        }
    }

    /// Handles datagrams one after another, as `handle_datagram` does; the
    /// responses, in order, and the count raised once per datagram.
    pub fn handle_datagrams(&mut self, batch: &Vec<Vec<u8>>) -> (r: Vec<Option<Vec<u8>>>)
        requires
            old(self).zone.wf(),
        ensures
            final(self).zone == old(self).zone,
            final(self).query_count == count_after(old(self).query_count, batch@.len()),
            r@.len() == batch@.len(),
            forall|i: int|
                0 <= i < batch@.len() ==> (wire_message((#[trigger] batch@[i])@) is None ==> r@[i] is None),
            forall|i: int|
                0 <= i < batch@.len() ==> (wire_message((#[trigger] batch@[i])@) matches Some(m) ==> handled(
                    r@[i],
                    request_of(m),
                    old(self).zone,
                )),
    {
        let mut out: Vec<Option<Vec<u8>>> = Vec::new();
        let mut i: usize = 0;
        while i < batch.len()
            invariant
                i <= batch@.len(),
                self.zone == old(self).zone,
                self.zone.wf(),
                self.query_count == count_after(old(self).query_count, i as nat),
                out@.len() == i,
                forall|j: int|
                    0 <= j < i ==> (wire_message((#[trigger] batch@[j])@) is None ==> out@[j] is None),
                forall|j: int|
                    0 <= j < i ==> (wire_message((#[trigger] batch@[j])@) matches Some(m) ==> handled(
                        out@[j],
                        request_of(m),
                        old(self).zone,
                    )),
            decreases batch@.len() - i,
        {
            let reply = self.handle_datagram(batch[i].as_slice());
            out.push(reply);
            i = i + 1;
        }
        out
    }

    /// The number of datagrams handled.
    pub fn query_count(&self) -> (r: u64)
        ensures
            r == self.query_count,
    {
        self.query_count
    }
}

/// From a fresh state, the count after `n` handled datagrams is `n`: with
/// `handle_datagram` raising the count by `next_count` each time, and
/// `handle_datagrams` to `count_after`, a state made by `new` and then given
/// `n` datagrams reports `n`.
pub proof fn lemma_query_count(n: nat)
    requires
        n <= u64::MAX,
    ensures
        count_after(0, n) == n,
    decreases n,
{
    if n > 0 {
        lemma_query_count((n - 1) as nat);
    }
}

/// A standard query with one HS- or IN-class TXT question whose name finds a
/// record gets an authoritative NOERROR response with exactly that record's
/// text as its one answer: owned by the question's name, in the HS class,
/// with the zone's time to live. It can be written in full exactly when the
/// text fits in 255 bytes; a longer text gets no response.
pub proof fn lemma_existing_key_answered(
    id: u16,
    rd: bool,
    cd: bool,
    name: Seq<char>,
    class: u16,
    zone: HesiodZone,
)
    requires
        zone.resolve_spec(name) is Some,
        class == DNS_CLASS_HS || class == DNS_CLASS_IN,
    ensures
        ({
            let req = (id, OP_CODE_QUERY, rd, cd, seq![(name, class, RECORD_TYPE_TXT)]);
            let t = zone.resolve_spec(name)->0;
            let plan = response_for(req, zone);
            &&& plan == (true, ResponseKind::NoError, seq![(0int, DNS_CLASS_HS, t)])
            &&& reply_view(req, plan, zone.ttl) == (
                (id, true, OP_CODE_QUERY, true, false, rd, cd, 0u16),
                req.4,
                seq![(name, DNS_CLASS_HS, RECORD_TYPE_TXT, zone.ttl, seq![t])],
            )
            &&& few_questions(req, plan)
            &&& (reply_fits(req, plan) <==> utf8_len(t) <= 255)
        }),
{
    let qs = seq![(name, class, RECORD_TYPE_TXT)];
    let req = (id, OP_CODE_QUERY, rd, cd, qs);
    let t = zone.resolve_spec(name)->0;
    assert(qs.drop_last() =~= Seq::<WireQuestion>::empty());
    assert(answers_for(qs.drop_last(), zone) == Seq::<(int, u16, Seq<char>)>::empty());
    assert(qs.last() == (name, class, RECORD_TYPE_TXT));
    assert(question_answer(qs.last(), zone) == zone.resolve_spec(name));
    assert(answers_for(qs, zone) =~= seq![(0int, DNS_CLASS_HS, t)]);
    let plan = response_for(req, zone);
    let v = reply_view(req, plan, zone.ttl);
    assert(v.2 =~= seq![(name, DNS_CLASS_HS, RECORD_TYPE_TXT, zone.ttl, seq![t])]);
    assert(plan.2[0].2 == t);
}

/// A standard query none of whose questions finds a record gets NXDOMAIN and
/// no answers.
pub proof fn lemma_missing_key_nxdomain(req: RequestView, zone: HesiodZone)
    requires
        req.1 == OP_CODE_QUERY,
        forall|i: int| 0 <= i < req.4.len() ==> question_answer(#[trigger] req.4[i], zone) is None,
    ensures
        response_for(req, zone) == (true, ResponseKind::NXDomain, Seq::<(int, u16, Seq<char>)>::empty()),
        reply_view(req, response_for(req, zone), zone.ttl).0.7 == 3,
        reply_view(req, response_for(req, zone), zone.ttl).2.len() == 0,
        forall|m: WireView| #[trigger] reply_written(m, req, response_for(req, zone), zone.ttl) ==> m.0.7
            == 3 && m.2.len() == 0,
{
    lemma_no_answers(req.4, zone);
}

proof fn lemma_no_answers(qs: Seq<WireQuestion>, zone: HesiodZone)
    requires
        forall|i: int| 0 <= i < qs.len() ==> question_answer(#[trigger] qs[i], zone) is None,
    ensures
        answers_for(qs, zone) == Seq::<(int, u16, Seq<char>)>::empty(),
    decreases qs.len(),
{
    if qs.len() > 0 {
        let d = qs.drop_last();
        assert forall|i: int| 0 <= i < d.len() implies question_answer(#[trigger] d[i], zone) is None by {
            assert(d[i] == qs[i]);
        }
        lemma_no_answers(d, zone);
        assert(question_answer(qs[qs.len() - 1], zone) is None);
    }
}

/// Any operation but a standard query gets NOTIMP, and no question is
/// looked at.
pub proof fn lemma_other_opcode_notimp(req: RequestView, zone: HesiodZone)
    requires
        req.1 != OP_CODE_QUERY,
    ensures
        response_for(req, zone) == (true, ResponseKind::NotImp, Seq::<(int, u16, Seq<char>)>::empty()),
        reply_view(req, response_for(req, zone), zone.ttl).0.7 == 4,
        reply_view(req, response_for(req, zone), zone.ttl).2.len() == 0,
        forall|m: WireView| #[trigger] reply_written(m, req, response_for(req, zone), zone.ttl) ==> m.0.7
            == 4 && m.0.2 == req.1 && m.1 == req.4 && m.2.len() == 0,
{
}

/// A query id from the sub-second nanoseconds of the clock: their low 16 bits.
pub fn rand_id(nanos: u32) -> (r: u16)
    ensures
        r as nat == nanos as nat % 65536,
{
    (nanos % 65536) as u16
}

} // verus!
