//! DNS forwarder: answers the guest's address queries through the host's own
//! resolver. Answers hold a single record and stay far under 512 bytes, so
//! the guest never falls back to DNS over TCP.
use vstd::prelude::*;
use crate::bytes::{be, be_value, copy_range, push_all, push_be, read_be, same_bytes};
use crate::text::{ascii_bytes, ascii_of, is_utf8};

verus! {

pub const PORT: u16 = 53;

/// Lookups in flight before the forwarder answers with a server failure; the
/// guest's resolver retries.
pub const MAX_OUTSTANDING: usize = 8;

pub const TTL_SECS: u32 = 60;

pub const QTYPE_A: u16 = 1;

pub const QTYPE_PTR: u16 = 12;

pub const QTYPE_AAAA: u16 = 28;

pub const RCODE_OK: u8 = 0;

pub const RCODE_SERVFAIL: u8 = 2;

pub const RCODE_NXDOMAIN: u8 = 3;

/// Bytes a question section may have.
pub const MAX_QUESTION: usize = 259;

/// Bytes a record's data may have, of the records the forwarder sends.
pub const MAX_RDATA: usize = 16;

/// Bytes no answer exceeds.
pub const MAX_ANSWER: usize = 512;

/// Bytes a name may have, its dots included.
pub const MAX_NAME: usize = 253;

/// A name with one more label.
pub open spec fn joined(name: Seq<u8>, label: Seq<u8>) -> Seq<u8> {
    if name.len() == 0 {
        label
    } else {
        name.push(0x2e) + label
    }
}

/// The rest of a name from `at` on, behind what was read of it: the whole
/// name and where it ends. Compressed names are refused.
pub open spec fn name_at(p: Seq<u8>, at: int, name: Seq<u8>) -> Option<(Seq<u8>, int)>
    decreases p.len() - at,
{
    if at < 0 || at >= p.len() {
        None
    } else if p[at] == 0 {
        Some((name, at + 1))
    } else if p[at] >= 0x40 || at + 1 + p[at] > p.len() {
        None
    } else {
        let label = p.subrange(at + 1, at + 1 + p[at]);
        let longer = joined(name, label);
        if !vstd::utf8::valid_utf8(label) || longer.len() > MAX_NAME {
            None
        } else {
            name_at(p, at + 1 + p[at], longer)
        }
    }
}

proof fn lemma_name_is_short(p: Seq<u8>, at: int, name: Seq<u8>)
    requires
        name.len() <= MAX_NAME,
    ensures
        name_at(p, at, name) matches Some(found) ==> {
            &&& found.0.len() <= MAX_NAME
            &&& at < found.1
            &&& found.1 - at <= found.0.len() - name.len() + (if name.len() == 0 {
                2int
            } else {
                1
            })
        },
    decreases p.len() - at,
{
    if 0 <= at < p.len() && 0 < p[at] < 0x40 && at + 1 + p[at] <= p.len() {
        let label = p.subrange(at + 1, at + 1 + p[at]);
        let longer = joined(name, label);
        if vstd::utf8::valid_utf8(label) && longer.len() <= MAX_NAME {
            lemma_name_is_short(p, at + 1 + p[at], longer);
        }
    }
}

/// A guest's query: its number, the raw question section, which is echoed
/// into the answer, and the name and type asked for.
pub struct Query {
    pub id: u16,
    pub question: Vec<u8>,
    pub name: Vec<u8>,
    pub qtype: u16,
}

/// What a query says.
pub struct QueryView {
    pub id: nat,
    pub question: Seq<u8>,
    pub name: Seq<u8>,
    pub qtype: nat,
}

impl View for Query {
    type V = QueryView;

    open spec fn view(&self) -> QueryView {
        QueryView {
            id: self.id as nat,
            question: self.question@,
            name: self.name@,
            qtype: self.qtype as nat,
        }
    }
}

/// The query in a datagram; none where it is an answer, asks nothing, or
/// cannot be read.
pub open spec fn query_of(p: Seq<u8>) -> Option<QueryView> {
    if p.len() < 12 || p[2] >= 0x80 || be_value(p.subrange(4, 6)) == 0 {
        None
    } else {
        match name_at(p, 12, Seq::empty()) {
            Some((name, end)) => if end + 4 > p.len() {
                None
            } else {
                Some(
                    QueryView {
                        id: be_value(p.subrange(0, 2)),
                        question: p.subrange(12, end + 4),
                        name,
                        qtype: be_value(p.subrange(end, end + 2)),
                    },
                )
            },
            None => None,
        }
    }
}

/// One record under the query's name.
pub open spec fn record(rrtype: u16, rdata: Seq<u8>) -> Seq<u8> {
    seq![0xC0u8, 0x0C] + be(rrtype as nat, 2) + be(1, 2) + be(TTL_SECS as nat, 4) + be(
        rdata.len(),
        2,
    ) + rdata
}

/// The answer to a query: a response to a recursive query, with this code
/// and these records.
pub open spec fn response_to(
    q: QueryView,
    answer: Option<(u16, Seq<u8>)>,
    rcode: u8,
) -> Seq<u8> {
    be(q.id, 2) + seq![0x81u8, (0x80 + rcode) as u8] + be(1, 2) + be(
        if answer is Some {
            1
        } else {
            0
        },
        2,
    ) + be(0, 2) + be(0, 2) + q.question + (match answer {
        Some((rrtype, rdata)) => record(rrtype, rdata),
        None => Seq::empty(),
    })
}

/// Answers stay far under 512 bytes: the question of any readable query is
/// short, and so is the one record.
pub proof fn law_answers_are_short(p: Seq<u8>, answer: Option<(u16, Seq<u8>)>, rcode: u8)
    requires
        query_of(p) is Some,
        answer matches Some(a) ==> a.1.len() <= MAX_RDATA,
    ensures
        query_of(p)->0.question.len() <= MAX_QUESTION,
        response_to(query_of(p)->0, answer, rcode).len() < 300,
{
    lemma_name_is_short(p, 12, Seq::empty());
    lemma_short_question(query_of(p)->0, answer, rcode);
}

proof fn lemma_short_question(q: QueryView, answer: Option<(u16, Seq<u8>)>, rcode: u8)
    requires
        q.question.len() <= MAX_QUESTION,
        answer matches Some(a) ==> a.1.len() <= MAX_RDATA,
    ensures
        response_to(q, answer, rcode).len() < 300,
{
    crate::bytes::lemma_be_len(q.id, 2);
    crate::bytes::lemma_be_len(1, 2);
    crate::bytes::lemma_be_len(0, 2);
    crate::bytes::lemma_be_len(TTL_SECS as nat, 4);
    if let Some(a) = answer {
        crate::bytes::lemma_be_len(a.0 as nat, 2);
        crate::bytes::lemma_be_len(a.1.len(), 2);
    }
}

impl Query {
    pub fn parse(p: &[u8]) -> (r: Option<Query>)
        ensures
            match r {
                Some(q) => query_of(p@) == Some(q@),
                None => query_of(p@) is None,
            },
    {
        let n: usize = p.len();
        if n < 12 {
            return None;
        }
        let id: u64 = read_be(p, 0, 2);
        if p[2] >= 0x80 {
            return None;
        }
        if read_be(p, 4, 2) == 0 {
            return None;
        }
        let mut name: Vec<u8> = Vec::new();
        let mut at: usize = 12;
        assert(name@ =~= Seq::empty());
        while at < n && p[at] != 0
            invariant
                12 <= at,
                n == p@.len(),
                name@.len() <= MAX_NAME,
                name_at(p@, at as int, name@) == name_at(p@, 12, Seq::empty()),
            decreases n - at,
        {
            let len: usize = p[at] as usize;
            if len >= 0x40 || n - at < 1 + len {
                return None;
            }
            let label = copy_range(p, at + 1, at + 1 + len);
            let ghost before = name@;
            if !is_utf8(label.as_slice()) {
                return None;
            }
            if name.len() > 0 {
                name.push(0x2e);
            }
            push_all(&mut name, label.as_slice());
            assert(name@ =~= joined(before, label@));
            if name.len() > MAX_NAME {
                return None;
            }
            at += 1 + len;
        }
        if at >= n {
            return None;
        }
        at += 1;
        if n - at < 4 {
            return None;
        }
        let qtype: u64 = read_be(p, at, 2);
        proof {
            crate::bytes::lemma_byte_range();
            crate::bytes::lemma_be_writes_back(p@.subrange(0, 2));
            crate::bytes::lemma_be_writes_back(p@.subrange(at as int, at + 2));
        }
        Some(
            Query { id: id as u16, question: copy_range(p, 12, at + 4), name, qtype: qtype as u16 },
        )
    }

    /// The full response message for this query; `answer` is one record's
    /// type and data.
    pub fn response(&self, answer: Option<(u16, Vec<u8>)>, rcode: u8) -> (r: Vec<u8>)
        requires
            rcode < 16,
        ensures
            r@ == response_to(
                self@,
                match answer {
                    Some((rrtype, rdata)) => Some((rrtype, rdata@)),
                    None => None,
                },
                rcode,
            ),
    {
        let mut r: Vec<u8> = Vec::new();
        push_be(&mut r, self.id as u64, 2);
        r.push(0x81);
        r.push(0x80 + rcode);
        push_be(&mut r, 1, 2);
        push_be(
            &mut r,
            if answer.is_some() {
                1
            } else {
                0
            },
            2,
        );
        push_be(&mut r, 0, 2);
        push_be(&mut r, 0, 2);
        push_all(&mut r, self.question.as_slice());
        let ghost head = r@;
        if let Some((rrtype, rdata)) = &answer {
            r.push(0xC0);
            r.push(0x0C);
            push_be(&mut r, *rrtype as u64, 2);
            push_be(&mut r, 1, 2);
            push_be(&mut r, TTL_SECS as u64, 4);
            push_be(&mut r, rdata.len() as u64, 2);
            push_all(&mut r, rdata.as_slice());
            assert(r@ =~= head + record(*rrtype, rdata@));
        }
        assert(r@ =~= response_to(
            self@,
            match answer {
                Some((rrtype, rdata)) => Some((rrtype, rdata@)),
                None => None,
            },
            rcode,
        ));
        r
    }
}

/// Where the first dot of a name is; its length where there is none.
pub open spec fn first_dot(name: Seq<u8>) -> int
    decreases name.len(),
{
    if name.len() == 0 || name[0] == 0x2e {
        0
    } else {
        1 + first_dot(name.skip(1))
    }
}

proof fn lemma_first_dot(name: Seq<u8>)
    ensures
        0 <= first_dot(name) <= name.len(),
        forall|i: int| 0 <= i < first_dot(name) ==> name[i] != 0x2e,
        first_dot(name) < name.len() ==> name[first_dot(name)] == 0x2e,
    decreases name.len(),
{
    if name.len() > 0 && name[0] != 0x2e {
        lemma_first_dot(name.skip(1));
        assert forall|i: int| 0 <= i < first_dot(name) implies name[i] != 0x2e by {
            if i > 0 {
                assert(name.skip(1)[i - 1] == name[i]);
            }
        }
    }
}

/// The wire form of a dotted name: each label behind its length, and a zero.
pub open spec fn encoded_name(name: Seq<u8>) -> Seq<u8>
    decreases name.len(),
{
    let k = first_dot(name);
    if !(0 <= k < name.len()) {
        seq![(name.len() % 256) as u8] + name + seq![0u8]
    } else {
        seq![(k % 256) as u8] + name.take(k) + encoded_name(name.skip(k + 1))
    }
}

fn find_dot(name: &[u8], from: usize) -> (r: usize)
    requires
        from <= name@.len(),
    ensures
        from <= r <= name@.len(),
        r - from == first_dot(name@.skip(from as int)),
    decreases name@.len() - from,
{
    let ghost rest = name@.skip(from as int);
    if from == name.len() || name[from] == 0x2e {
        return from;
    }
    assert(rest[0] == name@[from as int]);
    assert(rest.skip(1) =~= name@.skip(from + 1));
    find_dot(name, from + 1)
}

/// The wire form of a dotted name.
pub fn encode_name(name: &[u8]) -> (r: Vec<u8>)
    ensures
        r@ == encoded_name(name@),
{
    let mut out: Vec<u8> = Vec::new();
    let n: usize = name.len();
    let mut at: usize = 0;
    assert(name@.skip(0) =~= name@);
    assert(out@ + encoded_name(name@.skip(0)) =~= encoded_name(name@));
    loop
        invariant
            at <= n == name@.len(),
            out@ + encoded_name(name@.skip(at as int)) == encoded_name(name@),
        decreases n - at,
    {
        let ghost rest = name@.skip(at as int);
        let ghost before = out@;
        proof {
            lemma_first_dot(rest);
        }
        let dot: usize = find_dot(name, at);
        let len: usize = dot - at;
        out.push((len % 256) as u8);
        let label = copy_range(name, at, dot);
        push_all(&mut out, label.as_slice());
        assert(label@ =~= rest.take(len as int));
        if dot == n {
            out.push(0);
            assert(rest.take(len as int) =~= rest);
            assert(out@ =~= before + encoded_name(rest));
            return out;
        }
        at = dot + 1;
        assert(rest.skip(len + 1) =~= name@.skip(at as int));
        assert(out@ + encoded_name(name@.skip(at as int)) =~= before + encoded_name(rest));
    }
}

/// A byte in lower case.
pub open spec fn lower_byte(b: u8) -> u8 {
    if 0x41 <= b <= 0x5a {
        (b + 32) as u8
    } else {
        b
    }
}

/// Bytes in lower case.
pub open spec fn lower_bytes(s: Seq<u8>) -> Seq<u8> {
    s.map_values(|b: u8| lower_byte(b))
}

fn to_lower_bytes(s: &[u8]) -> (r: Vec<u8>)
    ensures
        r@ == lower_bytes(s@),
{
    let mut r: Vec<u8> = Vec::new();
    let mut i: usize = 0;
    while i < s.len()
        invariant
            i <= s@.len(),
            r@ =~= lower_bytes(s@.take(i as int)),
        decreases s@.len() - i,
    {
        let b: u8 = s[i];
        r.push(
            if 0x41 <= b && b <= 0x5a {
                b + 32
            } else {
                b
            },
        );
        i += 1;
    }
    assert(s@.take(i as int) =~= s@);
    r
}

/// The host behind one of the segment's own addresses, by its reverse name.
/// Old resolvers take a server error as the end of the server, so every
/// reverse query gets a well-formed answer: a name for these addresses, and
/// no such domain for everything else.
pub open spec fn reverse_name(name: Seq<u8>) -> Option<Seq<u8>> {
    let asked = lower_bytes(name);
    if asked == ascii_bytes("15.2.0.10.in-addr.arpa"@) {
        Some(ascii_bytes("amiga.local"@))
    } else if asked == ascii_bytes("2.2.0.10.in-addr.arpa"@) {
        Some(ascii_bytes("gateway.local"@))
    } else if asked == ascii_bytes("3.2.0.10.in-addr.arpa"@) {
        Some(ascii_bytes("dns.local"@))
    } else {
        None
    }
}

fn reverse(name: &[u8]) -> (r: Option<Vec<u8>>)
    ensures
        match r {
            Some(host) => reverse_name(name@) == Some(host@),
            None => reverse_name(name@) is None,
        },
{
    let asked = to_lower_bytes(name);
    proof {
        reveal_strlit("15.2.0.10.in-addr.arpa");
        reveal_strlit("2.2.0.10.in-addr.arpa");
        reveal_strlit("3.2.0.10.in-addr.arpa");
        reveal_strlit("amiga.local");
        reveal_strlit("gateway.local");
        reveal_strlit("dns.local");
    }
    if same_bytes(asked.as_slice(), ascii_of("15.2.0.10.in-addr.arpa").as_slice()) {
        return Some(ascii_of("amiga.local"));
    }
    if same_bytes(asked.as_slice(), ascii_of("2.2.0.10.in-addr.arpa").as_slice()) {
        return Some(ascii_of("gateway.local"));
    }
    if same_bytes(asked.as_slice(), ascii_of("3.2.0.10.in-addr.arpa").as_slice()) {
        return Some(ascii_of("dns.local"));
    }
    None
}

proof fn lemma_short_hosts(name: Seq<u8>)
    ensures
        reverse_name(name) matches Some(host) ==> encoded_name(host).len() <= MAX_RDATA,
{
    reveal_strlit("amiga.local");
    reveal_strlit("gateway.local");
    reveal_strlit("dns.local");
    if let Some(host) = reverse_name(name) {
        lemma_encoded_len(host);
    }
}

proof fn lemma_encoded_len(name: Seq<u8>)
    ensures
        encoded_name(name).len() == name.len() + 2,
    decreases name.len(),
{
    lemma_first_dot(name);
    let k = first_dot(name);
    if k < name.len() {
        lemma_encoded_len(name.skip(k + 1));
    }
}

/// A letter, a digit or a mark that host names have.
pub open spec fn host_byte(b: u8) -> bool {
    ||| 0x30 <= b <= 0x39
    ||| 0x41 <= b <= 0x5a
    ||| 0x61 <= b <= 0x7a
    ||| b == 0x2d
    ||| b == 0x2e
    ||| b == 0x5f
}

/// A name shaped like a host's: only these reach the host's resolver.
pub open spec fn host_shaped(name: Seq<u8>) -> bool {
    name.len() > 0 && forall|i: int| 0 <= i < name.len() ==> host_byte(#[trigger] name[i])
}

pub fn is_host_name(name: &[u8]) -> (r: bool)
    ensures
        r == host_shaped(name@),
{
    if name.len() == 0 {
        return false;
    }
    let mut i: usize = 0;
    while i < name.len()
        invariant
            i <= name@.len(),
            forall|j: int| 0 <= j < i ==> host_byte(#[trigger] name@[j]),
        decreases name@.len() - i,
    {
        let b: u8 = name[i];
        if !((0x30 <= b && b <= 0x39) || (0x41 <= b && b <= 0x5a) || (0x61 <= b && b <= 0x7a) || b
            == 0x2d || b == 0x2e || b == 0x5f) {
            assert(!host_byte(name@[i as int]));
            return false;
        }
        i += 1;
    }
    true
}

/// A lookup for the host's resolver, and whom its answer is for.
pub struct Lookup {
    pub guest_port: u16,
    pub query: Query,
}

/// The forwarder: lookups under way, and answers for the guest.
pub struct DnsResolver {
    pub outstanding: usize,
    pub results: Vec<(u16, Vec<u8>)>,
}

impl Lookup {
    pub open spec fn wf(self) -> bool {
        self.query@.question.len() <= MAX_QUESTION
    }
}

/// The answer a query gets without asking anybody; none where it must be
/// looked up.
pub open spec fn own_answer(q: QueryView, outstanding: nat) -> Option<Seq<u8>> {
    if q.qtype == QTYPE_A {
        if outstanding >= MAX_OUTSTANDING {
            Some(response_to(q, None, RCODE_SERVFAIL))
        } else {
            None
        }
    } else if q.qtype == QTYPE_PTR {
        match reverse_name(q.name) {
            Some(host) => Some(response_to(q, Some((QTYPE_PTR, encoded_name(host))), RCODE_OK)),
            None => Some(response_to(q, None, RCODE_NXDOMAIN)),
        }
    } else {
        Some(response_to(q, None, RCODE_OK))
    }
}

impl DnsResolver {
    /// Lookups are limited, and answers are short.
    pub open spec fn wf(self) -> bool {
        &&& self.outstanding <= MAX_OUTSTANDING
        &&& forall|i: int|
            0 <= i < self.results@.len() ==> (#[trigger] self.results@[i]).1@.len() < MAX_ANSWER
    }

    /// One more answer for the guest.
    pub open spec fn answered(self, before: Self, guest_port: u16, answer: Seq<u8>) -> bool {
        &&& self.results@.len() == before.results@.len() + 1
        &&& self.results@.drop_last() == before.results@
        &&& self.results@.last().0 == guest_port
        &&& self.results@.last().1@ == answer
    }

    pub fn new() -> (r: DnsResolver)
        ensures
            r.wf(),
            r.outstanding == 0,
            r.results@.len() == 0,
    {
        DnsResolver { outstanding: 0, results: Vec::new() }
    }

    fn reply(&mut self, guest_port: u16, answer: Vec<u8>)
        requires
            old(self).wf(),
            answer@.len() < MAX_ANSWER,
        ensures
            final(self).wf(),
            final(self).answered(*old(self), guest_port, answer@),
            final(self).outstanding == old(self).outstanding,
    {
        let ghost before = self.results@;
        self.results.push((guest_port, answer));
        assert(self.results@.drop_last() =~= before);
    }

    /// Take one query datagram from the guest. Unreadable ones are dropped
    /// silently, as by a dead server. Returns the lookup to make, if one is
    /// needed.
    pub fn handle_query(&mut self, guest_port: u16, payload: &[u8]) -> (r: Option<Lookup>)
        requires
            old(self).wf(),
        ensures
            final(self).wf(),
            r matches Some(lookup) ==> lookup.wf(),
            match query_of(payload@) {
                None => r is None && *final(self) == *old(self),
                Some(q) => match own_answer(q, old(self).outstanding as nat) {
                    Some(answer) => {
                        &&& r is None
                        &&& final(self).outstanding == old(self).outstanding
                        &&& final(self).answered(*old(self), guest_port, answer)
                    },
                    None => {
                        &&& r matches Some(lookup) && lookup.guest_port == guest_port
                            && lookup.query@ == q
                        &&& final(self).outstanding == old(self).outstanding + 1
                        &&& final(self).results == old(self).results
                    },
                },
            },
    {
        let q = match Query::parse(payload) {
            Some(q) => q,
            None => {
                return None;
            },
        };
        proof {
            law_answers_are_short(payload@, None, RCODE_OK);
            lemma_short_question(q@, None, RCODE_SERVFAIL);
            lemma_short_question(q@, None, RCODE_NXDOMAIN);
        }
        if q.qtype == QTYPE_A {
            if self.outstanding >= MAX_OUTSTANDING {
                let answer = q.response(None, RCODE_SERVFAIL);
                self.reply(guest_port, answer);
                return None;
            }
            self.outstanding = self.outstanding + 1;
            return Some(Lookup { guest_port, query: q });
        }
        if q.qtype == QTYPE_PTR {
            let answer = match reverse(q.name.as_slice()) {
                Some(host) => {
                    proof {
                        lemma_short_hosts(q.name@);
                        lemma_short_question(
                            q@,
                            Some((QTYPE_PTR, encoded_name(host@))),
                            RCODE_OK,
                        );
                    }
                    q.response(Some((QTYPE_PTR, encode_name(host.as_slice()))), RCODE_OK)
                },
                None => q.response(None, RCODE_NXDOMAIN),
            };
            self.reply(guest_port, answer);
            return None;
        }
        let answer = q.response(None, RCODE_OK);
        self.reply(guest_port, answer);
        None
    }

    /// A lookup has come back with an address, or found none.
    pub fn resolved(&mut self, lookup: &Lookup, address: Option<[u8; 4]>)
        requires
            old(self).wf(),
            lookup.wf(),
            old(self).outstanding > 0,
        ensures
            final(self).wf(),
            final(self).outstanding == old(self).outstanding - 1,
            final(self).answered(
                *old(self),
                lookup.guest_port,
                match address {
                    Some(a) => response_to(lookup.query@, Some((1u16, a@)), 0u8),
                    None => response_to(lookup.query@, None, 3u8),
                },
            ),
    {
        self.outstanding = self.outstanding - 1;
        proof {
            lemma_short_question(lookup.query@, None, RCODE_NXDOMAIN);
            if let Some(a) = address {
                lemma_short_question(lookup.query@, Some((QTYPE_A, a@)), RCODE_OK);
            }
        }
        let answer = match address {
            Some(a) => {
                let octets = copy_range(a.as_slice(), 0, 4);
                assert(octets@ =~= a@);
                lookup.query.response(Some((QTYPE_A, octets)), RCODE_OK)
            },
            None => lookup.query.response(None, RCODE_NXDOMAIN),
        };
        self.reply(lookup.guest_port, answer);
    }

    /// A lookup could not be started: a quick failure beats a timeout.
    pub fn abandoned(&mut self, lookup: &Lookup)
        requires
            old(self).wf(),
            lookup.wf(),
            old(self).outstanding > 0,
        ensures
            final(self).wf(),
            final(self).outstanding == old(self).outstanding - 1,
            final(self).answered(
                *old(self),
                lookup.guest_port,
                response_to(lookup.query@, None, 2u8),
            ),
    {
        self.outstanding = self.outstanding - 1;
        proof {
            lemma_short_question(lookup.query@, None, RCODE_SERVFAIL);
        }
        let answer = lookup.query.response(None, RCODE_SERVFAIL);
        self.reply(lookup.guest_port, answer);
    }

    /// The answers that are ready, oldest first: whom each is for, and the
    /// message.
    pub fn poll_results(&mut self) -> (r: Vec<(u16, Vec<u8>)>)
        requires
            old(self).wf(),
        ensures
            final(self).wf(),
            forall|i: int| 0 <= i < r@.len() ==> (#[trigger] r@[i]).1@.len() < MAX_ANSWER,
            r@ == old(self).results@,
            final(self).results@.len() == 0,
            final(self).outstanding == old(self).outstanding,
    {
        let mut out: Vec<(u16, Vec<u8>)> = Vec::new();
        std::mem::swap(&mut out, &mut self.results);
        out
    }
}

/// Every answer echoes the query's number and its question.
pub proof fn law_answers_echo_the_question(
    q: QueryView,
    answer: Option<(u16, Seq<u8>)>,
    rcode: u8,
)
    requires
        q.id < 0x10000,
        rcode < 16,
    ensures
        response_to(q, answer, rcode).len() >= 12 + q.question.len(),
        be_value(response_to(q, answer, rcode).subrange(0, 2)) == q.id,
        response_to(q, answer, rcode).subrange(12, 12 + q.question.len() as int) == q.question,
        response_to(q, answer, rcode)[3] % 16 == rcode,
        response_to(q, answer, rcode)[2] >= 0x80,
{
    crate::bytes::lemma_byte_range();
    crate::bytes::lemma_be_reads_back(q.id, 2);
    crate::bytes::lemma_be_len(1, 2);
    crate::bytes::lemma_be_len(0, 2);
    let r = response_to(q, answer, rcode);
    assert(r.subrange(0, 2) =~= be(q.id, 2));
    assert(r[3] == (0x80 + rcode) as u8);
    assert(r.subrange(12, 12 + q.question.len() as int) =~= q.question);
}

/// No query about a reverse name, and none of an unknown type, is ever
/// answered with a server failure.
pub proof fn law_only_lookups_fail(q: QueryView, outstanding: nat)
    requires
        q.id < 0x10000,
        q.qtype != QTYPE_A,
    ensures
        own_answer(q, outstanding) matches Some(answer) && answer[3] % 16 != RCODE_SERVFAIL,
{
    law_answers_echo_the_question(q, None, RCODE_OK);
    law_answers_echo_the_question(q, None, RCODE_NXDOMAIN);
    match reverse_name(q.name) {
        Some(host) => law_answers_echo_the_question(
            q,
            Some((QTYPE_PTR, encoded_name(host))),
            RCODE_OK,
        ),
        None => {},
    }
}


/// An answer with a record reads as it was meant: the query's number, a
/// response flag and code, one question and one answer and nothing else, the
/// question, and behind it the record: a pointer to the name asked for, its
/// type, the internet class, a lifetime of a minute, the length of its data,
/// and exactly that data to the end of the message.
pub proof fn law_records_read_as_they_were_meant(
    q: QueryView,
    rrtype: u16,
    rdata: Seq<u8>,
    rcode: u8,
)
    requires
        q.id < 0x1_0000,
        rcode < 16,
        rdata.len() < 0x1_0000,
    ensures
        ({
            let m = response_to(q, Some((rrtype, rdata)), rcode);
            let at = 12 + q.question.len() as int;
            &&& m.len() == at + 12 + rdata.len()
            &&& m[0] * 256 + m[1] == q.id
            &&& m[2] == 0x81 && m[3] == 0x80 + rcode
            &&& m.subrange(4, 12) == seq![0u8, 1, 0, 1, 0, 0, 0, 0]
            &&& m.subrange(12, at) == q.question
            &&& m[at] == 0xC0 && m[at + 1] == 0x0C
            &&& m[at + 2] * 256 + m[at + 3] == rrtype
            &&& be_value(m.subrange(at + 2, at + 4)) == rrtype
            &&& m[at + 4] == 0 && m[at + 5] == 1
            &&& m.subrange(at + 6, at + 10) == seq![0u8, 0, 0, 60]
            &&& m[at + 10] * 256 + m[at + 11] == rdata.len()
            &&& be_value(m.subrange(at + 10, at + 12)) == rdata.len()
            &&& m.subrange(at + 12, m.len() as int) == rdata
        }),
{
    let m = response_to(q, Some((rrtype, rdata)), rcode);
    let at = 12 + q.question.len() as int;
    crate::bytes::law_two_bytes(seq![0u8, 0], q.id);
    crate::bytes::law_two_bytes(seq![0u8, 0], 1);
    crate::bytes::law_two_bytes(seq![0u8, 0], 0);
    crate::bytes::law_two_bytes(seq![0u8, 0], rrtype as nat);
    crate::bytes::law_two_bytes(seq![0u8, 0], rdata.len());
    crate::bytes::law_four_bytes(seq![0u8, 0, 0, 0], 60);
    assert(m =~= be(q.id, 2) + seq![0x81u8, (0x80 + rcode) as u8] + be(1, 2) + be(1, 2) + be(0, 2)
        + be(0, 2) + q.question + record(rrtype, rdata));
    assert(m.subrange(at + 2, at + 4) =~= be(rrtype as nat, 2));
    assert(m.subrange(at + 10, at + 12) =~= be(rdata.len(), 2));
    crate::bytes::law_two_bytes(m.subrange(at + 2, at + 4), 0);
    crate::bytes::law_two_bytes(m.subrange(at + 10, at + 12), 0);
    assert(m.subrange(4, 12) =~= seq![0u8, 1, 0, 1, 0, 0, 0, 0]);
    assert(m.subrange(12, at) =~= q.question);
    assert(be(60, 4) =~= seq![0u8, 0, 0, 60]);
    assert(m.subrange(at + 6, at + 10) =~= seq![0u8, 0, 0, 60]);
    assert(m.subrange(at + 12, m.len() as int) =~= rdata);
}

} // verus!
