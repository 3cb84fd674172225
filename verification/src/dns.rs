//! Captive portal DNS.
//!
//! All queries are answered with the access point's own address, so that every
//! name leads to the captive portal.

use crate::text::{from_utf8_lossy, push_all, utf8_lossy};
use vstd::prelude::*;
use vstd::slice::slice_subrange;

verus! {

/// The port that queries come to.
pub const DNS_PORT: u16 = 53;

/// Length of the header of a DNS message.
pub const DNS_HEADER_LEN: usize = 12;

/// Longest label of a DNS name.
pub const MAX_LABEL_LEN: u8 = 63;

/// Where the name that starts at a position ends: at its zero byte. None if the
/// message ends before that, or if a label is too long (or compressed).
pub open spec fn name_end(query: Seq<u8>, pos: int) -> Option<int>
    decreases
            (if pos < query.len() {
                query.len() - pos
            } else {
                0
            }),
{
    if pos < 0 || pos >= query.len() {
        None
    } else if query[pos] == 0 {
        Some(pos)
    } else if query[pos] > MAX_LABEL_LEN {
        None
    } else {
        name_end(query, pos + 1 + query[pos])
    }
}

/// Where the first question of a query ends, if it is one that gets an answer:
/// a standard query of the class `IN`.
pub open spec fn question_end(query: Seq<u8>) -> Option<int> {
    if query.len() < 12 || (query[2] / 8) % 16 != 0 || (query[4] == 0 && query[5] == 0) {
        None
    } else {
        match name_end(query, 12) {
            None => None,
            Some(end) => if end + 5 > query.len() || !(query[end + 3] == 0 && query[end + 4] == 1) {
                None
            } else {
                Some(end + 5)
            },
        }
    }
}

/// The answer to a query: its id and question, and one address record that
/// points to the access point for 60 seconds.
pub open spec fn dns_response(query: Seq<u8>, ap_ip: Seq<u8>) -> Option<Seq<u8>> {
    match question_end(query) {
        None => None,
        Some(end) => Some(
            query.take(2) + seq![0x81u8, 0x80, 0, 1, 0, 1, 0, 0, 0, 0] + query.subrange(12, end)
                + seq![0xC0u8, 0x0C, 0, 1, 0, 1, 0, 0, 0, 60, 0, 4] + ap_ip,
        ),
    }
}

/// Where the first question of a query ends, if it is one that gets an answer.
fn find_question_end(query: &[u8]) -> (r: Option<usize>)
    ensures
        match r {
            Some(end) => question_end(query@) == Some(end as int) && 12 <= end <= query@.len(),
            None => question_end(query@) is None,
        },
{
    let total: usize = query.len();
    if total < 12 {
        return None;
    }
    if (query[2] / 8) % 16 != 0 || (query[4] == 0 && query[5] == 0) {
        return None;
    }
    let mut pos: usize = 12;
    while pos < total && query[pos] != 0
        invariant
            12 <= pos,
            total == query@.len(),
            name_end(query@, 12) == name_end(query@, pos as int),
            pos <= total + 63,
        decreases total + 63 - pos,
    {
        if query[pos] > MAX_LABEL_LEN {
            return None;
        }
        if query[pos] as usize >= total - pos {
            // The label runs over the end of the query
            assert(name_end(query@, pos + 1 + query@[pos as int]) is None);
            return None;
        }
        pos = pos + 1 + query[pos] as usize;
    }
    if pos >= total || total - pos < 5 {
        return None;
    }
    if query[pos + 3] == 0 && query[pos + 4] == 1 {
        Some(pos + 5)
    } else {
        None
    }
}

/// Build a DNS response that answers all queries with the AP IP.
pub fn build_dns_response(query: &[u8], ap_ip: [u8; 4]) -> (r: Option<Vec<u8>>)
    ensures
        match r {
            Some(response) => dns_response(query@, ap_ip@) == Some(response@),
            None => dns_response(query@, ap_ip@) is None,
        },
{
    let end: usize = match find_question_end(query) {
        Some(end) => end,
        None => {
            return None;
        },
    };
    let mut response: Vec<u8> = Vec::new();
    push_all(&mut response, slice_subrange(query, 0, 2));
    assert(query@.subrange(0, 2) =~= query@.take(2));
    // Flags: response, recursion desired and available; one question, one answer
    let header: [u8; 10] = [0x81, 0x80, 0, 1, 0, 1, 0, 0, 0, 0];
    assert(header@ =~= seq![0x81u8, 0x80, 0, 1, 0, 1, 0, 0, 0, 0]);
    push_all(&mut response, header.as_slice());
    push_all(&mut response, slice_subrange(query, 12, end));
    // Name pointer to offset 12, type A, class IN, 60 seconds, 4 bytes
    let answer: [u8; 12] = [0xC0, 0x0C, 0, 1, 0, 1, 0, 0, 0, 60, 0, 4];
    assert(answer@ =~= seq![0xC0u8, 0x0C, 0, 1, 0, 1, 0, 0, 0, 60, 0, 4]);
    push_all(&mut response, answer.as_slice());
    push_all(&mut response, ap_ip.as_slice());
    Some(response)
}

/// The name in a query behind what was read of it already: its labels, with dots
/// between them.
pub open spec fn dns_name(data: Seq<u8>, pos: int, name: Seq<char>) -> Option<Seq<char>>
    decreases
            (if pos < data.len() {
                data.len() - pos
            } else {
                0
            }),
{
    if pos < 0 || pos >= data.len() || data[pos] == 0 {
        Some(name)
    } else if data[pos] > MAX_LABEL_LEN || pos + 1 + data[pos] > data.len() {
        None
    } else {
        let label = utf8_lossy(data.subrange(pos + 1, pos + 1 + data[pos]));
        let dotted = if name.len() > 0 {
            name.push('.')
        } else {
            name
        };
        dns_name(data, pos + 1 + data[pos], dotted + label)
    }
}

/// Parse a DNS name from the query for logging purposes.
pub fn parse_dns_name(data: &[u8]) -> (r: Option<String>)
    ensures
        match r {
            Some(name) => dns_name(data@, 0, Seq::empty()) == Some(name@),
            None => dns_name(data@, 0, Seq::empty()) is None,
        },
{
    let mut name: String = "".to_owned();
    proof {
        reveal_strlit("");
        assert(name@ =~= Seq::empty());
    }
    let total: usize = data.len();
    let mut pos: usize = 0;
    while pos < total && data[pos] != 0
        invariant
            pos <= total,
            total == data@.len(),
            dns_name(data@, 0, Seq::empty()) == dns_name(data@, pos as int, name@),
        decreases total - pos,
    {
        let label_len: usize = data[pos] as usize;
        if data[pos] > MAX_LABEL_LEN || label_len >= total - pos {
            return None;
        }
        if !name.as_str().is_empty() {
            name.push('.');
        }
        let label: String = from_utf8_lossy(slice_subrange(data, pos + 1, pos + 1 + label_len));
        name.push_str(label.as_str());
        pos = pos + 1 + label_len;
    }
    Some(name)
}

/// The name that a query asks for, for the log.
pub fn queried_name(query: &[u8]) -> (r: String)
    requires
        query@.len() >= 12,
    ensures
        r@ == match dns_name(query@.skip(12), 0, Seq::empty()) {
            Some(name) => name,
            None => "<invalid>"@,
        },
{
    let data: &[u8] = slice_subrange(query, 12, query.len());
    assert(data@ =~= query@.skip(12));
    match parse_dns_name(data) {
        Some(name) => name,
        None => "<invalid>".to_owned(),
    }
}

/// An answer has the id of its query, repeats the question, and ends with the
/// address of the access point.
pub proof fn law_answer_fits_query(query: Seq<u8>, ap_ip: Seq<u8>)
    requires
        dns_response(query, ap_ip) is Some,
        ap_ip.len() == 4,
    ensures
        ({
            let response = dns_response(query, ap_ip)->0;
            let end = question_end(query)->0;
            &&& response.take(2) == query.take(2)
            &&& response.subrange(12, end) == query.subrange(12, end)
            &&& response.len() == end + 16
            &&& response.skip(end + 12) == ap_ip
        }),
{
    lemma_name_end(query, 12);
    let response = dns_response(query, ap_ip)->0;
    let end = question_end(query)->0;
    assert(response.take(2) =~= query.take(2));
    assert(response.subrange(12, end) =~= query.subrange(12, end));
    assert(response.skip(end + 12) =~= ap_ip);
}

proof fn lemma_name_end(query: Seq<u8>, pos: int)
    requires
        0 <= pos,
    ensures
        name_end(query, pos) is Some ==> pos <= name_end(query, pos)->0 < query.len(),
    decreases
            (if pos < query.len() {
                query.len() - pos
            } else {
                0
            }),
{
    if pos < query.len() && query[pos] != 0 && query[pos] <= MAX_LABEL_LEN {
        lemma_name_end(query, pos + 1 + query[pos]);
    }
}

/// A name is read label by label: each gives its length, of 63 bytes at most, and a
/// zero ends the name. A message that ends before that holds none.
pub proof fn law_names_are_read_by_label(query: Seq<u8>, pos: int)
    requires
        0 <= pos,
    ensures
        pos >= query.len() ==> name_end(query, pos) is None,
        pos < query.len() && query[pos] == 0 ==> name_end(query, pos) == Some(pos),
        pos < query.len() && 1 <= query[pos] <= 63 ==> name_end(query, pos) == name_end(
            query,
            pos + 1 + query[pos],
        ),
        pos < query.len() && query[pos] >= 64 ==> name_end(query, pos) is None,
        name_end(query, pos) matches Some(end) ==> pos <= end < query.len() && query[end] == 0,
    decreases
            (if pos < query.len() {
                query.len() - pos
            } else {
                0
            }),
{
    if pos < query.len() && 1 <= query[pos] <= 63 {
        law_names_are_read_by_label(query, pos + 1 + query[pos]);
    }
}

/// What is answered is a standard query, as the bits of its operation say, with a
/// question for a whole name in the class `IN`; any other message is not.
pub proof fn law_standard_queries_are_answered(query: Seq<u8>, ap_ip: Seq<u8>)
    requires
        query.len() >= 12,
    ensures
        dns_response(query, ap_ip) is Some <==> {
            &&& query[2] & 0x78 == 0
            &&& query[4] != 0 || query[5] != 0
            &&& name_end(query, 12) is Some
            &&& name_end(query, 12)->0 + 5 <= query.len()
            &&& query[name_end(query, 12)->0 + 3] == 0
            &&& query[name_end(query, 12)->0 + 4] == 1
        },
{
    let flags = query[2];
    assert((flags / 8) % 16 == 0 <==> flags & 0x78 == 0) by (bit_vector);
}

/// A message shorter than a header gets no answer.
pub proof fn law_short_messages_get_no_answer(query: Seq<u8>, ap_ip: Seq<u8>)
    requires
        query.len() < 12,
    ensures
        dns_response(query, ap_ip) is None,
{
}

/// An answer says that it is one, without an error, and holds one question and one
/// record: an address of the class `IN`, for the name in the question, for a minute.
pub proof fn law_answers_hold_one_address(query: Seq<u8>, ap_ip: Seq<u8>)
    requires
        dns_response(query, ap_ip) is Some,
        ap_ip.len() == 4,
    ensures
        ({
            let response = dns_response(query, ap_ip)->0;
            let record = response.skip(response.len() - 16);
            &&& response[2] & 0x80 == 0x80
            &&& response[3] & 0x0F == 0
            &&& response[4] == 0 && response[5] == 1
            &&& response[6] == 0 && response[7] == 1
            &&& response.subrange(8, 12) =~= seq![0u8, 0, 0, 0]
            &&& record[0] == 0xC0 && record[1] == 12
            &&& record.subrange(2, 6) =~= seq![0u8, 1, 0, 1]
            &&& record.subrange(6, 10) =~= seq![0u8, 0, 0, 60]
            &&& record.subrange(10, 12) =~= seq![0u8, 4]
            &&& record.skip(12) =~= ap_ip
        }),
{
    lemma_name_end(query, 12);
    let response = dns_response(query, ap_ip)->0;
    let end = question_end(query)->0;
    assert(response[2] == 0x81 && response[3] == 0x80);
    assert(0x81u8 & 0x80 == 0x80) by (bit_vector);
    assert(0x80u8 & 0x0F == 0) by (bit_vector);
    let record = response.skip(response.len() - 16);
    assert(record =~= seq![0xC0u8, 0x0C, 0, 1, 0, 1, 0, 0, 0, 60, 0, 4] + ap_ip);
}

/// A name is told by its labels, in order, with a dot in front of each but the first.
pub proof fn law_names_are_told_with_dots(data: Seq<u8>, pos: int, name: Seq<char>)
    requires
        0 <= pos < data.len(),
    ensures
        data[pos] == 0 ==> dns_name(data, pos, name) == Some(name),
        1 <= data[pos] <= 63 && pos + 1 + data[pos] <= data.len() ==> {
            let label = utf8_lossy(data.subrange(pos + 1, pos + 1 + data[pos]));
            &&& name.len() == 0 ==> dns_name(data, pos, name) == dns_name(
                data,
                pos + 1 + data[pos],
                label,
            )
            &&& name.len() > 0 ==> dns_name(data, pos, name) == dns_name(
                data,
                pos + 1 + data[pos],
                name + seq!['.'] + label,
            )
        },
        data[pos] >= 64 ==> dns_name(data, pos, name) is None,
        pos + 1 + data[pos] > data.len() ==> data[pos] == 0 || dns_name(data, pos, name) is None,
{
    if 1 <= data[pos] <= 63 && pos + 1 + data[pos] <= data.len() {
        let label = utf8_lossy(data.subrange(pos + 1, pos + 1 + data[pos]));
        assert(name.push('.') + label =~= name + seq!['.'] + label);
        if name.len() == 0 {
            assert(name + label =~= label);
        }
    }
}

} // verus!
