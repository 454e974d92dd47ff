//! Names and packets of the domain name system, as far as finding the zone of
//! a name needs them.
use vstd::prelude::*;

use crate::{convert, search, text};
use crate::clock::unix_timestamp;
use crate::search::{join, split, split_tidy};
use crate::text::{
    chars_of, concat2, ends_with, eq_ignore_ascii_case, string_of_range, trim, trim_end_matches,
};

verus! {

/// What is wrong with a name or a packet.
#[derive(Debug, Clone, Copy, PartialEq, Eq, Structural)]
pub enum DnsError {
    InvalidDomain,
    InvalidDomainLabel,
    ShortResponse,
    ShortQuestion,
    ShortAnswer,
    ShortData,
    ShortName,
    ShortPointer,
    InvalidLabel,
}

/// The text of an error.
pub open spec fn dns_error_text(e: DnsError) -> Seq<char> {
    match e {
        DnsError::InvalidDomain => "invalid domain"@,
        DnsError::InvalidDomainLabel => "invalid domain label"@,
        DnsError::ShortResponse => "short DNS response"@,
        DnsError::ShortQuestion => "short DNS question"@,
        DnsError::ShortAnswer => "short DNS answer"@,
        DnsError::ShortData => "short DNS rdata"@,
        DnsError::ShortName => "short DNS name"@,
        DnsError::ShortPointer => "short DNS pointer"@,
        DnsError::InvalidLabel => "invalid DNS label"@,
    }
}

impl DnsError {
    /// The text of the error.
    pub fn message(self) -> (r: &'static str)
        ensures
            r@ == dns_error_text(self),
    {
        match self {
            DnsError::InvalidDomain => "invalid domain",
            DnsError::InvalidDomainLabel => "invalid domain label",
            DnsError::ShortResponse => "short DNS response",
            DnsError::ShortQuestion => "short DNS question",
            DnsError::ShortAnswer => "short DNS answer",
            DnsError::ShortData => "short DNS rdata",
            DnsError::ShortName => "short DNS name",
            DnsError::ShortPointer => "short DNS pointer",
            DnsError::InvalidLabel => "invalid DNS label",
        }
    }
}

/// Those of `pieces` that are not empty.
pub open spec fn non_empty(pieces: Seq<Seq<char>>) -> Seq<Seq<char>>
    decreases pieces.len(),
{
    if pieces.len() == 0 {
        seq![]
    } else {
        let before = non_empty(pieces.drop_last());
        if pieces.last().len() > 0 {
            before.push(pieces.last())
        } else {
            before
        }
    }
}

/// The labels of a domain name: what stands between its dots.
pub open spec fn labels_of(fqdn: Seq<char>) -> Seq<Seq<char>> {
    non_empty(search::split_on(text::without_suffixes(text::trimmed(fqdn), "."@), '.'))
}

/// The labels of a domain name, of which there are two at least.
pub fn domain_labels(fqdn: &str) -> (r: Result<Vec<String>, DnsError>)
    ensures
        r.is_ok() == (labels_of(fqdn@).len() >= 2),
        r matches Ok(labels) ==> search::texts(labels@) == labels_of(fqdn@),
        r matches Err(e) ==> e == DnsError::InvalidDomain,
{
    let t = trim(fqdn);
    proof {
        reveal_strlit(".");
    }
    let bare = trim_end_matches(t.as_str(), ".");
    let pieces = split(bare.as_str(), '.');
    let mut labels: Vec<String> = Vec::new();
    let mut i: usize = 0;
    proof {
        assert(search::texts(labels@) =~= non_empty(search::texts(pieces@).take(0)));
    }
    while i < pieces.len()
        invariant
            i <= pieces@.len(),
            search::texts(labels@) == non_empty(search::texts(pieces@).take(i as int)),
        decreases pieces@.len() - i,
    {
        proof {
            assert(search::texts(pieces@).take(i + 1).drop_last()
                =~= search::texts(pieces@).take(i as int));
            assert(search::texts(pieces@).take(i + 1).last() == pieces@[i as int]@);
        }
        if !pieces[i].as_str().is_empty() {
            let label = pieces[i].clone();
            proof {
                search::lemma_texts_push(labels@, label);
            }
            labels.push(label);
        }
        i += 1;
    }
    proof {
        assert(search::texts(pieces@).take(pieces@.len() as int) =~= search::texts(pieces@));
        assert(search::texts(labels@).len() == labels@.len());
    }
    if labels.len() < 2 {
        return Err(DnsError::InvalidDomain);
    }
    Ok(labels)
}

/// The names that may be the zone of a name, from the name itself to its last
/// label.
pub fn soa_candidates(labels: &[String]) -> (r: Vec<String>)
    ensures
        r@.len() == labels@.len(),
        forall|i: int|
            0 <= i < r@.len() ==> (#[trigger] r@[i])@ == search::joined(search::texts(labels@.skip(i)), "."@),
{
    let mut out: Vec<String> = Vec::new();
    let mut i: usize = 0;
    while i < labels.len()
        invariant
            i <= labels@.len(),
            i == out@.len(),
            forall|k: int|
                0 <= k < i ==> (#[trigger] out@[k])@ == search::joined(search::texts(labels@.skip(k)), "."@),
        decreases labels@.len() - i,
    {
        let tail = vstd::slice::slice_subrange(labels, i, labels.len());
        proof {
            assert(tail@ =~= labels@.skip(i as int));
        }
        out.push(join(tail, "."));
        i += 1;
    }
    out
}

/// The part of a name before its zone: nothing where it is the zone, and the
/// whole name where it does not end with it.
pub open spec fn relative_to(fqdn: Seq<char>, zone: Seq<char>) -> Seq<char> {
    let f = text::without_suffixes(fqdn, "."@);
    let z = text::without_suffixes(zone, "."@);
    let suffix = "."@ + z;
    if text::lowered(f) == text::lowered(z) {
        seq![]
    } else if suffix.is_suffix_of(f) {
        f.take(f.len() - suffix.len())
    } else {
        f
    }
}

/// The part of a name before its zone.
pub fn relative_name(fqdn: &str, zone: &str) -> (r: String)
    ensures
        r@ == relative_to(fqdn@, zone@),
{
    proof {
        reveal_strlit(".");
    }
    let f = trim_end_matches(fqdn, ".");
    let z = trim_end_matches(zone, ".");
    if eq_ignore_ascii_case(f.as_str(), z.as_str()) {
        return String::new();
    }
    let suffix = concat2(".", z.as_str());
    if ends_with(f.as_str(), suffix.as_str()) {
        let chars = chars_of(f.as_str());
        let tail = chars_of(suffix.as_str());
        let r = string_of_range(&chars, 0, chars.len() - tail.len());
        proof {
            assert(r@ =~= f@.take(f@.len() - suffix@.len()));
        }
        r
    } else {
        f
    }
}

/// The servers that are asked where none are set.
pub open spec fn default_dns_servers() -> Seq<Seq<char>> {
    seq![
        "8.8.8.8:53"@,
        "8.8.4.4:53"@,
        "1.1.1.1:53"@,
        "1.0.0.1:53"@,
        "[2001:4860:4860::8888]:53"@,
        "[2001:4860:4860::8844]:53"@,
        "[2606:4700:4700::1111]:53"@,
        "[2606:4700:4700::1001]:53"@,
    ]
}

/// The servers to ask: those named in `raw`, which are apart by commas, or
/// those that are asked where none are set.
pub fn dns_server_list(raw: &str) -> (r: Vec<String>)
    ensures
        search::texts(r@) == if search::tidy(search::split_on(raw@, ',')).len() == 0 {
            default_dns_servers()
        } else {
            search::tidy(search::split_on(raw@, ','))
        },
{
    let mut servers = split_tidy(raw, ',');
    proof {
        assert(search::texts(servers@).len() == servers@.len());
    }
    if servers.len() == 0 {
        servers.push("8.8.8.8:53".to_owned());
        servers.push("8.8.4.4:53".to_owned());
        servers.push("1.1.1.1:53".to_owned());
        servers.push("1.0.0.1:53".to_owned());
        servers.push("[2001:4860:4860::8888]:53".to_owned());
        servers.push("[2001:4860:4860::8844]:53".to_owned());
        servers.push("[2606:4700:4700::1111]:53".to_owned());
        servers.push("[2606:4700:4700::1001]:53".to_owned());
        proof {
            assert(search::texts(servers@) =~= default_dns_servers());
        }
    }
    servers
}

/// Whether a label can be sent: from one byte to sixty-three.
pub open spec fn label_fits(label: Seq<char>) -> bool {
    1 <= vstd::utf8::encode_utf8(label).len() <= 63
}

/// The first label from number `i` on that cannot be sent, or the number of
/// labels.
pub open spec fn first_misfit(labels: Seq<Seq<char>>, i: int) -> int
    decreases labels.len() - i,
{
    if i >= labels.len() {
        labels.len() as int
    } else if !label_fits(labels[i]) {
        i
    } else {
        first_misfit(labels, i + 1)
    }
}

/// A label as it is sent: its length and its bytes.
pub open spec fn label_bytes(label: Seq<char>) -> Seq<u8> {
    seq![vstd::utf8::encode_utf8(label).len() as u8] + vstd::utf8::encode_utf8(label)
}

/// The labels as they are sent.
pub open spec fn labels_bytes(labels: Seq<Seq<char>>) -> Seq<u8>
    decreases labels.len(),
{
    if labels.len() == 0 {
        seq![]
    } else {
        labels_bytes(labels.drop_last()) + label_bytes(labels.last())
    }
}

/// The labels of a name that is sent; a dot at its end does not count.
pub open spec fn sent_labels(domain: Seq<char>) -> Seq<Seq<char>> {
    search::split_on(text::without_suffixes(domain, "."@), '.')
}

/// Whether a name can be sent.
pub open spec fn name_fits(domain: Seq<char>) -> bool {
    first_misfit(sent_labels(domain), 0) == sent_labels(domain).len()
}

/// A name as it is sent: its labels and a zero.
pub open spec fn name_bytes(domain: Seq<char>) -> Seq<u8> {
    labels_bytes(sent_labels(domain)).push(0)
}

fn push_bytes(out: &mut Vec<u8>, bytes: &[u8])
    ensures
        final(out)@ == old(out)@ + bytes@,
{
    let mut i: usize = 0;
    let ghost before = out@;
    proof {
        assert(before + bytes@.take(0) =~= before);
    }
    while i < bytes.len()
        invariant
            i <= bytes@.len(),
            out@ == before + bytes@.take(i as int),
        decreases bytes@.len() - i,
    {
        proof {
            assert(before + bytes@.take(i + 1) =~= (before + bytes@.take(i as int)).push(
                bytes@[i as int],
            ));
        }
        out.push(bytes[i]);
        i += 1;
    }
    proof {
        assert(bytes@.take(bytes@.len() as int) =~= bytes@);
    }
}

/// Appends a name as it is sent. Where a label cannot be sent, those before it
/// have been appended.
pub fn encode_dns_name(domain: &str, out: &mut Vec<u8>) -> (r: Result<(), DnsError>)
    ensures
        r == if name_fits(domain@) {
            Ok::<(), DnsError>(())
        } else {
            Err(DnsError::InvalidDomainLabel)
        },
        final(out)@ == if name_fits(domain@) {
            old(out)@ + name_bytes(domain@)
        } else {
            old(out)@ + labels_bytes(
                sent_labels(domain@).take(first_misfit(sent_labels(domain@), 0)),
            )
        },
{
    proof {
        reveal_strlit(".");
    }
    let bare = trim_end_matches(domain, ".");
    let labels = split(bare.as_str(), '.');
    let ghost all = sent_labels(domain@);
    let ghost before = out@;
    let mut i: usize = 0;
    proof {
        assert(before + labels_bytes(all.take(0)) =~= before);
    }
    while i < labels.len()
        invariant
            i <= labels@.len(),
            search::texts(labels@) == all,
            all == sent_labels(domain@),
            before == old(out)@,
            out@ == before + labels_bytes(all.take(i as int)),
            first_misfit(all, i as int) == first_misfit(all, 0),
        decreases labels@.len() - i,
    {
        let bytes = labels[i].as_str().as_bytes();
        proof {
            assert(all[i as int] == labels@[i as int]@);
        }
        if bytes.len() == 0 || bytes.len() > 63 {
            return Err(DnsError::InvalidDomainLabel);
        }
        let ghost start = out@;
        out.push(bytes.len() as u8);
        push_bytes(out, bytes);
        proof {
            assert(all.take(i + 1).drop_last() =~= all.take(i as int));
            assert(all.take(i + 1).last() == all[i as int]);
            assert(out@ =~= start + label_bytes(all[i as int]));
            assert(start + label_bytes(all[i as int]) =~= before + (labels_bytes(
                all.take(i as int),
            ) + label_bytes(all[i as int])));
        }
        i += 1;
    }
    proof {
        assert(all.take(all.len() as int) =~= all);
        assert((before + labels_bytes(all)).push(0) =~= before + labels_bytes(all).push(0));
    }
    out.push(0);
    Ok(())
}

/// A query for the start of authority of a name, with the given number.
pub open spec fn query_bytes(domain: Seq<char>, id: u16) -> Seq<u8> {
    seq![(id / 256) as u8, (id % 256) as u8, 1, 0, 0, 1, 0, 0, 0, 0, 0, 0] + name_bytes(domain)
        + seq![0u8, 6, 0, 1]
}

/// A query for the start of authority of a name, with the given number.
pub fn soa_query(domain: &str, id: u16) -> (r: Result<Vec<u8>, DnsError>)
    ensures
        r.is_ok() == name_fits(domain@),
        r matches Ok(q) ==> q@ == query_bytes(domain@, id),
        r matches Err(e) ==> e == DnsError::InvalidDomainLabel,
{
    let mut out: Vec<u8> = Vec::new();
    out.push((id / 256) as u8);
    out.push((id % 256) as u8);
    push_bytes(&mut out, &[1, 0, 0, 1, 0, 0, 0, 0, 0, 0]);
    let ghost head = out@;
    match encode_dns_name(domain, &mut out) {
        Ok(_) => {},
        Err(e) => {
            return Err(e);
        },
    }
    push_bytes(&mut out, &[0, 6, 0, 1]);
    proof {
        assert(head =~= seq![
            (id / 256) as u8,
            (id % 256) as u8,
            1,
            0,
            0,
            1,
            0,
            0,
            0,
            0,
            0,
            0,
        ]);
        assert(out@ =~= query_bytes(domain@, id));
    }
    Ok(out)
}

/// The number of a query that is made at a second: its low 16 bits times 31, of
/// which the low 16 bits are taken again.
pub open spec fn query_number(second: i64) -> u16 {
    ((second as int % 65536) * 31 % 65536) as u16
}

/// The number of a query that is made at a second.
pub fn query_id(second: i64) -> (r: u16)
    ensures
        r == query_number(second),
{
    let low: u64 = if second >= 0 {
        (second % 65536) as u64
    } else {
        let below: u64 = (-(second + 1)) as u64;
        proof {
            let m = below as int;
            assert(second == -m - 1);
            assert((-m - 1) % 65536 == 65535 - m % 65536);
        }
        65535 - below % 65536
    };
    ((low * 31) % 65536) as u16
}

/// A query for the start of authority of a name. Its number is that of the second
/// which the clock reads.
pub fn build_soa_query(domain: &str) -> (r: Result<Vec<u8>, DnsError>)
    ensures
        r.is_ok() == name_fits(domain@),
        r matches Ok(q) ==> exists|second: i64|
            q@ == query_bytes(domain@, #[trigger] query_number(second)),
        r matches Err(e) ==> e == DnsError::InvalidDomainLabel,
{
    let second: i64 = unix_timestamp();
    soa_query(domain, query_id(second))
}

/// Where the name that starts at `pos` ends. A name is a row of labels that a
/// zero or a pointer ends.
pub open spec fn name_end(buf: Seq<u8>, pos: int) -> Result<int, DnsError>
    decreases convert::floored(buf.len() - pos),
{
    if pos < 0 || pos >= buf.len() {
        Err(DnsError::ShortName)
    } else if buf[pos] >= 0xc0 {
        if pos + 1 < buf.len() {
            Ok(pos + 2)
        } else {
            Err(DnsError::ShortPointer)
        }
    } else if buf[pos] == 0 {
        Ok(pos + 1)
    } else if buf[pos] >= 0x40 {
        Err(DnsError::InvalidLabel)
    } else {
        name_end(buf, pos + 1 + buf[pos])
    }
}

/// Where the name that starts at `pos` ends.
pub fn skip_dns_name(buf: &[u8], pos: usize) -> (r: Result<usize, DnsError>)
    ensures
        match r {
            Ok(end) => name_end(buf@, pos as int) == Ok::<int, DnsError>(end as int) && pos < end
                <= buf@.len(),
            Err(e) => name_end(buf@, pos as int) == Err::<int, DnsError>(e),
        },
{
    let mut at: usize = pos;
    while at < buf.len()
        invariant
            pos <= at,
            name_end(buf@, at as int) == name_end(buf@, pos as int),
        decreases buf@.len() - at,
    {
        let len: u8 = buf[at];
        if len >= 0xc0 {
            if buf.len() - at < 2 {
                return Err(DnsError::ShortPointer);
            }
            return Ok(at + 2);
        }
        if len == 0 {
            return Ok(at + 1);
        }
        if len >= 0x40 {
            return Err(DnsError::InvalidLabel);
        }
        let step: usize = len as usize + 1;
        if step >= buf.len() - at {
            proof {
                assert(name_end(buf@, at + step) == Err::<int, DnsError>(DnsError::ShortName));
            }
            return Err(DnsError::ShortName);
        }
        at = at + step;
    }
    Err(DnsError::ShortName)
}

/// The number that two bytes of a packet hold.
pub open spec fn be16(buf: Seq<u8>, at: int) -> int {
    buf[at] as int * 256 + buf[at + 1]
}

/// Where the `k` questions that start at `pos` end.
pub open spec fn questions_end(buf: Seq<u8>, pos: int, k: nat) -> Result<int, DnsError>
    decreases k,
{
    if k == 0 {
        Ok(pos)
    } else {
        match name_end(buf, pos) {
            Err(e) => Err(e),
            Ok(end) => if end + 4 > buf.len() {
                Err(DnsError::ShortQuestion)
            } else {
                questions_end(buf, end + 4, (k - 1) as nat)
            },
        }
    }
}

/// Whether one of the `k` answers that start at `pos` is a start of authority;
/// those behind the first such are not looked at.
pub open spec fn answers_have_soa(buf: Seq<u8>, pos: int, k: nat) -> Result<bool, DnsError>
    decreases k,
{
    if k == 0 {
        Ok(false)
    } else {
        match name_end(buf, pos) {
            Err(e) => Err(e),
            Ok(end) => if end + 10 > buf.len() {
                Err(DnsError::ShortAnswer)
            } else if end + 10 + be16(buf, end + 8) > buf.len() {
                Err(DnsError::ShortData)
            } else if be16(buf, end) == 6 {
                Ok(true)
            } else {
                answers_have_soa(buf, end + 10 + be16(buf, end + 8), (k - 1) as nat)
            },
        }
    }
}

/// Whether a response tells a start of authority, or what is wrong with it.
pub open spec fn has_soa(buf: Seq<u8>) -> Result<bool, DnsError> {
    if buf.len() < 12 {
        Err(DnsError::ShortResponse)
    } else {
        match questions_end(buf, 12, be16(buf, 4) as nat) {
            Err(e) => Err(e),
            Ok(pos) => answers_have_soa(buf, pos, be16(buf, 6) as nat),
        }
    }
}

fn read16(buf: &[u8], at: usize) -> (r: usize)
    requires
        at + 1 < buf@.len(),
    ensures
        r == be16(buf@, at as int),
        r <= 65535,
{
    buf[at] as usize * 256 + buf[at + 1] as usize
}

/// Whether a response tells a start of authority, or what is wrong with it.
pub fn response_has_soa(buf: &[u8]) -> (r: Result<bool, DnsError>)
    ensures
        r == has_soa(buf@),
{
    if buf.len() < 12 {
        return Err(DnsError::ShortResponse);
    }
    let qdcount: usize = read16(buf, 4);
    let ancount: usize = read16(buf, 6);
    let mut pos: usize = 12;
    let mut k: usize = qdcount;
    while k > 0
        invariant
            buf@.len() >= 12,
            pos <= buf@.len(),
            questions_end(buf@, pos as int, k as nat) == questions_end(
                buf@,
                12,
                be16(buf@, 4) as nat,
            ),
        decreases k,
    {
        match skip_dns_name(buf, pos) {
            Ok(end) => {
                if buf.len() - end < 4 {
                    return Err(DnsError::ShortQuestion);
                }
                pos = end + 4;
            },
            Err(e) => {
                return Err(e);
            },
        }
        k -= 1;
    }
    let ghost start = pos as int;
    let mut left: usize = ancount;
    while left > 0
        invariant
            pos <= buf@.len(),
            answers_have_soa(buf@, pos as int, left as nat) == answers_have_soa(
                buf@,
                start,
                ancount as nat,
            ),
            has_soa(buf@) == answers_have_soa(buf@, start, ancount as nat),
        decreases left,
    {
        match skip_dns_name(buf, pos) {
            Ok(end) => {
                if buf.len() - end < 10 {
                    return Err(DnsError::ShortAnswer);
                }
                let record_type: usize = read16(buf, end);
                let data_len: usize = read16(buf, end + 8);
                if buf.len() - (end + 10) < data_len {
                    return Err(DnsError::ShortData);
                }
                if record_type == 6 {
                    return Ok(true);
                }
                pos = end + 10 + data_len;
            },
            Err(e) => {
                return Err(e);
            },
        }
        left -= 1;
    }
    Ok(false)
}

proof fn lemma_skip_labels(front: Seq<u8>, labels: Seq<Seq<char>>, back: Seq<u8>, k: int)
    requires
        0 <= k <= labels.len(),
        forall|i: int| 0 <= i < labels.len() ==> label_fits(#[trigger] labels[i]),
    ensures
        name_end(
            front + labels_bytes(labels) + seq![0u8] + back,
            front.len() as int + labels_bytes(labels.take(k)).len(),
        ) == Ok::<int, DnsError>(front.len() as int + labels_bytes(labels).len() + 1),
    decreases labels.len() - k,
{
    let buf = front + labels_bytes(labels) + seq![0u8] + back;
    let pos = front.len() as int + labels_bytes(labels.take(k)).len();
    if k == labels.len() {
        assert(labels.take(k) =~= labels);
        assert(buf[pos] == 0);
    } else {
        lemma_skip_labels(front, labels, back, k + 1);
        assert(labels.take(k + 1).drop_last() =~= labels.take(k));
        assert(labels.take(k + 1).last() == labels[k]);
        lemma_labels_bytes_prefix(labels, k + 1);
        let at = labels_bytes(labels.take(k)).len() as int;
        let some = labels_bytes(labels.take(k + 1));
        assert(label_fits(labels[k]));
        assert(some[at] == label_bytes(labels[k])[0]);
        assert(labels_bytes(labels)[at] == some[at]);
        assert(buf[pos] == labels_bytes(labels)[at]);
    }
}

proof fn lemma_labels_bytes_prefix(labels: Seq<Seq<char>>, k: int)
    requires
        0 <= k <= labels.len(),
    ensures
        labels_bytes(labels.take(k)).is_prefix_of(labels_bytes(labels)),
    decreases labels.len() - k,
{
    if k < labels.len() {
        lemma_labels_bytes_prefix(labels, k + 1);
        assert(labels.take(k + 1).drop_last() =~= labels.take(k));
        let a = labels_bytes(labels.take(k));
        let b = labels_bytes(labels.take(k + 1));
        assert(b.subrange(0, a.len() as int) =~= a);
        assert(labels_bytes(labels).subrange(0, a.len() as int) =~= a);
    } else {
        assert(labels.take(k) =~= labels);
        let a = labels_bytes(labels);
        assert(a.subrange(0, a.len() as int) =~= a);
    }
}

proof fn lemma_no_misfit(labels: Seq<Seq<char>>, i: int, k: int)
    requires
        0 <= i <= k < labels.len(),
        first_misfit(labels, i) == labels.len(),
    ensures
        label_fits(labels[k]),
    decreases labels.len() - i,
{
    if i < k {
        lemma_no_misfit(labels, i + 1, k);
    }
}

/// Wherever a name stands in a packet, skipping it leads right behind it.
pub proof fn sent_name_is_skipped(front: Seq<u8>, domain: Seq<char>, back: Seq<u8>)
    requires
        name_fits(domain),
    ensures
        name_end(front + name_bytes(domain) + back, front.len() as int) == Ok::<int, DnsError>(
            front.len() as int + name_bytes(domain).len(),
        ),
{
    let labels = sent_labels(domain);
    assert forall|i: int| 0 <= i < labels.len() implies label_fits(#[trigger] labels[i]) by {
        lemma_no_misfit(labels, 0, i);
    }
    lemma_skip_labels(front, labels, back, 0);
    assert(labels.take(0) =~= seq![]);
    assert(front + labels_bytes(labels) + seq![0u8] + back =~= front + name_bytes(domain) + back);
}

/// A query read as a response holds one question and tells no start of
/// authority.
pub proof fn query_tells_no_authority(domain: Seq<char>, id: u16)
    requires
        name_fits(domain),
    ensures
        has_soa(query_bytes(domain, id)) == Ok::<bool, DnsError>(false),
{
    let front = seq![(id / 256) as u8, (id % 256) as u8, 1u8, 0, 0, 1, 0, 0, 0, 0, 0, 0];
    let back = seq![0u8, 6, 0, 1];
    let buf = query_bytes(domain, id);
    assert(buf =~= front + name_bytes(domain) + back);
    sent_name_is_skipped(front, domain, back);
    assert(be16(buf, 4) == 1);
    assert(be16(buf, 6) == 0);
    let end = 12 + name_bytes(domain).len() as int;
    assert(name_end(buf, 12) == Ok::<int, DnsError>(end));
    assert(questions_end(buf, end + 4, 0) == Ok::<int, DnsError>(end + 4));
    assert(questions_end(buf, 12, 1) == Ok::<int, DnsError>(end + 4));
}

/// What a search for the zone of a name does next.
#[derive(Debug, Clone, Copy, PartialEq, Eq, Structural)]
pub enum SearchStep {
    Ask { zone: usize, server: usize },
    Found(usize),
    NotFound,
}

/// What comes after server number `server` was asked for zone number `zone`:
/// the zone where the server knew it, else the next server, else the next zone.
pub open spec fn step_after(
    zones: usize,
    servers: usize,
    zone: usize,
    server: usize,
    known: bool,
) -> SearchStep {
    if known {
        SearchStep::Found(zone)
    } else if server + 1 < servers {
        SearchStep::Ask { zone, server: (server + 1) as usize }
    } else if zone + 1 < zones {
        SearchStep::Ask { zone: (zone + 1) as usize, server: 0 }
    } else {
        SearchStep::NotFound
    }
}

/// The first step of a search.
pub open spec fn first_step(zones: usize, servers: usize) -> SearchStep {
    if zones > 0 && servers > 0 {
        SearchStep::Ask { zone: 0, server: 0 }
    } else {
        SearchStep::NotFound
    }
}

/// The first step of a search for one of `zones` zones by `servers` servers.
pub fn start_search(zones: usize, servers: usize) -> (r: SearchStep)
    ensures
        r == first_step(zones, servers),
{
    if zones > 0 && servers > 0 {
        SearchStep::Ask { zone: 0, server: 0 }
    } else {
        SearchStep::NotFound
    }
}

/// What comes after a server was asked for a zone.
pub fn next_step(zones: usize, servers: usize, zone: usize, server: usize, known: bool) -> (r:
    SearchStep)
    requires
        zone < zones,
        server < servers,
    ensures
        r == step_after(zones, servers, zone, server, known),
{
    if known {
        SearchStep::Found(zone)
    } else if server + 1 < servers {
        SearchStep::Ask { zone, server: server + 1 }
    } else if zone + 1 < zones {
        SearchStep::Ask { zone: zone + 1, server: 0 }
    } else {
        SearchStep::NotFound
    }
}

/// How a search ends that goes on by `step`, where `known(zone, server)` is what
/// a server says of a zone.
pub open spec fn search_end(
    zones: usize,
    servers: usize,
    known: spec_fn(usize, usize) -> bool,
    step: SearchStep,
) -> SearchStep
    decreases
            match step {
                SearchStep::Ask { zone, .. } => zones - zone,
                _ => 0,
            },
            match step {
                SearchStep::Ask { server, .. } => servers - server,
                _ => 0,
            },
{
    match step {
        SearchStep::Ask { zone, server } if zone < zones && server < servers => search_end(
            zones,
            servers,
            known,
            step_after(zones, servers, zone, server, known(zone, server)),
        ),
        _ => step,
    }
}

/// Whether some server knows a zone.
pub open spec fn is_known(servers: usize, known: spec_fn(usize, usize) -> bool, zone: usize) -> bool {
    exists|server: usize| server < servers && #[trigger] known(zone, server)
}

/// A search finds the longest of the zones that some server knows, and none only
/// where no server knows any.
pub proof fn longest_zone_is_found(zones: usize, servers: usize, known: spec_fn(usize, usize) -> bool)
    ensures
        match search_end(zones, servers, known, first_step(zones, servers)) {
            SearchStep::Found(zone) => {
                &&& zone < zones
                &&& is_known(servers, known, zone)
                &&& forall|earlier: usize| earlier < zone ==> !is_known(servers, known, earlier)
            },
            SearchStep::NotFound => forall|zone: usize|
                zone < zones ==> !is_known(servers, known, zone),
            SearchStep::Ask { .. } => false,
        },
{
    if zones > 0 && servers > 0 {
        lemma_search(zones, servers, known, 0, 0);
    }
}

proof fn lemma_search(
    zones: usize,
    servers: usize,
    known: spec_fn(usize, usize) -> bool,
    zone: usize,
    server: usize,
)
    requires
        zone < zones,
        server < servers,
        forall|earlier: usize| earlier < zone ==> !is_known(servers, known, earlier),
        forall|asked: usize| asked < server ==> !#[trigger] known(zone, asked),
    ensures
        match search_end(
            zones,
            servers,
            known,
            (SearchStep::Ask { zone, server }),
        ) {
            SearchStep::Found(z) => {
                &&& z < zones
                &&& is_known(servers, known, z)
                &&& forall|earlier: usize| earlier < z ==> !is_known(servers, known, earlier)
            },
            SearchStep::NotFound => forall|z: usize| z < zones ==> !is_known(servers, known, z),
            SearchStep::Ask { .. } => false,
        },
    decreases zones - zone, servers - server,
{
    if known(zone, server) {
        assert(is_known(servers, known, zone));
        assert(search_end(zones, servers, known, SearchStep::Found(zone))
            == SearchStep::Found(zone));
    } else if server + 1 < servers {
        lemma_search(zones, servers, known, zone, (server + 1) as usize);
    } else {
        assert(!is_known(servers, known, zone));
        if zone + 1 < zones {
            lemma_search(zones, servers, known, (zone + 1) as usize, 0);
        } else {
            assert(search_end(zones, servers, known, SearchStep::NotFound) == SearchStep::NotFound);
        }
    }
}

/// The part of a name of `labels` before its zone.
pub fn name_in_zone(labels: &[String], zone: &str) -> (r: String)
    ensures
        r@ == relative_to(search::joined(search::texts(labels@), "."@), zone@),
{
    let name = join(labels, ".");
    relative_name(name.as_str(), zone)
}

/// What is said of a name that has no zone.
pub fn soa_missing(fqdn: &str) -> (r: String)
    ensures
        r@ == "SOA record not found for domain: "@ + text::without_suffixes(fqdn@, "."@),
{
    proof {
        reveal_strlit(".");
    }
    let name = trim_end_matches(fqdn, ".");
    concat2("SOA record not found for domain: ", name.as_str())
}

/// A record of a response: the bytes of its name, its type, its class and time to
/// live, and its data.
pub struct RecordView {
    pub name: Seq<u8>,
    pub kind: (u8, u8),
    pub class_and_life: Seq<u8>,
    pub data: Seq<u8>,
}

/// Whether a record is complete: its name is a pointer or a name that can be sent,
/// and everything else has its length.
pub open spec fn is_complete(record: RecordView) -> bool {
    &&& (record.name.len() == 2 && record.name[0] >= 0xc0) || exists|domain: Seq<char>|
        name_fits(domain) && record.name == #[trigger] name_bytes(domain)
    &&& record.class_and_life.len() == 6
    &&& record.data.len() <= 65535
}

/// The bytes of a record.
pub open spec fn record_bytes(record: RecordView) -> Seq<u8> {
    record.name + seq![record.kind.0, record.kind.1] + record.class_and_life + seq![
        (record.data.len() / 256) as u8,
        (record.data.len() % 256) as u8,
    ] + record.data
}

/// The bytes of the records one behind the other.
pub open spec fn records_bytes(records: Seq<RecordView>) -> Seq<u8>
    decreases records.len(),
{
    if records.len() == 0 {
        seq![]
    } else {
        record_bytes(records[0]) + records_bytes(records.drop_first())
    }
}

proof fn lemma_record_is_read(front: Seq<u8>, record: RecordView, back: Seq<u8>)
    requires
        is_complete(record),
    ensures
        ({
            let buf = front + record_bytes(record) + back;
            let end = front.len() as int + record.name.len();
            &&& name_end(buf, front.len() as int) == Ok::<int, DnsError>(end)
            &&& end + 10 + record.data.len() + back.len() == buf.len()
            &&& be16(buf, end) == record.kind.0 * 256 + record.kind.1
            &&& be16(buf, end + 8) == record.data.len()
        }),
{
    let buf = front + record_bytes(record) + back;
    let f = front.len() as int;
    let n = record.name.len() as int;
    let bytes = record_bytes(record);
    let tail = seq![record.kind.0, record.kind.1] + record.class_and_life + seq![
        (record.data.len() / 256) as u8,
        (record.data.len() % 256) as u8,
    ] + record.data;
    assert(buf =~= front + record.name + (tail + back));
    assert(tail[0] == record.kind.0);
    assert(tail[1] == record.kind.1);
    assert(tail[8] == (record.data.len() / 256) as u8);
    assert(tail[9] == (record.data.len() % 256) as u8);
    assert forall|i: int| 0 <= i < tail.len() implies buf[f + n + i] == #[trigger] tail[i] by {}
    assert(buf[f + n] == tail[0] && buf[f + n + 1] == tail[1]);
    assert(buf[f + n + 8] == tail[8] && buf[f + n + 9] == tail[9]);
    if record.name.len() == 2 && record.name[0] >= 0xc0 {
        assert(buf[f] == record.name[0]);
    } else {
        let domain = choose|domain: Seq<char>|
            name_fits(domain) && record.name == #[trigger] name_bytes(domain);
        sent_name_is_skipped(front, domain, tail + back);
    }
}

proof fn lemma_records_are_read(front: Seq<u8>, records: Seq<RecordView>, back: Seq<u8>)
    requires
        forall|i: int| 0 <= i < records.len() ==> is_complete(#[trigger] records[i]),
    ensures
        answers_have_soa(
            front + records_bytes(records) + back,
            front.len() as int,
            records.len(),
        ) == Ok::<bool, DnsError>(
            exists|i: int| 0 <= i < records.len() && (#[trigger] records[i]).kind == (0u8, 6u8),
        ),
    decreases records.len(),
{
    let buf = front + records_bytes(records) + back;
    if records.len() > 0 {
        let record = records[0];
        let rest = records.drop_first();
        let here = record_bytes(record);
        assert(buf =~= front + here + (records_bytes(rest) + back));
        lemma_record_is_read(front, record, records_bytes(rest) + back);
        assert(buf =~= (front + here) + records_bytes(rest) + back);
        assert forall|i: int| 0 <= i < rest.len() implies is_complete(#[trigger] rest[i]) by {
            assert(rest[i] == records[i + 1]);
        }
        lemma_records_are_read(front + here, rest, back);
        if exists|i: int| 0 <= i < rest.len() && (#[trigger] rest[i]).kind == (0u8, 6u8) {
            let i = choose|i: int| 0 <= i < rest.len() && (#[trigger] rest[i]).kind == (0u8, 6u8);
            assert(records[i + 1].kind == (0u8, 6u8));
        }
        if record.kind != (0u8, 6u8) && exists|i: int|
            0 <= i < records.len() && (#[trigger] records[i]).kind == (0u8, 6u8) {
            let i = choose|i: int|
                0 <= i < records.len() && (#[trigger] records[i]).kind == (0u8, 6u8);
            assert(rest[i - 1].kind == (0u8, 6u8));
        }
    }
}

/// A response to the query for a name, which repeats its question and tells its
/// answers one behind the other, tells a start of authority exactly where one of
/// the answers has the type that the query asks for. What stands behind the
/// answers does not count.
pub proof fn answers_of_the_type_asked_for_count(
    domain: Seq<char>,
    id: u16,
    head: Seq<u8>,
    records: Seq<RecordView>,
    back: Seq<u8>,
)
    requires
        name_fits(domain),
        head.len() == 12,
        head[4] == 0 && head[5] == 1,
        head[6] * 256 + head[7] == records.len(),
        forall|i: int| 0 <= i < records.len() ==> is_complete(#[trigger] records[i]),
    ensures
        ({
            let question = query_bytes(domain, id).skip(12);
            let asked = (question[question.len() - 4], question[question.len() - 3]);
            has_soa(head + question + records_bytes(records) + back) == Ok::<bool, DnsError>(
                exists|i: int| 0 <= i < records.len() && (#[trigger] records[i]).kind == asked,
            )
        }),
{
    let query = query_bytes(domain, id);
    let question = query.skip(12);
    let kind = seq![0u8, 6, 0, 1];
    assert(question =~= name_bytes(domain) + kind);
    let n = question.len() as int;
    assert(question[n - 4] == kind[0] && question[n - 3] == kind[1]);
    let rest = records_bytes(records) + back;
    let buf = head + question + records_bytes(records) + back;
    assert(buf =~= head + name_bytes(domain) + (kind + rest));
    sent_name_is_skipped(head, domain, kind + rest);
    assert(buf[4] == head[4] && buf[5] == head[5] && buf[6] == head[6] && buf[7] == head[7]);
    let end = 12 + name_bytes(domain).len() as int;
    assert(questions_end(buf, end + 4, 0) == Ok::<int, DnsError>(end + 4));
    assert(questions_end(buf, 12, 1) == Ok::<int, DnsError>(end + 4));
    lemma_records_are_read(head + question, records, back);
    assert(buf =~= (head + question) + records_bytes(records) + back);
}

/// The part of a name before its zone, a dot and the zone make up the name; the zone
/// itself has no such part, and a name of another zone is kept.
pub proof fn names_are_relative_to_their_zone(part: Seq<char>, zone: Seq<char>)
    requires
        part.len() > 0,
        zone.len() > 0,
        zone.last() != '.',
    ensures
        relative_to(part + "."@ + zone, zone) == part,
        relative_to(zone, zone).len() == 0,
        !("."@ + zone).is_suffix_of(part) && part.last() != '.' && text::lowered(part)
            != text::lowered(zone) ==> relative_to(part, zone) == part,
{
    reveal_strlit(".");
    let dot = "."@;
    let name = part + dot + zone;
    lemma_no_dot_at_the_end(zone);
    lemma_no_dot_at_the_end(name);
    assert(text::lowered(name).len() != text::lowered(zone).len());
    let suffix = dot + zone;
    assert(name.skip(name.len() - suffix.len()) =~= suffix);
    assert(name.take(name.len() - suffix.len()) =~= part);
    if part.last() != '.' {
        lemma_no_dot_at_the_end(part);
    }
}

proof fn lemma_no_dot_at_the_end(s: Seq<char>)
    requires
        s.len() > 0,
        s.last() != '.',
    ensures
        text::without_suffixes(s, "."@) == s,
{
    reveal_strlit(".");
    text::endings_are_taken_away(s, "."@);
    if "."@.is_suffix_of(s) {
        assert(s.subrange(s.len() - 1, s.len() as int)[0] == s.last());
    }
}

/// Labels with dots between them are the labels of a name, and those that are sent, with
/// or without a dot at the end.
pub proof fn labels_stand_between_dots(labels: Seq<Seq<char>>)
    requires
        labels.len() > 0,
        forall|i: int| 0 <= i < labels.len() ==> (#[trigger] labels[i]).len() > 0,
        forall|i: int, k: int|
            0 <= i < labels.len() && 0 <= k < labels[i].len() ==> #[trigger] labels[i][k] != '.'
                && !text::is_white(labels[i][k]),
    ensures
        labels_of(search::joined(labels, "."@)) == labels,
        sent_labels(search::joined(labels, "."@)) == labels,
        sent_labels(search::joined(labels, "."@) + "."@) == labels,
{
    reveal_strlit(".");
    assert("."@ =~= seq!['.']);
    let name = search::joined(labels, "."@);
    lemma_joined_ends(labels);
    text::bare_texts_are_kept(name);
    lemma_no_dot_at_the_end(name);
    text::endings_are_taken_away(name, "."@);
    search::splitting_undoes_joining(labels, '.');
    lemma_non_empty(labels);
}

proof fn lemma_joined_ends(labels: Seq<Seq<char>>)
    requires
        labels.len() > 0,
        forall|i: int| 0 <= i < labels.len() ==> (#[trigger] labels[i]).len() > 0,
        forall|i: int, k: int|
            0 <= i < labels.len() && 0 <= k < labels[i].len() ==> #[trigger] labels[i][k] != '.'
                && !text::is_white(labels[i][k]),
    ensures
        search::joined(labels, "."@).len() > 0,
        !text::is_white(search::joined(labels, "."@)[0]),
        !text::is_white(search::joined(labels, "."@).last()),
        search::joined(labels, "."@).last() != '.',
    decreases labels.len(),
{
    let last = labels[labels.len() - 1];
    assert(last.len() > 0);
    assert(labels[labels.len() - 1][last.len() - 1] != '.');
    assert(labels[0].len() > 0);
    assert(labels[0][0] != '.');
    if labels.len() > 1 {
        let front = labels.drop_last();
        assert forall|i: int| 0 <= i < front.len() implies (#[trigger] front[i]).len() > 0 by {
            assert(front[i] == labels[i]);
        }
        assert forall|i: int, k: int|
            0 <= i < front.len() && 0 <= k < front[i].len() implies #[trigger] front[i][k] != '.'
            && !text::is_white(front[i][k]) by {
            assert(front[i] == labels[i]);
            assert(labels[i][k] != '.');
        }
        lemma_joined_ends(front);
        assert(search::joined(labels, "."@).last() == last[last.len() - 1]);
    }
}

proof fn lemma_non_empty(pieces: Seq<Seq<char>>)
    requires
        forall|i: int| 0 <= i < pieces.len() ==> (#[trigger] pieces[i]).len() > 0,
    ensures
        non_empty(pieces) == pieces,
    decreases pieces.len(),
{
    if pieces.len() > 0 {
        let front = pieces.drop_last();
        assert forall|i: int| 0 <= i < front.len() implies (#[trigger] front[i]).len() > 0 by {
            assert(front[i] == pieces[i]);
        }
        lemma_non_empty(front);
        assert(pieces[pieces.len() - 1].len() > 0);
        assert(front.push(pieces.last()) =~= pieces);
    } else {
        assert(non_empty(pieces) =~= pieces);
    }
}

/// A query asks one question, with its number in front: for the start of authority, which
/// is type 6, on the internet, which is class 1, and to be looked for elsewhere where the
/// server does not know.
pub proof fn queries_ask_for_the_start_of_authority(domain: Seq<char>, id: u16)
    ensures
        ({
            let q = query_bytes(domain, id);
            let n = q.len() as int;
            &&& q[0] * 256 + q[1] == id
            &&& q[2] == 1
            &&& q[4] * 256 + q[5] == 1
            &&& q[6] * 256 + q[7] == 0
            &&& q.subrange(12, n - 4) == name_bytes(domain)
            &&& q[n - 4] * 256 + q[n - 3] == 6
            &&& q[n - 2] * 256 + q[n - 1] == 1
        }),
{
    let q = query_bytes(domain, id);
    let n = q.len() as int;
    let kind = seq![0u8, 6, 0, 1];
    assert(q.subrange(12, n - 4) =~= name_bytes(domain));
    assert(q[n - 4] == kind[0] && q[n - 3] == kind[1] && q[n - 2] == kind[2] && q[n - 1]
        == kind[3]);
}

/// Labels of one to sixty-three bytes can be sent and no others; each is sent with its
/// length in front.
pub proof fn labels_are_sent_with_their_length(labels: Seq<Seq<char>>, label: Seq<char>)
    ensures
        label_fits(label) <==> vstd::utf8::encode_utf8(label).len() > 0 && vstd::utf8::encode_utf8(
            label,
        ).len() < 64,
        label_fits(label) ==> label_bytes(label)[0] == vstd::utf8::encode_utf8(label).len()
            && label_bytes(label).skip(1) == vstd::utf8::encode_utf8(label),
        labels_bytes(labels.push(label)) == labels_bytes(labels) + label_bytes(label),
        labels_bytes(seq![]).len() == 0,
{
    assert(labels.push(label).drop_last() =~= labels);
    assert(label_bytes(label).skip(1) =~= vstd::utf8::encode_utf8(label));
}

} // verus!
