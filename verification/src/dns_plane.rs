//! DNS wire format for the policy plane.
//!
//! Just enough of a DNS message is parsed to observe the A and AAAA answers of
//! a response, through CNAME chains and compression pointers. Only well-formed,
//! untruncated `NOERROR` responses are believed, and no message, however
//! hostile, makes a function here panic or loop.
use vstd::prelude::*;
use vstd::slice::slice_subrange;

use crate::net::{be_number, IpAddr};
use crate::reconciliation::dns_flow::{DnsRegistry, Resolution};
use crate::text::{chars_of, lower_chars, string_of};

verus! {

/// The length of the DNS header.
pub const HEADER_LEN: usize = 12;

/// The longest name, in bytes.
pub const MAX_NAME_LEN: usize = 255;

/// The most compression pointers followed in one name.
pub const MAX_POINTER_JUMPS: usize = 64;

/// The most names in a CNAME chain.
pub const MAX_CNAME_CHAIN: usize = 8;

/// The most answer records taken from one response.
pub const MAX_ANSWERS: usize = 2048;

pub const TYPE_A: u16 = 1;

pub const TYPE_CNAME: u16 = 5;

pub const TYPE_AAAA: u16 = 28;

/// No observation expires faster than this.
pub const MIN_TTL_SECS: u64 = 60;

/// No observation lives longer than this without a refresh.
pub const MAX_TTL_SECS: u64 = 3600;

/// A resource record: its owner, type and time to live, and where its data
/// lies in the message.
#[derive(Debug)]
pub struct Record {
    pub owner: String,
    pub rtype: u16,
    pub ttl: u32,
    pub rdata_off: usize,
    pub rdata_len: usize,
}

/// Why a message is not taken.
#[derive(Debug, Clone, Copy, PartialEq, Eq, Structural)]
pub enum DnsError {
    TooShort,
    BadLabel,
    NameTooLong,
    PointerLoop,
    PointerOutOfRange,
    NotAResponse,
    TooManyRecords,
}

/// A usable observation: the queried domain, its addresses, and for how many
/// seconds they are fresh.
#[derive(Debug)]
pub struct DnsObservation {
    pub domain: String,
    pub ips: Vec<IpAddr>,
    pub ttl_secs: u64,
}

/// The header fields that decide what is done with a message.
#[derive(Debug, Clone, Copy, PartialEq, Eq, Structural)]
pub struct Header {
    pub qr: bool,
    pub tc: bool,
    pub rcode: u8,
    pub qdcount: u16,
    pub ancount: u16,
}

/// `s` without its trailing dots.
pub open spec fn without_dots(s: Seq<char>) -> Seq<char>
    decreases s.len(),
{
    if s.len() > 0 && s.last() == '.' { without_dots(s.drop_last()) } else { s }
}

/// A character that a policy key may hold.
pub open spec fn host_char(c: char) -> bool {
    ||| 'a' <= c <= 'z'
    ||| 'A' <= c <= 'Z'
    ||| '0' <= c <= '9'
    ||| c == '-'
    ||| c == '.'
}

/// Whether every label between the dots of `s` has a character.
pub open spec fn no_empty_label(s: Seq<char>) -> bool {
    forall|i: int| 0 <= i < s.len() && #[trigger] s[i] == '.' ==> 0 < i && i + 1 < s.len() && s[i + 1] != '.'
}

/// The registry key of a DNS name: lower case, without trailing dots; nothing
/// for a name that is empty, too long, or not made of host labels.
pub open spec fn normalized(name: Seq<char>) -> Option<Seq<char>> {
    let s = crate::text::ascii_lower(without_dots(name));
    if 0 < s.len() <= MAX_NAME_LEN && (forall|i: int| 0 <= i < s.len() ==> host_char(#[trigger] s[i]))
        && no_empty_label(s) {
        Some(s)
    } else {
        None
    }
}

proof fn without_dots_last(s: Seq<char>)
    ensures
        without_dots(s).len() <= s.len(),
        without_dots(s) == s.take(without_dots(s).len() as int),
        without_dots(s).len() > 0 ==> without_dots(s).last() != '.',
    decreases s.len(),
{
    if s.len() > 0 && s.last() == '.' {
        without_dots_last(s.drop_last());
        assert(s.drop_last().take(without_dots(s).len() as int) =~= s.take(without_dots(s).len() as int));
    } else {
        assert(s.take(s.len() as int) =~= s);
    }
}

fn normalize_chars(name: &[char]) -> (r: Option<Vec<char>>)
    ensures
        r matches Some(v) ==> normalized(name@) == Some(v@),
        r is None ==> normalized(name@) is None,
{
    let mut n: usize = name.len();
    assert(name@.take(n as int) =~= name@);
    while n > 0 && name[n - 1] == '.'
        invariant
            n <= name.len(),
            without_dots(name@.take(n as int)) == without_dots(name@),
        decreases n,
    {
        assert(name@.take(n as int).drop_last() =~= name@.take(n as int - 1));
        n -= 1;
    }
    assert(name@.subrange(0, n as int) =~= name@.take(n as int));
    let s = lower_chars(slice_subrange(name, 0, n));
    assert(s@ == crate::text::ascii_lower(without_dots(name@)));
    if s.len() == 0 || s.len() > MAX_NAME_LEN {
        return None;
    }
    let mut i: usize = 0;
    while i < s.len()
        invariant
            i <= s.len(),
            forall|k: int| 0 <= k < i ==> host_char(#[trigger] s@[k]),
            s@ == crate::text::ascii_lower(without_dots(name@)),
        decreases s.len() - i,
    {
        let c = s[i];
        if !(('a' <= c && c <= 'z') || ('A' <= c && c <= 'Z') || ('0' <= c && c <= '9') || c == '-' || c == '.') {
            assert(!host_char(s@[i as int]));
            return None;
        }
        i += 1;
    }
    let mut k: usize = 0;
    while k < s.len()
        invariant
            k <= s.len(),
            forall|i: int|
                0 <= i < k && #[trigger] s@[i] == '.' ==> 0 < i && i + 1 < s.len() && s@[i + 1] != '.',
            s@ == crate::text::ascii_lower(without_dots(name@)),
        decreases s.len() - k,
    {
        if s[k] == '.' && (k == 0 || k + 1 >= s.len() || s[k + 1] == '.') {
            assert(s@[k as int] == '.');
            return None;
        }
        k += 1;
    }
    Some(s)
}

/// Normalize a DNS name for use as a registry key.
pub fn normalize_domain(name: &str) -> (r: Option<String>)
    ensures
        r matches Some(s) ==> normalized(name@) == Some(s@),
        r is None ==> normalized(name@) is None,
{
    let v = chars_of(name);
    match normalize_chars(&v) {
        Some(s) => Some(string_of(&s)),
        None => None,
    }
}

proof fn lower_keeps_host(c: char)
    ensures
        crate::text::lower_char(c) == '.' <==> c == '.',
        crate::text::lower_char(crate::text::lower_char(c)) == crate::text::lower_char(c),
{
    if 'A' <= c <= 'Z' {
        assert(crate::text::lower_char(c) as u32 >= 97);
    }
}

/// A normalized name is its own normal form.
pub proof fn normalized_is_stable(name: Seq<char>)
    ensures
        normalized(name) matches Some(s) ==> normalized(s) == Some(s),
{
    let s = crate::text::ascii_lower(without_dots(name));
    if normalized(name) is Some {
        without_dots_last(name);
        lower_keeps_host(without_dots(name).last());
        assert(s.last() != '.');
        assert(without_dots(s) == s);
        crate::text::ascii_lower_idempotent(without_dots(name));
    }
}

/// Two bytes in network order.
pub open spec fn be16(hi: u8, lo: u8) -> nat {
    hi as nat * 256 + lo as nat
}

/// The header of a message, where it is long enough to have one.
pub open spec fn header_of(msg: Seq<u8>) -> Option<Header> {
    if msg.len() < HEADER_LEN {
        None
    } else {
        Some(
            Header {
                qr: msg[2] >= 128,
                tc: (msg[2] / 2) % 2 == 1,
                rcode: (msg[3] % 16) as u8,
                qdcount: be16(msg[4], msg[5]) as u16,
                ancount: be16(msg[6], msg[7]) as u16,
            },
        )
    }
}

/// Two bytes of a message in network order.
fn read16(msg: &[u8], at: usize) -> (r: u16)
    requires
        at + 2 <= msg.len(),
    ensures
        r == be16(msg@[at as int], msg@[at + 1]),
{
    msg[at] as u16 * 256 + msg[at + 1] as u16
}

pub fn parse_header(msg: &[u8]) -> (r: Option<Header>)
    ensures
        r == header_of(msg@),
{
    if msg.len() < HEADER_LEN {
        return None;
    }
    Some(
        Header {
            qr: msg[2] >= 128,
            tc: (msg[2] / 2) % 2 == 1,
            rcode: msg[3] % 16,
            qdcount: read16(msg, 4),
            ancount: read16(msg, 6),
        },
    )
}

/// Bytes read as characters one for one. A byte beyond ASCII becomes a
/// character that no policy key may hold.
pub open spec fn byte_chars(b: Seq<u8>) -> Seq<char> {
    Seq::new(b.len(), |i: int| b[i] as char)
}

/// Labels with dots between them.
pub open spec fn dotted(labels: Seq<Seq<u8>>) -> Seq<char>
    decreases labels.len(),
{
    if labels.len() == 0 {
        Seq::empty()
    } else if labels.len() == 1 {
        byte_chars(labels[0])
    } else {
        dotted(labels.drop_last()).push('.') + byte_chars(labels.last())
    }
}

/// The labels of the name encoded at `pos`. `seen` holds the targets of the
/// pointers followed so far and `used` the bytes that labels took so far.
pub open spec fn labels_at(msg: Seq<u8>, pos: int, seen: Seq<usize>, used: nat) -> Result<Seq<Seq<u8>>, DnsError>
    decreases MAX_POINTER_JUMPS - seen.len(), MAX_NAME_LEN - used,
{
    if !(0 <= pos < msg.len()) {
        Err(DnsError::TooShort)
    } else {
        let len = msg[pos];
        if len == 0 {
            Ok(Seq::empty())
        } else if len >= 192 {
            if pos + 1 >= msg.len() {
                Err(DnsError::TooShort)
            } else {
                let target = ((len - 192) * 256 + msg[pos + 1]) as usize;
                if seen.len() >= MAX_POINTER_JUMPS {
                    Err(DnsError::PointerLoop)
                } else if target >= msg.len() || seen.contains(target) {
                    Err(DnsError::PointerOutOfRange)
                } else {
                    labels_at(msg, target as int, seen.push(target), used)
                }
            }
        } else if len <= 63 {
            if pos + 1 + len > msg.len() {
                Err(DnsError::TooShort)
            } else if used + 1 + len > MAX_NAME_LEN {
                Err(DnsError::NameTooLong)
            } else {
                behind(
                    seq![msg.subrange(pos + 1, pos + 1 + len)],
                    labels_at(msg, pos + 1 + len, seen, used + 1 + len as nat),
                )
            }
        } else {
            Err(DnsError::BadLabel)
        }
    }
}

/// The labels `front` with those of `rest` behind them, or the error of `rest`.
pub open spec fn behind(front: Seq<Seq<u8>>, rest: Result<Seq<Seq<u8>>, DnsError>) -> Result<Seq<Seq<u8>>, DnsError> {
    match rest {
        Ok(labels) => Ok(front + labels),
        Err(e) => Err(e),
    }
}

/// The place just past the name encoded at `pos`: behind its terminating zero
/// or its first pointer.
pub open spec fn name_end(msg: Seq<u8>, pos: int) -> int
    decreases msg.len() - pos,
{
    if !(0 <= pos < msg.len()) {
        pos
    } else if msg[pos] == 0 {
        pos + 1
    } else if msg[pos] >= 192 {
        pos + 2
    } else if pos + 1 + msg[pos] > msg.len() {
        pos
    } else {
        name_end(msg, pos + 1 + msg[pos])
    }
}

/// The name encoded at `start`, normalized.
pub open spec fn name_at(msg: Seq<u8>, start: int) -> Result<Seq<char>, DnsError> {
    match labels_at(msg, start, Seq::empty(), 0) {
        Err(e) => Err(e),
        Ok(labels) => match normalized(dotted(labels)) {
            Some(s) => Ok(s),
            None => Err(DnsError::BadLabel),
        },
    }
}

fn has_place(v: &Vec<usize>, x: usize) -> (r: bool)
    ensures
        r == v@.contains(x),
{
    let mut i: usize = 0;
    while i < v.len()
        invariant
            i <= v.len(),
            forall|k: int| 0 <= k < i ==> v@[k] != x,
        decreases v.len() - i,
    {
        if v[i] == x {
            return true;
        }
        i += 1;
    }
    false
}

fn push_label(out: &mut Vec<char>, label: &[u8], Ghost(labels): Ghost<Seq<Seq<u8>>>)
    requires
        old(out)@ == dotted(labels),
        (old(out).len() == 0) == (labels.len() == 0),
        label.len() > 0,
    ensures
        final(out)@ == dotted(labels.push(label@)),
        final(out).len() > 0,
{
    if out.len() > 0 {
        out.push('.');
    }
    let ghost base = out@;
    let mut i: usize = 0;
    while i < label.len()
        invariant
            i <= label.len(),
            out@ == base + byte_chars(label@).take(i as int),
        decreases label.len() - i,
    {
        out.push(label[i] as char);
        i += 1;
        assert(out@ =~= base + byte_chars(label@).take(i as int));
    }
    proof {
        assert(byte_chars(label@).take(i as int) =~= byte_chars(label@));
        let all = labels.push(label@);
        assert(all.drop_last() =~= labels);
        if labels.len() == 0 {
            assert(base + byte_chars(label@) =~= byte_chars(label@));
        }
    }
}

proof fn behind_behind(a: Seq<Seq<u8>>, b: Seq<Seq<u8>>, r: Result<Seq<Seq<u8>>, DnsError>)
    ensures
        behind(a, behind(b, r)) == behind(a + b, r),
{
    if let Ok(labels) = r {
        assert(a + (b + labels) =~= a + b + labels);
    }
}

proof fn ok_labels_end(msg: Seq<u8>, pos: int, seen: Seq<usize>, used: nat)
    requires
        labels_at(msg, pos, seen, used) is Ok,
    ensures
        pos < name_end(msg, pos) <= msg.len(),
    decreases MAX_POINTER_JUMPS - seen.len(), MAX_NAME_LEN - used,
{
    let len = msg[pos];
    if 0 < len <= 63 {
        ok_labels_end(msg, pos + 1 + len, seen, used + 1 + len as nat);
    }
}

/// Decode a possibly compressed name that starts at `start`: the normalized
/// name and the place just past it as it is encoded at `start`.
pub fn decode_name(msg: &[u8], start: usize) -> (r: Result<(String, usize), DnsError>)
    ensures
        r matches Ok((name, end)) ==> name_at(msg@, start as int) == Ok::<Seq<char>, DnsError>(name@) && end == name_end(
            msg@,
            start as int,
        ) && start < end <= msg.len(),
        r matches Err(e) ==> name_at(msg@, start as int) == Err::<Seq<char>, DnsError>(e),
{
    let mut out: Vec<char> = Vec::new();
    let mut pos: usize = start;
    let mut after: Option<usize> = None;
    let mut visited: Vec<usize> = Vec::new();
    let mut total: usize = 0;
    let ghost mut labels: Seq<Seq<u8>> = Seq::empty();
    proof {
        let all = labels_at(msg@, start as int, Seq::empty(), 0);
        assert(behind(labels, all) == all) by {
            if let Ok(l) = all {
                assert(labels + l =~= l);
            }
        }
        assert(visited@ =~= Seq::empty());
    }
    loop
        invariant_except_break
            visited.len() <= MAX_POINTER_JUMPS,
            total <= MAX_NAME_LEN,
            after is None ==> name_end(msg@, pos as int) == name_end(msg@, start as int),
            after matches Some(a) ==> a == name_end(msg@, start as int),
        invariant
            out@ == dotted(labels),
            (out.len() == 0) == (labels.len() == 0),
            labels_at(msg@, start as int, Seq::empty(), 0) == behind(
                labels,
                labels_at(msg@, pos as int, visited@, total as nat),
            ),
        ensures
            pos < msg.len(),
            msg@[pos as int] == 0,
            after == Some(name_end(msg@, start as int) as usize),
            labels_at(msg@, start as int, Seq::empty(), 0) == Ok::<Seq<Seq<u8>>, DnsError>(labels),
            start < name_end(msg@, start as int) <= msg.len(),
        decreases MAX_POINTER_JUMPS - visited.len(), MAX_NAME_LEN - total,
    {
        if pos >= msg.len() {
            return Err(DnsError::TooShort);
        }
        let len = msg[pos];
        if len == 0 {
            if after.is_none() {
                after = Some(pos + 1);
            }
            proof {
                assert(labels + Seq::empty() =~= labels);
                ok_labels_end(msg@, start as int, Seq::empty(), 0);
            }
            break;
        } else if len >= 192 {
            if pos + 1 >= msg.len() {
                return Err(DnsError::TooShort);
            }
            let target: usize = (len as usize - 192) * 256 + msg[pos + 1] as usize;
            if after.is_none() {
                after = Some(pos + 2);
            }
            if visited.len() >= MAX_POINTER_JUMPS {
                return Err(DnsError::PointerLoop);
            }
            if target >= msg.len() || has_place(&visited, target) {
                return Err(DnsError::PointerOutOfRange);
            }
            visited.push(target);
            pos = target;
        } else if len <= 63 {
            if (len as usize) > msg.len() - pos - 1 {
                return Err(DnsError::TooShort);
            }
            if total + 1 + len as usize > MAX_NAME_LEN {
                return Err(DnsError::NameTooLong);
            }
            let end: usize = pos + 1 + len as usize;
            let label = slice_subrange(msg, pos + 1, end);
            push_label(&mut out, label, Ghost(labels));
            proof {
                behind_behind(
                    labels,
                    seq![label@],
                    labels_at(msg@, end as int, visited@, (total + 1 + len) as nat),
                );
                assert(labels + seq![label@] =~= labels.push(label@));
                labels = labels.push(label@);
            }
            total = total + 1 + len as usize;
            pos = end;
        } else {
            return Err(DnsError::BadLabel);
        }
    }
    let end: usize = match after {
        Some(a) => a,
        None => start,
    };
    match normalize_chars(&out) {
        Some(s) => Ok((string_of(&s), end)),
        None => Err(DnsError::BadLabel),
    }
}

/// A resource record of a message.
pub struct RecordView {
    pub owner: Seq<char>,
    pub rtype: u16,
    pub ttl: u32,
    pub rdata_off: int,
    pub rdata_len: int,
}

impl View for Record {
    type V = RecordView;

    open spec fn view(&self) -> RecordView {
        RecordView {
            owner: self.owner@,
            rtype: self.rtype,
            ttl: self.ttl,
            rdata_off: self.rdata_off as int,
            rdata_len: self.rdata_len as int,
        }
    }
}

/// The records that a vector of them stands for.
pub open spec fn record_views(v: Seq<Record>) -> Seq<RecordView> {
    Seq::new(v.len(), |i: int| v[i]@)
}

/// The place behind `n` questions that start at `pos`.
pub open spec fn questions_end(msg: Seq<u8>, pos: int, n: nat) -> Result<int, DnsError>
    decreases n,
{
    if n == 0 {
        Ok(pos)
    } else {
        match name_at(msg, pos) {
            Err(e) => Err(e),
            Ok(_) => if name_end(msg, pos) + 4 > msg.len() {
                Err(DnsError::TooShort)
            } else {
                questions_end(msg, name_end(msg, pos) + 4, (n - 1) as nat)
            },
        }
    }
}

/// The record that starts at `pos`.
pub open spec fn record_at(msg: Seq<u8>, pos: int) -> Result<RecordView, DnsError> {
    match name_at(msg, pos) {
        Err(e) => Err(e),
        Ok(owner) => {
            let at = name_end(msg, pos);
            if at + 10 > msg.len() {
                Err(DnsError::TooShort)
            } else {
                let rdata_len = be16(msg[at + 8], msg[at + 9]) as int;
                if at + 10 + rdata_len > msg.len() {
                    Err(DnsError::TooShort)
                } else {
                    Ok(
                        RecordView {
                            owner,
                            rtype: be16(msg[at], msg[at + 1]) as u16,
                            ttl: crate::net::be_value(msg.subrange(at + 4, at + 8)) as u32,
                            rdata_off: at + 10,
                            rdata_len,
                        },
                    )
                }
            }
        },
    }
}

/// The `n` records that start at `pos`, where `taken` came before them.
pub open spec fn records_at(msg: Seq<u8>, pos: int, n: nat, taken: nat) -> Result<Seq<RecordView>, DnsError>
    decreases n,
{
    if n == 0 {
        Ok(Seq::empty())
    } else if taken >= MAX_ANSWERS {
        Err(DnsError::TooManyRecords)
    } else {
        match record_at(msg, pos) {
            Err(e) => Err(e),
            Ok(rec) => match records_at(msg, rec.rdata_off + rec.rdata_len, (n - 1) as nat, taken + 1) {
                Err(e) => Err(e),
                Ok(rest) => Ok(seq![rec] + rest),
            },
        }
    }
}

/// The answer section of a response.
pub open spec fn answers_of(msg: Seq<u8>) -> Result<Seq<RecordView>, DnsError> {
    match header_of(msg) {
        None => Err(DnsError::TooShort),
        Some(h) => if !h.qr {
            Err(DnsError::NotAResponse)
        } else {
            match questions_end(msg, HEADER_LEN as int, h.qdcount as nat) {
                Err(e) => Err(e),
                Ok(pos) => records_at(msg, pos, h.ancount as nat, 0),
            }
        },
    }
}

/// Whether the data of a record lies within its message.
pub open spec fn within(msg: Seq<u8>, r: RecordView) -> bool {
    0 <= r.rdata_off && 0 <= r.rdata_len && r.rdata_off + r.rdata_len <= msg.len()
}

fn skip_questions(msg: &[u8], n: u16) -> (r: Result<usize, DnsError>)
    requires
        msg.len() >= HEADER_LEN,
    ensures
        r matches Ok(pos) ==> questions_end(msg@, HEADER_LEN as int, n as nat) == Ok::<int, DnsError>(pos as int) && pos
            <= msg.len(),
        r matches Err(e) ==> questions_end(msg@, HEADER_LEN as int, n as nat) == Err::<int, DnsError>(e),
{
    let mut pos: usize = HEADER_LEN;
    let mut left: u16 = n;
    while left > 0
        invariant
            pos <= msg.len(),
            questions_end(msg@, HEADER_LEN as int, n as nat) == questions_end(msg@, pos as int, left as nat),
        decreases left,
    {
        match decode_name(msg, pos) {
            Err(e) => {
                return Err(e);
            },
            Ok((_, next)) => {
                if msg.len() - next < 4 {
                    return Err(DnsError::TooShort);
                }
                pos = next + 4;
            },
        }
        left -= 1;
    }
    Ok(pos)
}

fn read_record(msg: &[u8], pos: usize) -> (r: Result<Record, DnsError>)
    ensures
        r matches Ok(rec) ==> record_at(msg@, pos as int) == Ok::<RecordView, DnsError>(rec@) && within(msg@, rec@),
        r matches Err(e) ==> record_at(msg@, pos as int) == Err::<RecordView, DnsError>(e),
{
    match decode_name(msg, pos) {
        Err(e) => Err(e),
        Ok((owner, at)) => {
            if msg.len() - at < 10 {
                return Err(DnsError::TooShort);
            }
            let rdata_len: usize = read16(msg, at + 8) as usize;
            if msg.len() - (at + 10) < rdata_len {
                return Err(DnsError::TooShort);
            }
            proof {
                crate::net::be_value_bound(msg@.subrange(at + 4, at + 8));
                assert(crate::net::pow256(4) == 0x1_0000_0000) by {
                    reveal_with_fuel(crate::net::pow256, 5);
                }
            }
            let ttl: u32 = be_number(slice_subrange(msg, at + 4, at + 8)) as u32;
            Ok(Record { owner, rtype: read16(msg, at), ttl, rdata_off: at + 10, rdata_len })
        },
    }
}

/// Parse the answer section of a response.
pub fn parse_answers(msg: &[u8]) -> (r: Result<Vec<Record>, DnsError>)
    ensures
        r matches Ok(v) ==> answers_of(msg@) == Ok::<Seq<RecordView>, DnsError>(record_views(v@)) && forall|i: int|
            0 <= i < v.len() ==> within(msg@, #[trigger] v@[i]@),
        r matches Err(e) ==> answers_of(msg@) == Err::<Seq<RecordView>, DnsError>(e),
{
    let hdr = match parse_header(msg) {
        Some(h) => h,
        None => {
            return Err(DnsError::TooShort);
        },
    };
    if !hdr.qr {
        return Err(DnsError::NotAResponse);
    }
    let mut pos: usize = match skip_questions(msg, hdr.qdcount) {
        Ok(p) => p,
        Err(e) => {
            return Err(e);
        },
    };
    let mut out: Vec<Record> = Vec::new();
    let mut left: u16 = hdr.ancount;
    proof {
        let all = records_at(msg@, pos as int, left as nat, 0);
        if let Ok(l) = all {
            assert(record_views(out@) + l =~= l);
        }
    }
    while left > 0
        invariant
            pos <= msg.len(),
            header_of(msg@) == Some(hdr),
            hdr.qr,
            answers_of(msg@) == (match records_at(msg@, pos as int, left as nat, out@.len()) {
                Err(e) => Err::<Seq<RecordView>, DnsError>(e),
                Ok(rest) => Ok(record_views(out@) + rest),
            }),
            forall|i: int| 0 <= i < out.len() ==> within(msg@, #[trigger] out@[i]@),
        decreases left,
    {
        if out.len() >= MAX_ANSWERS {
            return Err(DnsError::TooManyRecords);
        }
        match read_record(msg, pos) {
            Err(e) => {
                return Err(e);
            },
            Ok(rec) => {
                pos = rec.rdata_off + rec.rdata_len;
                let ghost before = out@;
                let ghost view = rec@;
                out.push(rec);
                proof {
                    assert(record_views(out@) =~= record_views(before).push(view));
                    if let Ok(rest) = records_at(msg@, pos as int, (left - 1) as nat, out@.len()) {
                        assert(record_views(before) + (seq![view] + rest) =~= record_views(out@) + rest);
                    }
                }
            },
        }
        left -= 1;
    }
    assert(record_views(out@) + Seq::empty() =~= record_views(out@));
    Ok(out)
}

/// The name that a query asks for first.
pub open spec fn asked_name(msg: Seq<u8>) -> Option<Seq<char>> {
    match header_of(msg) {
        None => None,
        Some(h) => if h.qr || h.qdcount == 0 {
            None
        } else {
            match name_at(msg, HEADER_LEN as int) {
                Err(_) => None,
                Ok(name) => if name_end(msg, HEADER_LEN as int) + 4 > msg.len() {
                    None
                } else {
                    Some(name)
                },
            }
        },
    }
}

/// Extract the normalized first question name from a DNS query.
pub fn query_name(msg: &[u8]) -> (r: Option<String>)
    ensures
        r matches Some(s) ==> asked_name(msg@) == Some(s@),
        r is None ==> asked_name(msg@) is None,
{
    let hdr = match parse_header(msg) {
        Some(h) => h,
        None => {
            return None;
        },
    };
    if hdr.qr || hdr.qdcount == 0 {
        return None;
    }
    match decode_name(msg, HEADER_LEN) {
        Err(_) => None,
        Ok((name, end)) => {
            if msg.len() - end < 4 {
                None
            } else {
                Some(name)
            }
        },
    }
}

/// The place of the first CNAME record of an owner, or the number of records
/// where there is none.
pub open spec fn cname_of(answers: Seq<RecordView>, owner: Seq<char>) -> int
    decreases answers.len(),
{
    if answers.len() == 0 || (answers[0].rtype == TYPE_CNAME && answers[0].owner == owner) {
        0
    } else {
        1 + cname_of(answers.skip(1), owner)
    }
}

/// The names that `chain` leads to through CNAME records. Nothing where a CNAME
/// record on the way holds no name.
pub open spec fn chain_from(msg: Seq<u8>, answers: Seq<RecordView>, chain: Seq<Seq<char>>) -> Option<Seq<Seq<char>>>
    decreases MAX_CNAME_CHAIN - chain.len(),
{
    let i = cname_of(answers, chain.last());
    if !(0 <= i < answers.len()) {
        Some(chain)
    } else {
        match name_at(msg, answers[i].rdata_off) {
            Err(_) => None,
            Ok(target) => if chain.len() >= MAX_CNAME_CHAIN || chain.contains(target) {
                Some(chain)
            } else {
                chain_from(msg, answers, chain.push(target))
            },
        }
    }
}

/// The address that a record holds.
pub open spec fn address_in(msg: Seq<u8>, r: RecordView) -> Option<IpAddr> {
    let data = msg.subrange(r.rdata_off, r.rdata_off + r.rdata_len);
    if r.rtype == TYPE_A && r.rdata_len == 4 {
        Some(IpAddr::V4(crate::net::be_value(data) as u32))
    } else if r.rtype == TYPE_AAAA && r.rdata_len == 16 {
        Some(IpAddr::V6(crate::net::be_value(data) as u128))
    } else {
        None
    }
}

/// The addresses that records hold for the names of a chain, in their order.
pub open spec fn addresses_for(msg: Seq<u8>, answers: Seq<RecordView>, chain: Seq<Seq<char>>) -> Seq<IpAddr>
    decreases answers.len(),
{
    if answers.len() == 0 {
        Seq::empty()
    } else {
        let front = addresses_for(msg, answers.drop_last(), chain);
        let r = answers.last();
        if chain.contains(r.owner) && address_in(msg, r) is Some {
            front.push(address_in(msg, r)->0)
        } else {
            front
        }
    }
}

/// The least time to live of the records that hold an address for a chain.
pub open spec fn least_ttl(msg: Seq<u8>, answers: Seq<RecordView>, chain: Seq<Seq<char>>) -> u32
    decreases answers.len(),
{
    if answers.len() == 0 {
        u32::MAX
    } else {
        let front = least_ttl(msg, answers.drop_last(), chain);
        let r = answers.last();
        if chain.contains(r.owner) && address_in(msg, r) is Some && r.ttl < front {
            r.ttl
        } else {
            front
        }
    }
}

/// A time to live within the bounds that an observation has.
pub open spec fn clamped_ttl(ttl: u32) -> u64 {
    if ttl < MIN_TTL_SECS {
        MIN_TTL_SECS
    } else if ttl > MAX_TTL_SECS {
        MAX_TTL_SECS
    } else {
        ttl as u64
    }
}

/// An observation: the domain, its addresses, and for how many seconds they
/// are fresh.
pub struct Observed {
    pub domain: Seq<char>,
    pub ips: Seq<IpAddr>,
    pub ttl_secs: u64,
}

impl View for DnsObservation {
    type V = Observed;

    open spec fn view(&self) -> Observed {
        Observed { domain: self.domain@, ips: self.ips@, ttl_secs: self.ttl_secs }
    }
}

/// What a response says of a queried domain.
pub open spec fn observed(query: Seq<char>, response: Seq<u8>) -> Option<Observed> {
    match (header_of(response), normalized(query), answers_of(response)) {
        (Some(h), Some(domain), Ok(answers)) => if !h.qr || h.tc || h.rcode != 0 {
            None
        } else {
            match chain_from(response, answers, seq![domain]) {
                None => None,
                Some(chain) => {
                    let ips = addresses_for(response, answers, chain);
                    if ips.len() == 0 {
                        None
                    } else {
                        Some(Observed { domain, ips, ttl_secs: clamped_ttl(least_ttl(response, answers, chain)) })
                    }
                },
            }
        },
        _ => None,
    }
}

fn find_cname(answers: &Vec<Record>, owner: &str) -> (r: usize)
    ensures
        r == cname_of(record_views(answers@), owner@),
        r <= answers.len(),
{
    let mut i: usize = 0;
    let ghost all = record_views(answers@);
    assert(all.skip(0) =~= all);
    while i < answers.len()
        invariant
            i <= answers.len(),
            all == record_views(answers@),
            cname_of(all, owner@) == i + cname_of(all.skip(i as int), owner@),
        decreases answers.len() - i,
    {
        assert(all.skip(i as int)[0] == answers@[i as int]@);
        if answers[i].rtype == TYPE_CNAME && crate::text::same_text(answers[i].owner.as_str(), owner) {
            return i;
        }
        assert(all.skip(i as int).skip(1) =~= all.skip(i as int + 1));
        i += 1;
    }
    i
}

fn name_chain(msg: &[u8], answers: &Vec<Record>, domain: &str) -> (r: Option<Vec<String>>)
    ensures
        r matches Some(v) ==> chain_from(msg@, record_views(answers@), seq![domain@]) == Some(
            crate::text::strings(v@),
        ),
        r is None ==> chain_from(msg@, record_views(answers@), seq![domain@]) is None,
{
    let mut chain: Vec<String> = Vec::new();
    chain.push(crate::text::owned(domain));
    assert(crate::text::strings(chain@) =~= seq![domain@]);
    loop
        invariant
            0 < chain.len() <= MAX_CNAME_CHAIN,
            chain_from(msg@, record_views(answers@), seq![domain@]) == chain_from(
                msg@,
                record_views(answers@),
                crate::text::strings(chain@),
            ),
        decreases MAX_CNAME_CHAIN - chain.len(),
    {
        let ghost names = crate::text::strings(chain@);
        let last = chain[chain.len() - 1].as_str();
        assert(names.last() == last@);
        let i = find_cname(answers, last);
        if i >= answers.len() {
            return Some(chain);
        }
        match decode_name(msg, answers[i].rdata_off) {
            Err(_) => {
                return None;
            },
            Ok((target, _)) => {
                if chain.len() >= MAX_CNAME_CHAIN || crate::text::list_has(&chain, target.as_str()) {
                    return Some(chain);
                }
                let ghost t = target@;
                chain.push(target);
                assert(crate::text::strings(chain@) =~= names.push(t));
            },
        }
    }
}

fn record_address(msg: &[u8], r: &Record) -> (ip: Option<IpAddr>)
    requires
        within(msg@, r@),
    ensures
        ip == address_in(msg@, r@),
{
    let size: usize = msg.len();
    assert(r.rdata_off + r.rdata_len <= size);
    let raw = slice_subrange(msg, r.rdata_off, r.rdata_off + r.rdata_len);
    if r.rtype == TYPE_A && r.rdata_len == 4 {
        proof {
            crate::net::be_value_bound(raw@);
            assert(crate::net::pow256(4) == 0x1_0000_0000) by {
                reveal_with_fuel(crate::net::pow256, 5);
            }
        }
        Some(IpAddr::V4(be_number(raw) as u32))
    } else if r.rtype == TYPE_AAAA && r.rdata_len == 16 {
        Some(IpAddr::V6(be_number(raw)))
    } else {
        None
    }
}

/// Extract a usable observation from a response for a queried domain.
///
/// There is none where the response is not a `NOERROR` answer, is truncated,
/// or holds no address for the queried name or its CNAME chain.
pub fn observe_response(query: &str, response: &[u8]) -> (r: Option<DnsObservation>)
    ensures
        r matches Some(o) ==> observed(query@, response@) == Some(o@),
        r is None ==> observed(query@, response@) is None,
{
    let hdr = match parse_header(response) {
        Some(h) => h,
        None => {
            return None;
        },
    };
    if !hdr.qr || hdr.tc || hdr.rcode != 0 {
        return None;
    }
    let domain = match normalize_domain(query) {
        Some(d) => d,
        None => {
            return None;
        },
    };
    let answers = match parse_answers(response) {
        Ok(v) => v,
        Err(_) => {
            return None;
        },
    };
    let chain = match name_chain(response, &answers, domain.as_str()) {
        Some(c) => c,
        None => {
            return None;
        },
    };
    let ghost all = record_views(answers@);
    let ghost names = crate::text::strings(chain@);
    let mut ips: Vec<IpAddr> = Vec::new();
    let mut ttl: u32 = u32::MAX;
    let mut i: usize = 0;
    while i < answers.len()
        invariant
            i <= answers.len(),
            all == record_views(answers@),
            names == crate::text::strings(chain@),
            forall|k: int| 0 <= k < answers.len() ==> within(response@, #[trigger] answers@[k]@),
            ips@ == addresses_for(response@, all.take(i as int), names),
            ttl == least_ttl(response@, all.take(i as int), names),
        decreases answers.len() - i,
    {
        let record = &answers[i];
        proof {
            assert(all.take(i as int + 1).drop_last() =~= all.take(i as int));
            assert(all.take(i as int + 1).last() == record@);
        }
        if crate::text::list_has(&chain, record.owner.as_str()) {
            if let Some(ip) = record_address(response, record) {
                ips.push(ip);
                if record.ttl < ttl {
                    ttl = record.ttl;
                }
            }
        }
        i += 1;
    }
    assert(all.take(i as int) =~= all);
    if ips.len() == 0 {
        return None;
    }
    let secs: u64 = ttl as u64;
    let ttl_secs: u64 = if secs < MIN_TTL_SECS {
        MIN_TTL_SECS
    } else if secs > MAX_TTL_SECS {
        MAX_TTL_SECS
    } else {
        secs
    };
    Some(DnsObservation { domain, ips, ttl_secs })
}

/// What a query and its response say.
pub open spec fn learned(query: Seq<u8>, response: Seq<u8>) -> Option<Observed> {
    match asked_name(query) {
        None => None,
        Some(name) => observed(name, response),
    }
}

/// A registry with an observation recorded in it at a time.
pub open spec fn recorded(
    registry: Map<Seq<char>, Resolution>,
    seen: Option<Observed>,
    now_ms: u64,
) -> Map<Seq<char>, Resolution> {
    match seen {
        None => registry,
        Some(o) => registry.insert(
            crate::text::ascii_lower(o.domain),
            Resolution {
                ips: o.ips,
                expires_ms: Some(crate::reconciliation::dns_flow::expiry(now_ms, (o.ttl_secs * 1000) as u64)),
            },
        ),
    }
}

/// Parse a forwarded query and its response and record what they say.
/// Returns whether anything was recorded.
pub fn ingest(registry: &mut DnsRegistry, query: &[u8], response: &[u8], now_ms: u64) -> (r: bool)
    ensures
        r == (learned(query@, response@) is Some),
        final(registry)@ == recorded(old(registry)@, learned(query@, response@), now_ms),
        learned(query@, response@) matches Some(o) ==> (now_ms + 1000 * o.ttl_secs <= u64::MAX ==> forall|t: u64|
            #[trigger] final(registry).known(o.domain, t) == if t < now_ms + 1000 * o.ttl_secs {
                Some(o.ips)
            } else {
                None
            }),
        !r ==> final(registry)@ == old(registry)@,
{
    let name = match query_name(query) {
        Some(n) => n,
        None => {
            return false;
        },
    };
    match observe_response(name.as_str(), response) {
        None => false,
        Some(obs) => {
            proof {
                observed_is_fresh(name@, response@);
            }
            registry.insert_with_ttl(obs.domain.as_str(), obs.ips, obs.ttl_secs * 1000, now_ms);
            true
        },
    }
}

/// Every observation has an address, and is fresh for at least a minute and at
/// most an hour.
pub proof fn observed_is_fresh(query: Seq<char>, response: Seq<u8>)
    ensures
        observed(query, response) matches Some(o) ==> o.ips.len() > 0 && MIN_TTL_SECS <= o.ttl_secs <= MAX_TTL_SECS,
{
}

/// A response that is not an answer, is cut short, or reports an error is
/// never observed.
pub proof fn only_whole_answers_are_observed(query: Seq<char>, response: Seq<u8>)
    requires
        header_of(response) matches Some(h) ==> !h.qr || h.tc || h.rcode != 0,
    ensures
        observed(query, response) is None,
{
}

/// An observation is for the domain that was asked for, in its normal form.
pub proof fn observation_is_for_the_query(query: Seq<char>, response: Seq<u8>)
    ensures
        observed(query, response) matches Some(o) ==> normalized(query) == Some(o.domain),
{
}

proof fn ttl_of_equals(msg: Seq<u8>, answers: Seq<RecordView>, chain: Seq<Seq<char>>, ttl: u32)
    requires
        forall|i: int|
            0 <= i < answers.len() && ((#[trigger] answers[i]).rtype == 1 || answers[i].rtype == 28)
                ==> answers[i].ttl == ttl,
    ensures
        addresses_for(msg, answers, chain).len() > 0 ==> least_ttl(msg, answers, chain) == ttl,
        addresses_for(msg, answers, chain).len() == 0 ==> least_ttl(msg, answers, chain) == u32::MAX,
    decreases answers.len(),
{
    if answers.len() > 0 {
        let front = answers.drop_last();
        assert forall|i: int|
            0 <= i < front.len() && ((#[trigger] front[i]).rtype == 1 || front[i].rtype == 28) implies front[i].ttl
            == ttl by {
            assert(answers[i] == front[i]);
        }
        ttl_of_equals(msg, front, chain, ttl);
        assert(answers[answers.len() - 1] == answers.last());
    }
}

/// What is recorded of a response whose address records all live for `ttl`
/// seconds, between a minute and an hour, is known at every moment before
/// `now_ms + 1000 * ttl`, and not from then on.
pub proof fn recorded_addresses_live_as_long_as_their_records(
    registry: Map<Seq<char>, Resolution>,
    query: Seq<u8>,
    response: Seq<u8>,
    now_ms: u64,
    ttl: u32,
    t: u64,
)
    requires
        answers_of(response) is Ok,
        forall|i: int|
            0 <= i < answers_of(response)->Ok_0.len() && ((#[trigger] answers_of(response)->Ok_0[i]).rtype == 1
                || answers_of(response)->Ok_0[i].rtype == 28) ==> answers_of(response)->Ok_0[i].ttl == ttl,
        60 <= ttl <= 3600,
        now_ms + 1000 * ttl <= u64::MAX,
        learned(query, response) is Some,
    ensures
        ({
            let seen = learned(query, response)->0;
            let after = recorded(registry, learned(query, response), now_ms);
            let key = crate::text::ascii_lower(seen.domain);
            &&& seen.ttl_secs == ttl
            &&& after.contains_key(key)
            &&& after[key].ips == seen.ips
            &&& after[key].expires_ms is Some
            &&& after[key].fresh(t) <==> t < now_ms + 1000 * ttl
            &&& forall|other: Seq<char>|
                other != key ==> (#[trigger] after.contains_key(other) <==> registry.contains_key(other))
                    && after[other] == registry[other]
        }),
{
    let answers = answers_of(response)->Ok_0;
    let name = asked_name(query)->0;
    let domain = normalized(name)->0;
    let chain = chain_from(response, answers, seq![domain])->0;
    ttl_of_equals(response, answers, chain, ttl);
}

/// Nothing is recorded of a response that says nothing.
pub proof fn silence_is_not_recorded(registry: Map<Seq<char>, Resolution>, now_ms: u64)
    ensures
        recorded(registry, None, now_ms) == registry,
{
}

proof fn least_of_the_addresses(msg: Seq<u8>, answers: Seq<RecordView>, chain: Seq<Seq<char>>)
    ensures
        forall|i: int|
            0 <= i < answers.len() && chain.contains((#[trigger] answers[i]).owner) && address_in(msg, answers[i]) is Some
                ==> least_ttl(msg, answers, chain) <= answers[i].ttl,
        addresses_for(msg, answers, chain).len() > 0 ==> exists|i: int|
            0 <= i < answers.len() && chain.contains((#[trigger] answers[i]).owner) && address_in(msg, answers[i]) is Some
                && least_ttl(msg, answers, chain) == answers[i].ttl,
        addresses_for(msg, answers, chain).len() == 0 ==> least_ttl(msg, answers, chain) == u32::MAX,
    decreases answers.len(),
{
    if answers.len() > 0 {
        let front = answers.drop_last();
        least_of_the_addresses(msg, front, chain);
        assert forall|i: int| 0 <= i < front.len() implies #[trigger] front[i] == answers[i] by {}
        assert(answers[answers.len() - 1] == answers.last());
        assert forall|i: int|
            0 <= i < answers.len() && chain.contains((#[trigger] answers[i]).owner) && address_in(msg, answers[i]) is Some
            implies least_ttl(msg, answers, chain) <= answers[i].ttl by {
            if i < front.len() {
                assert(front[i] == answers[i]);
            }
        }
        if addresses_for(msg, front, chain).len() > 0 {
            let i = choose|i: int|
                0 <= i < front.len() && chain.contains((#[trigger] front[i]).owner) && address_in(msg, front[i]) is Some
                    && least_ttl(msg, front, chain) == front[i].ttl;
            assert(answers[i] == front[i]);
        }
    }
}

/// An observation is fresh for the shortest time that any of its address
/// records lives, but never for less than a minute or more than an hour.
pub proof fn the_shortest_record_decides(query: Seq<char>, response: Seq<u8>)
    requires
        observed(query, response) is Some,
    ensures
        ({
            let answers = answers_of(response)->Ok_0;
            let chain = chain_from(response, answers, seq![normalized(query)->0])->0;
            let seen = observed(query, response)->0;
            &&& forall|i: int|
                0 <= i < answers.len() && chain.contains((#[trigger] answers[i]).owner) && address_in(
                    response,
                    answers[i],
                ) is Some ==> seen.ttl_secs <= answers[i].ttl || seen.ttl_secs == 60
            &&& exists|i: int|
                0 <= i < answers.len() && chain.contains((#[trigger] answers[i]).owner) && address_in(
                    response,
                    answers[i],
                ) is Some && (seen.ttl_secs == answers[i].ttl || seen.ttl_secs == 60 && answers[i].ttl < 60
                    || seen.ttl_secs == 3600 && answers[i].ttl > 3600)
        }),
{
    let answers = answers_of(response)->Ok_0;
    let chain = chain_from(response, answers, seq![normalized(query)->0])->0;
    least_of_the_addresses(response, answers, chain);
}

proof fn addresses_are_those_of_the_chain(msg: Seq<u8>, answers: Seq<RecordView>, chain: Seq<Seq<char>>, ip: IpAddr)
    ensures
        addresses_for(msg, answers, chain).contains(ip) <==> exists|i: int|
            0 <= i < answers.len() && chain.contains((#[trigger] answers[i]).owner) && address_in(msg, answers[i])
                == Some(ip),
        addresses_for(msg, answers, chain).len() <= answers.len(),
    decreases answers.len(),
{
    if answers.len() > 0 {
        let front = answers.drop_last();
        let last = answers.last();
        addresses_are_those_of_the_chain(msg, front, chain, ip);
        assert(answers[answers.len() - 1] == last);
        if address_in(msg, last) is Some {
            crate::seqs::contains_after_push(addresses_for(msg, front, chain), address_in(msg, last)->0, ip);
        }
        assert forall|i: int| 0 <= i < front.len() implies #[trigger] front[i] == answers[i] by {}
        if exists|i: int|
            0 <= i < answers.len() && chain.contains((#[trigger] answers[i]).owner) && address_in(msg, answers[i])
                == Some(ip) {
            let i = choose|i: int|
                0 <= i < answers.len() && chain.contains((#[trigger] answers[i]).owner) && address_in(msg, answers[i])
                    == Some(ip);
            if i < front.len() {
                assert(front[i] == answers[i]);
            }
        }
        if addresses_for(msg, front, chain).contains(ip) {
            let i = choose|i: int|
                0 <= i < front.len() && chain.contains((#[trigger] front[i]).owner) && address_in(msg, front[i])
                    == Some(ip);
            assert(answers[i] == front[i]);
        }
    }
}

/// An observation holds exactly the addresses that some record holds for the
/// queried domain, or for a name that the domain leads to.
pub proof fn observed_addresses_are_those_of_the_records(query: Seq<char>, response: Seq<u8>, ip: IpAddr)
    requires
        observed(query, response) is Some,
    ensures
        observed(query, response)->0.ips.contains(ip) <==> exists|i: int|
            0 <= i < answers_of(response)->Ok_0.len() && chain_from(
                response,
                answers_of(response)->Ok_0,
                seq![normalized(query)->0],
            )->0.contains((#[trigger] answers_of(response)->Ok_0[i]).owner) && address_in(
                response,
                answers_of(response)->Ok_0[i],
            ) == Some(ip),
{
    let answers = answers_of(response)->Ok_0;
    let chain = chain_from(response, answers, seq![normalized(query)->0])->0;
    addresses_are_those_of_the_chain(response, answers, chain, ip);
}

/// A record of type 1 with four bytes holds the IPv4 address that they spell in
/// network order; one of type 28 with sixteen bytes an IPv6 address; no other
/// record holds an address.
pub proof fn which_records_hold_addresses(msg: Seq<u8>, r: RecordView)
    requires
        within(msg, r),
    ensures
        r.rtype == 1 && r.rdata_len == 4 ==> address_in(msg, r) == Some(
            IpAddr::V4(
                (msg[r.rdata_off] * 16777216 + msg[r.rdata_off + 1] * 65536 + msg[r.rdata_off + 2] * 256
                    + msg[r.rdata_off + 3]) as u32,
            ),
        ),
        r.rtype == 28 && r.rdata_len == 16 ==> address_in(msg, r) is Some && address_in(msg, r)->0 is V6,
        address_in(msg, r) is Some <==> r.rtype == 1 && r.rdata_len == 4 || r.rtype == 28 && r.rdata_len == 16,
{
    if r.rtype == 1 && r.rdata_len == 4 {
        let data = msg.subrange(r.rdata_off, r.rdata_off + r.rdata_len);
        four_bytes(data);
    }
}

/// Four bytes in network order.
pub proof fn four_bytes(data: Seq<u8>)
    requires
        data.len() == 4,
    ensures
        crate::net::be_value(data) == data[0] * 16777216 + data[1] * 65536 + data[2] * 256 + data[3],
{
    reveal_with_fuel(crate::net::be_value, 5);
    let d3 = data.drop_last();
    let d2 = d3.drop_last();
    let d1 = d2.drop_last();
    assert(d1.drop_last().len() == 0);
    assert(d1.last() == data[0] && d2.last() == data[1] && d3.last() == data[2]);
}

/// Whether a CNAME record of one name holds another.
pub open spec fn leads_to(msg: Seq<u8>, answers: Seq<RecordView>, from: Seq<char>, to: Seq<char>) -> bool {
    exists|j: int|
        0 <= j < answers.len() && (#[trigger] answers[j]).rtype == 5 && answers[j].owner == from && name_at(
            msg,
            answers[j].rdata_off,
        ) == Ok::<Seq<char>, DnsError>(to)
}

/// The names that a domain leads to begin with the domain. Each one after it is
/// what a CNAME record of the one before it holds, and none occurs twice. There
/// are at most eight.
pub proof fn chains_follow_cname_records(msg: Seq<u8>, answers: Seq<RecordView>, chain: Seq<Seq<char>>)
    requires
        0 < chain.len() <= 8,
        chain.no_duplicates(),
    ensures
        chain_from(msg, answers, chain) matches Some(c) ==> {
            &&& chain.len() <= c.len() <= 8
            &&& c.no_duplicates()
            &&& forall|k: int| 0 <= k < chain.len() ==> c[k] == #[trigger] chain[k]
            &&& forall|k: int|
                chain.len() <= k < c.len() ==> leads_to(msg, answers, c[k - 1], #[trigger] c[k])
            &&& c.len() == 8 || (forall|j: int|
                0 <= j < answers.len() && (#[trigger] answers[j]).rtype == 5 ==> answers[j].owner != c.last())
                || exists|to: Seq<char>| c.contains(to) && #[trigger] leads_to(msg, answers, c.last(), to)
        },
    decreases 8 - chain.len(),
{
    let i = cname_of(answers, chain.last());
    first_cname(answers, chain.last());
    if 0 <= i < answers.len() {
        match name_at(msg, answers[i].rdata_off) {
            Ok(target) => {
                if chain.len() < 8 && !chain.contains(target) {
                    let next = chain.push(target);
                    assert forall|a: int, b: int| 0 <= a < next.len() && 0 <= b < next.len() && a != b implies next[a]
                        != next[b] by {
                        if a == chain.len() {
                            assert(chain.contains(chain[b]));
                        }
                        if b == chain.len() {
                            assert(chain.contains(chain[a]));
                        }
                    }
                    chains_follow_cname_records(msg, answers, next);
                    if let Some(c) = chain_from(msg, answers, next) {
                        assert forall|k: int| 0 <= k < chain.len() implies c[k] == #[trigger] chain[k] by {
                            assert(next[k] == chain[k]);
                        }
                        assert forall|k: int| chain.len() <= k < c.len() implies leads_to(
                            msg,
                            answers,
                            c[k - 1],
                            #[trigger] c[k],
                        ) by {
                            if k == chain.len() {
                                assert(next[k] == target);
                                assert(next[k - 1] == chain.last());
                                assert(c[k] == next[k] && c[k - 1] == next[k - 1]);
                                assert(answers[i].rtype == 5);
                            }
                        }
                    }
                } else {
                    assert(answers[i].rtype == 5);
                    assert(leads_to(msg, answers, chain.last(), target));
                }
            },
            Err(_) => {},
        }
    }
}

proof fn first_cname(answers: Seq<RecordView>, owner: Seq<char>)
    ensures
        0 <= cname_of(answers, owner) <= answers.len(),
        cname_of(answers, owner) < answers.len() ==> answers[cname_of(answers, owner)].rtype == 5
            && answers[cname_of(answers, owner)].owner == owner,
        forall|j: int|
            0 <= j < cname_of(answers, owner) ==> !((#[trigger] answers[j]).rtype == 5 && answers[j].owner == owner),
    decreases answers.len(),
{
    if answers.len() > 0 && !(answers[0].rtype == TYPE_CNAME && answers[0].owner == owner) {
        let rest = answers.skip(1);
        first_cname(rest, owner);
        assert forall|j: int| 0 <= j < cname_of(answers, owner) implies !((#[trigger] answers[j]).rtype == 5
            && answers[j].owner == owner) by {
            if j > 0 {
                assert(rest[j - 1] == answers[j]);
            }
        }
    }
}

/// A name as it stands in a message: each label behind its length, and a zero
/// at the end.
pub open spec fn wire_name(labels: Seq<Seq<u8>>) -> Seq<u8>
    decreases labels.len(),
{
    if labels.len() == 0 {
        seq![0u8]
    } else {
        seq![labels[0].len() as u8] + labels[0] + wire_name(labels.skip(1))
    }
}

proof fn reading_labels(msg: Seq<u8>, pos: int, labels: Seq<Seq<u8>>, seen: Seq<usize>, used: nat)
    requires
        0 <= pos,
        pos + wire_name(labels).len() <= msg.len(),
        msg.subrange(pos, pos + wire_name(labels).len()) == wire_name(labels),
        forall|i: int| 0 <= i < labels.len() ==> 0 < (#[trigger] labels[i]).len() <= 63,
        used + wire_name(labels).len() <= 256,
    ensures
        labels_at(msg, pos, seen, used) == Ok::<Seq<Seq<u8>>, DnsError>(labels),
        name_end(msg, pos) == pos + wire_name(labels).len(),
    decreases labels.len(),
{
    let wire = wire_name(labels);
    let here = msg.subrange(pos, pos + wire.len());
    if labels.len() == 0 {
        assert(here[0] == msg[pos]);
        assert(wire[0] == 0);
        assert(labels =~= Seq::<Seq<u8>>::empty());
    } else {
        let first = labels[0];
        let rest = labels.skip(1);
        let tail = wire_name(rest);
        assert(tail.len() >= 1) by {
            reveal_with_fuel(wire_name, 2);
        }
        assert(wire == seq![first.len() as u8] + first + tail);
        assert(here[0] == msg[pos] && wire[0] == first.len() as u8);
        assert forall|i: int| 0 <= i < rest.len() implies 0 < (#[trigger] rest[i]).len() <= 63 by {
            assert(rest[i] == labels[i + 1]);
        }
        let next = pos + 1 + first.len();
        assert(msg.subrange(next, next + tail.len()) =~= tail) by {
            assert forall|k: int| 0 <= k < tail.len() implies msg[next + k] == #[trigger] tail[k] by {
                assert(here[1 + first.len() + k] == msg[next + k]);
                assert(wire[1 + first.len() + k] == tail[k]);
            }
        }
        assert(msg.subrange(pos + 1, next) =~= first) by {
            assert forall|k: int| 0 <= k < first.len() implies msg[pos + 1 + k] == #[trigger] first[k] by {
                assert(here[1 + k] == msg[pos + 1 + k]);
                assert(wire[1 + k] == first[k]);
            }
        }
        reading_labels(msg, next, rest, seen, used + 1 + first.len());
        assert(seq![first] + rest =~= labels);
    }
}

/// A name that was written into a message label by label is read back as those
/// labels, wherever it stands, and what follows it is found behind it.
pub proof fn written_names_are_read_back(msg: Seq<u8>, pos: int, labels: Seq<Seq<u8>>)
    requires
        0 <= pos,
        pos + wire_name(labels).len() <= msg.len(),
        msg.subrange(pos, pos + wire_name(labels).len()) == wire_name(labels),
        forall|i: int| 0 <= i < labels.len() ==> 0 < (#[trigger] labels[i]).len() <= 63,
        wire_name(labels).len() <= 256,
    ensures
        labels_at(msg, pos, Seq::empty(), 0) == Ok::<Seq<Seq<u8>>, DnsError>(labels),
        name_end(msg, pos) == pos + wire_name(labels).len(),
        normalized(dotted(labels)) is Some ==> name_at(msg, pos) == Ok::<Seq<char>, DnsError>(
            normalized(dotted(labels))->0,
        ),
        normalized(dotted(labels)) is None ==> name_at(msg, pos) is Err,
{
    reading_labels(msg, pos, labels, Seq::empty(), 0);
}

/// A pointer to a name that was written into a message is read as that name,
/// and what follows it is found two bytes on.
pub proof fn pointers_lead_to_names(msg: Seq<u8>, pos: int, target: int, labels: Seq<Seq<u8>>)
    requires
        0 <= pos,
        pos + 2 <= msg.len(),
        0 <= target < 16384,
        msg[pos] == 192 + target / 256,
        msg[pos + 1] == target % 256,
        target + wire_name(labels).len() <= msg.len(),
        msg.subrange(target, target + wire_name(labels).len()) == wire_name(labels),
        forall|i: int| 0 <= i < labels.len() ==> 0 < (#[trigger] labels[i]).len() <= 63,
        wire_name(labels).len() <= 256,
    ensures
        labels_at(msg, pos, Seq::empty(), 0) == Ok::<Seq<Seq<u8>>, DnsError>(labels),
        name_end(msg, pos) == pos + 2,
{
    assert(wire_name(labels).len() >= 1) by {
        reveal_with_fuel(wire_name, 2);
    }
    reading_labels(msg, target, labels, Seq::empty().push(target as usize), 0);
}

/// A record is read from the ten bytes behind its owner, in network order: its
/// type, its class, how long it lives, and how long its data is. The data
/// follows at once.
pub proof fn records_are_read_in_network_order(msg: Seq<u8>, pos: int)
    requires
        record_at(msg, pos) is Ok,
    ensures
        ({
            let r = record_at(msg, pos)->Ok_0;
            let at = name_end(msg, pos);
            &&& name_at(msg, pos) == Ok::<Seq<char>, DnsError>(r.owner)
            &&& at + 10 <= msg.len()
            &&& r.rtype == msg[at] * 256 + msg[at + 1]
            &&& 0 <= at ==> r.ttl == msg[at + 4] * 16777216 + msg[at + 5] * 65536 + msg[at + 6] * 256 + msg[at + 7]
            &&& r.rdata_len == msg[at + 8] * 256 + msg[at + 9]
            &&& r.rdata_off == at + 10
            &&& r.rdata_off + r.rdata_len <= msg.len()
        }),
{
    let at = name_end(msg, pos);
    if 0 <= at {
        four_bytes(msg.subrange(at + 4, at + 8));
    }
}

/// A record whose name and data lie within the message is read.
pub proof fn whole_records_are_read(msg: Seq<u8>, pos: int)
    requires
        name_at(msg, pos) is Ok,
        name_end(msg, pos) + 10 <= msg.len(),
        name_end(msg, pos) + 10 + msg[name_end(msg, pos) + 8] * 256 + msg[name_end(msg, pos) + 9] <= msg.len(),
    ensures
        record_at(msg, pos) is Ok,
{
}

/// The header is read bit by bit: whether it is a response, whether it is cut
/// short, how it was answered, and how many questions and answers follow.
pub proof fn headers_are_read(msg: Seq<u8>)
    requires
        msg.len() >= 12,
    ensures
        header_of(msg) is Some,
        header_of(msg)->0.qr <==> msg[2] & 0x80 != 0,
        header_of(msg)->0.tc <==> msg[2] & 0x02 != 0,
        header_of(msg)->0.rcode == msg[3] & 0x0f,
        header_of(msg)->0.qdcount == msg[4] * 256 + msg[5],
        header_of(msg)->0.ancount == msg[6] * 256 + msg[7],
{
    let a = msg[2];
    let b = msg[3];
    assert((a >= 128) == (a & 0x80 != 0)) by (bit_vector);
    assert(((a / 2) % 2 == 1) == (a & 0x02 != 0)) by (bit_vector);
    assert(b % 16 == b & 0x0f) by (bit_vector);
}

/// A query that asks for a name, written label by label behind its header, asks
/// for that name in its normal form; a response asks for nothing.
pub proof fn queries_ask_for_the_name_they_hold(msg: Seq<u8>, labels: Seq<Seq<u8>>)
    requires
        12 + wire_name(labels).len() + 4 <= msg.len(),
        msg.subrange(12, 12int + wire_name(labels).len()) == wire_name(labels),
        forall|i: int| 0 <= i < labels.len() ==> 0 < (#[trigger] labels[i]).len() <= 63,
        wire_name(labels).len() <= 256,
    ensures
        msg[2] < 128 && msg[4] * 256 + msg[5] > 0 ==> asked_name(msg) == normalized(dotted(labels)),
        msg[2] >= 128 || msg[4] * 256 + msg[5] == 0 ==> asked_name(msg) is None,
{
    written_names_are_read_back(msg, 12, labels);
}

/// The answers of a response are as many as its header counts, each one read
/// behind the one before it.
pub proof fn answers_stand_one_behind_another(msg: Seq<u8>, pos: int, n: nat, taken: nat)
    requires
        records_at(msg, pos, n, taken) is Ok,
    ensures
        ({
            let all = records_at(msg, pos, n, taken)->Ok_0;
            &&& all.len() == n
            &&& n > 0 ==> record_at(msg, pos) == Ok::<RecordView, DnsError>(all[0])
            &&& forall|i: int|
                0 < i < all.len() ==> record_at(msg, all[i - 1].rdata_off + all[i - 1].rdata_len) == Ok::<
                    RecordView,
                    DnsError,
                >(#[trigger] all[i])
            &&& n > 0 ==> n + taken <= 2048
        }),
    decreases n,
{
    if n > 0 {
        let first = record_at(msg, pos)->Ok_0;
        let next = first.rdata_off + first.rdata_len;
        answers_stand_one_behind_another(msg, next, (n - 1) as nat, taken + 1);
        let rest = records_at(msg, next, (n - 1) as nat, taken + 1)->Ok_0;
        let all = records_at(msg, pos, n, taken)->Ok_0;
        assert(all == seq![first] + rest);
        assert forall|i: int| 0 < i < all.len() implies record_at(
            msg,
            all[i - 1].rdata_off + all[i - 1].rdata_len,
        ) == Ok::<RecordView, DnsError>(#[trigger] all[i]) by {
            assert(all[i] == rest[i - 1]);
            if i > 1 {
                assert(all[i - 1] == rest[i - 2]);
            }
        }
    }
}

/// The normal form of a name has no upper-case letter and no dot at its end, is
/// not empty, and is at most 255 characters long; whether a name is written in
/// upper or lower case, or with a dot at its end, makes no difference.
pub proof fn normal_forms(name: Seq<char>)
    ensures
        normalized(name) matches Some(s) ==> 0 < s.len() <= 255 && s.last() != '.' && s[0] != '.' && forall|i: int|
            0 <= i < s.len() ==> !('A' <= #[trigger] s[i] <= 'Z'),
        normalized(name.push('.')) == normalized(name),
        normalized(crate::text::ascii_lower(name)) == normalized(name),
{
    assert(name.push('.').drop_last() =~= name);
    lower_without_dots(name);
    crate::text::ascii_lower_idempotent(without_dots(name));
}

/// Lower case and trailing dots have nothing to do with each other.
pub proof fn lower_without_dots(s: Seq<char>)
    ensures
        without_dots(crate::text::ascii_lower(s)) == crate::text::ascii_lower(without_dots(s)),
    decreases s.len(),
{
    let lower = crate::text::ascii_lower(s);
    if s.len() > 0 {
        assert(lower.last() == '.' <==> s.last() == '.');
        assert(lower.drop_last() =~= crate::text::ascii_lower(s.drop_last()));
        lower_without_dots(s.drop_last());
    }
}

/// The answers of a response with one question stand behind the question, as
/// many as its header counts; what is no response has no answers.
pub proof fn answers_stand_behind_the_question(msg: Seq<u8>, labels: Seq<Seq<u8>>)
    requires
        12 + wire_name(labels).len() + 4 <= msg.len(),
        msg.subrange(12, 12int + wire_name(labels).len()) == wire_name(labels),
        forall|i: int| 0 <= i < labels.len() ==> 0 < (#[trigger] labels[i]).len() <= 63,
        wire_name(labels).len() <= 256,
        normalized(dotted(labels)) is Some,
        msg[4] == 0 && msg[5] == 1,
    ensures
        msg[2] >= 128 ==> answers_of(msg) == records_at(
            msg,
            16int + wire_name(labels).len(),
            (msg[6] * 256 + msg[7]) as nat,
            0,
        ),
        msg[2] < 128 ==> answers_of(msg) == Err::<Seq<RecordView>, DnsError>(DnsError::NotAResponse),
{
    written_names_are_read_back(msg, 12, labels);
    reveal_with_fuel(questions_end, 2);
}

/// A whole answer without error that has an address for the very domain that was
/// asked for, and no other name for it, is observed, and that address with it.
pub proof fn direct_answers_are_observed(query: Seq<char>, response: Seq<u8>, i: int)
    requires
        response.len() >= 12,
        response[2] >= 128,
        (response[2] / 2) % 2 == 0,
        response[3] % 16 == 0,
        normalized(query) is Some,
        answers_of(response) is Ok,
        0 <= i < answers_of(response)->Ok_0.len(),
        answers_of(response)->Ok_0[i].owner == normalized(query)->0,
        address_in(response, answers_of(response)->Ok_0[i]) is Some,
        forall|j: int|
            0 <= j < answers_of(response)->Ok_0.len() && (#[trigger] answers_of(response)->Ok_0[j]).rtype == 5
                ==> answers_of(response)->Ok_0[j].owner != normalized(query)->0,
    ensures
        observed(query, response) is Some,
        observed(query, response)->0.domain == normalized(query)->0,
        observed(query, response)->0.ips.contains(address_in(response, answers_of(response)->Ok_0[i])->0),
{
    let answers = answers_of(response)->Ok_0;
    let domain = normalized(query)->0;
    let chain = seq![domain];
    first_cname(answers, domain);
    assert(chain.last() == domain);
    assert(chain[0] == domain);
    assert(chain_from(response, answers, chain) == Some(chain));
    let ip = address_in(response, answers[i])->0;
    addresses_are_those_of_the_chain(response, answers, chain, ip);
    assert(chain.contains(answers[i].owner));
    assert(addresses_for(response, answers, chain).contains(ip));
}

} // verus!
