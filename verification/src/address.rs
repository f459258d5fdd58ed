//! Parsing of operator-entered monitoring targets.
//!
//! A target line has the shape `host:port`: the host must be an IPv4
//! address in dotted-decimal form, the port an unsigned 16-bit number.
//! A port of 0, or one that does not parse, falls back to the default
//! port 443 with a warning rather than an error.  Input ends on an
//! empty line or the token `done` (case-insensitive).

use vstd::prelude::*;
use crate::scan::{
    all_digits, ascii_lower, ascii_lower_x, dec_val, is_digit, is_digit_x, is_space,
    lemma_dec_val_prefix, split_by, split_bytes, trim, trimmed,
};

verus! {

/// Port used when the entered port is 0 or does not parse.
pub const DEFAULT_PORT: u16 = 443;

/// An IPv4 host address, one field per dotted-decimal octet.
#[derive(Clone, Copy, PartialEq, Eq, Structural, Debug)]
pub struct HostV4 {
    pub o0: u8,
    pub o1: u8,
    pub o2: u8,
    pub o3: u8,
}

/// A network endpoint to probe for TCP reachability.
#[derive(Clone, Copy, PartialEq, Eq, Structural, Debug)]
pub struct Endpoint {
    pub host: HostV4,
    pub port: u16,
}

/// One dotted-decimal octet: one to three digits, no leading zero
/// (except the single digit 0), value at most 255.
pub open spec fn is_octet(s: Seq<u8>) -> bool {
    1 <= s.len() <= 3 && all_digits(s) && (s.len() == 1 || s[0] != 48) && dec_val(s) <= 255
}

/// A dotted-decimal IPv4 address: exactly four octets separated by dots.
pub open spec fn is_ipv4(s: Seq<u8>) -> bool {
    let ps = split_by(s, 46);
    ps.len() == 4 && is_octet(ps[0]) && is_octet(ps[1]) && is_octet(ps[2]) && is_octet(ps[3])
}

/// The host named by a valid dotted-decimal IPv4 address.
pub open spec fn ipv4_of(s: Seq<u8>) -> HostV4 {
    let ps = split_by(s, 46);
    HostV4 {
        o0: dec_val(ps[0]) as u8,
        o1: dec_val(ps[1]) as u8,
        o2: dec_val(ps[2]) as u8,
        o3: dec_val(ps[3]) as u8,
    }
}

/// The digit run of a port numeral: an optional leading `+` is
/// allowed, as standard `u16` parsing accepts one.
pub open spec fn port_digits(s: Seq<u8>) -> Seq<u8> {
    if s.len() > 0 && s[0] == 43 {
        s.drop_first()
    } else {
        s
    }
}

/// A string that parses as an unsigned 16-bit port number.
pub open spec fn is_port_str(s: Seq<u8>) -> bool {
    let d = port_digits(s);
    d.len() >= 1 && all_digits(d) && dec_val(d) <= 65535
}

/// The port named by a valid port string.
pub open spec fn port_of(s: Seq<u8>) -> u16 {
    dec_val(port_digits(s)) as u16
}

/// Reads a run of decimal digits as a number, refusing empty input,
/// non-digits, and values above `max`.
pub fn parse_decimal(v: &[u8], max: u32) -> (r: Option<u32>)
    requires
        max <= 65535,
    ensures
        match r {
            Some(x) => v@.len() >= 1 && all_digits(v@) && x as int == dec_val(v@) && x <= max,
            None => !(v@.len() >= 1 && all_digits(v@) && dec_val(v@) <= max),
        },
{
    if v.len() == 0 {
        return None;
    }
    let mut val: u32 = 0;
    let mut k: usize = 0;
    proof {
        assert(v@.take(0) =~= Seq::<u8>::empty());
    }
    while k < v.len()
        invariant
            0 <= k <= v.len(),
            max <= 65535,
            all_digits(v@.take(k as int)),
            val as int == dec_val(v@.take(k as int)),
            val <= max,
        decreases v.len() - k,
    {
        let b = v[k];
        if !is_digit_x(b) {
            proof {
                assert(!is_digit(v@[k as int]));
            }
            return None;
        }
        proof {
            assert(v@.take(k + 1).drop_last() =~= v@.take(k as int));
            assert(forall|i: int|
                0 <= i < k + 1 ==> is_digit(#[trigger] v@.take(k + 1)[i]));
        }
        val = val * 10 + ((b - 48) as u32);
        proof {
            assert(val as int == dec_val(v@.take(k + 1)));
        }
        if val > max {
            proof {
                if all_digits(v@) && dec_val(v@) <= max {
                    lemma_dec_val_prefix(v@, k + 1);
                    assert(v@.take(v@.len() as int) =~= v@);
                    assert(false);
                }
            }
            return None;
        }
        k = k + 1;
    }
    proof {
        assert(v@.take(k as int) =~= v@);
    }
    Some(val)
}

/// Reads one dotted-decimal octet.
pub fn parse_octet(v: &[u8]) -> (r: Option<u8>)
    ensures
        match r {
            Some(x) => is_octet(v@) && x as int == dec_val(v@),
            None => !is_octet(v@),
        },
{
    if v.len() < 1 || v.len() > 3 {
        return None;
    }
    if v.len() > 1 && v[0] == 48 {
        return None;
    }
    match parse_decimal(v, 255) {
        Some(x) => Some(x as u8),
        None => None,
    }
}

/// Reads a dotted-decimal IPv4 address.
pub fn parse_ipv4(v: &[u8]) -> (r: Option<HostV4>)
    ensures
        match r {
            Some(h) => is_ipv4(v@) && h == ipv4_of(v@),
            None => !is_ipv4(v@),
        },
{
    let parts = split_bytes(v, 46);
    proof {
        assert(forall|j: int|
            0 <= j < parts@.len() ==> parts.deep_view()[j] == #[trigger] parts@[j]@);
    }
    if parts.len() != 4 {
        return None;
    }
    let q0 = parse_octet(parts[0].as_slice());
    let q1 = parse_octet(parts[1].as_slice());
    let q2 = parse_octet(parts[2].as_slice());
    let q3 = parse_octet(parts[3].as_slice());
    match (q0, q1, q2, q3) {
        (Some(o0), Some(o1), Some(o2), Some(o3)) => Some(HostV4 { o0, o1, o2, o3 }),
        _ => None,
    }
}

/// Reads an unsigned 16-bit port number, allowing one leading `+`.
pub fn parse_port(v: &[u8]) -> (r: Option<u16>)
    ensures
        match r {
            Some(x) => is_port_str(v@) && x == port_of(v@),
            None => !is_port_str(v@),
        },
{
    let d: &[u8] = if v.len() > 0 && v[0] == 43 {
        &v[1..v.len()]
    } else {
        v
    };
    proof {
        assert(d@ =~= port_digits(v@));
    }
    match parse_decimal(d, 65535) {
        Some(x) => Some(x as u16),
        None => None,
    }
}

/// The case-insensitive terminator token `done`.
pub open spec fn spec_is_done(t: Seq<u8>) -> bool {
    t.len() == 4 && ascii_lower(t[0]) == 100 && ascii_lower(t[1]) == 111 && ascii_lower(t[2])
        == 110 && ascii_lower(t[3]) == 101
}

/// What one input line yields.
#[derive(Clone, Copy, PartialEq, Eq, Structural, Debug)]
pub enum LineOutcome {
    /// Empty line or the token `done`: input is finished.
    End,
    /// A monitorable endpoint; `defaulted` says the port fell back to
    /// `DEFAULT_PORT` because it was 0 or did not parse.
    Added { endpoint: Endpoint, defaulted: bool },
    /// Not of the shape `host:port` (exactly one colon).
    BadFormat,
    /// The host part is not an IPv4 address.
    BadHost,
}

/// The meaning of one raw input line: trim it, stop on empty or `done`,
/// split on the single colon, parse host and port, and fall back to
/// `DEFAULT_PORT` when the port is 0 or does not parse.
pub open spec fn spec_classify(line: Seq<u8>) -> LineOutcome {
    let t = trimmed(line);
    if t.len() == 0 || spec_is_done(t) {
        LineOutcome::End
    } else {
        let parts = split_by(t, 58);
        if parts.len() != 2 {
            LineOutcome::BadFormat
        } else {
            let h = trimmed(parts[0]);
            let p = trimmed(parts[1]);
            if !is_ipv4(h) {
                LineOutcome::BadHost
            } else if is_port_str(p) && port_of(p) != 0 {
                LineOutcome::Added {
                    endpoint: Endpoint { host: ipv4_of(h), port: port_of(p) },
                    defaulted: false,
                }
            } else {
                LineOutcome::Added {
                    endpoint: Endpoint { host: ipv4_of(h), port: DEFAULT_PORT },
                    defaulted: true,
                }
            }
        }
    }
}

/// Classifies one raw line of operator input.
pub fn classify_line(line: &[u8]) -> (r: LineOutcome)
    ensures
        r == spec_classify(line@),
{
    let t = trim(line);
    if t.len() == 0 {
        return LineOutcome::End;
    }
    if t.len() == 4 && ascii_lower_x(t[0]) == 100 && ascii_lower_x(t[1]) == 111
        && ascii_lower_x(t[2]) == 110 && ascii_lower_x(t[3]) == 101 {
        return LineOutcome::End;
    }
    let parts = split_bytes(t.as_slice(), 58);
    proof {
        assert(forall|j: int|
            0 <= j < parts@.len() ==> parts.deep_view()[j] == #[trigger] parts@[j]@);
    }
    if parts.len() != 2 {
        return LineOutcome::BadFormat;
    }
    let h = trim(parts[0].as_slice());
    let p = trim(parts[1].as_slice());
    match parse_ipv4(h.as_slice()) {
        None => LineOutcome::BadHost,
        Some(host) => match parse_port(p.as_slice()) {
            Some(pt) => if pt != 0 {
                LineOutcome::Added { endpoint: Endpoint { host, port: pt }, defaulted: false }
            } else {
                LineOutcome::Added {
                    endpoint: Endpoint { host, port: DEFAULT_PORT },
                    defaulted: true,
                }
            },
            None => LineOutcome::Added {
                endpoint: Endpoint { host, port: DEFAULT_PORT },
                defaulted: true,
            },
        },
    }
}

/// What a whole input session yields: the endpoints in entry order, the
/// number of reported parse errors, the number of ports that fell back
/// to the default, and whether a terminator line was seen.
pub open spec fn spec_collect(lines: Seq<Seq<u8>>) -> (Seq<Endpoint>, int, int, bool)
    decreases lines.len(),
{
    if lines.len() == 0 {
        (Seq::<Endpoint>::empty(), 0, 0, false)
    } else {
        match spec_classify(lines[0]) {
            LineOutcome::End => (Seq::<Endpoint>::empty(), 0, 0, true),
            LineOutcome::Added { endpoint, defaulted } => {
                let rest = spec_collect(lines.drop_first());
                (
                    seq![endpoint] + rest.0,
                    rest.1,
                    rest.2 + if defaulted {
                        1int
                    } else {
                        0int
                    },
                    rest.3,
                )
            },
            _ => {
                let rest = spec_collect(lines.drop_first());
                (rest.0, rest.1 + 1, rest.2, rest.3)
            },
        }
    }
}

/// When every part of a split is all digits, every byte of the whole is
/// a digit or the separator.
proof fn lemma_split_parts_digits(s: Seq<u8>, sep: u8)
    requires
        forall|j: int|
            0 <= j < split_by(s, sep).len() ==> all_digits(#[trigger] split_by(s, sep)[j]),
    ensures
        forall|i: int| 0 <= i < s.len() ==> (is_digit(#[trigger] s[i]) || s[i] == sep),
    decreases s.len(),
{
    if s.len() == 0 {
    } else if s[0] == sep {
        assert forall|j: int| 0 <= j < split_by(s.drop_first(), sep).len() implies all_digits(
            #[trigger] split_by(s.drop_first(), sep)[j],
        ) by {
            assert(split_by(s, sep)[j + 1] == split_by(s.drop_first(), sep)[j]);
        }
        lemma_split_parts_digits(s.drop_first(), sep);
        assert forall|i: int| 0 <= i < s.len() implies (is_digit(#[trigger] s[i]) || s[i]
            == sep) by {
            if i > 0 {
                assert(s[i] == s.drop_first()[i - 1]);
            }
        }
    } else {
        let rest = split_by(s.drop_first(), sep);
        crate::scan::lemma_split_by_len(s.drop_first(), sep);
        let part0 = split_by(s, sep)[0];
        assert(all_digits(part0));
        assert(part0 == seq![s[0]] + rest[0]);
        assert(is_digit(part0[0]));
        assert(part0[0] == s[0]);
        assert forall|j: int| 0 <= j < rest.len() implies all_digits(#[trigger] rest[j]) by {
            if j == 0 {
                assert(forall|k: int|
                    0 <= k < rest[0].len() ==> #[trigger] rest[0][k] == part0[k + 1]);
            } else {
                assert(split_by(s, sep)[j] == rest.drop_first()[j - 1]);
                assert(rest.drop_first()[j - 1] == rest[j]);
            }
        }
        lemma_split_parts_digits(s.drop_first(), sep);
        assert forall|i: int| 0 <= i < s.len() implies (is_digit(#[trigger] s[i]) || s[i]
            == sep) by {
            if i > 0 {
                assert(s[i] == s.drop_first()[i - 1]);
            }
        }
    }
}

/// Every byte of a valid IPv4 address is a digit or a dot.
proof fn lemma_ipv4_bytes(h: Seq<u8>)
    requires
        is_ipv4(h),
    ensures
        forall|i: int| 0 <= i < h.len() ==> (is_digit(#[trigger] h[i]) || h[i] == 46),
        h.len() > 0,
{
    assert forall|j: int| 0 <= j < split_by(h, 46).len() implies all_digits(
        #[trigger] split_by(h, 46)[j],
    ) by {
        assert(is_octet(split_by(h, 46)[j]));
    }
    lemma_split_parts_digits(h, 46);
    if h.len() == 0 {
        assert(split_by(h, 46) =~~= seq![Seq::<u8>::empty()]);
    }
}

/// Every byte of a valid port string is a digit, save a leading plus;
/// the last byte is always a digit.
proof fn lemma_port_bytes(p: Seq<u8>)
    requires
        is_port_str(p),
    ensures
        forall|i: int| 0 <= i < p.len() ==> (is_digit(#[trigger] p[i]) || (i == 0 && p[0] == 43)),
        p.len() > 0,
        is_digit(p[p.len() - 1]),
{
    let d = port_digits(p);
    if p.len() > 0 && p[0] == 43 {
        assert(forall|i: int| 1 <= i < p.len() ==> #[trigger] p[i] == d[i - 1]);
    }
}

/// Law: a `host:port` line whose host is a valid IPv4 address and whose
/// port parses to a value in 1..=65535 yields exactly that endpoint,
/// with nothing defaulted.
pub proof fn lemma_valid_line_parses_exactly(h: Seq<u8>, p: Seq<u8>)
    requires
        is_ipv4(h),
        is_port_str(p),
        port_of(p) != 0,
    ensures
        spec_classify(h + seq![58u8] + p) == (LineOutcome::Added {
            endpoint: Endpoint { host: ipv4_of(h), port: port_of(p) },
            defaulted: false,
        }),
{
    let line = h + seq![58u8] + p;
    lemma_ipv4_bytes(h);
    lemma_port_bytes(p);
    assert(line[0] == h[0]);
    assert(line[line.len() - 1] == p[p.len() - 1]);
    crate::scan::lemma_trimmed_id(line);
    assert(trimmed(line) == line);
    assert(line[h.len() as int] == 58);
    assert(!spec_is_done(line)) by {
        if spec_is_done(line) {
            assert(ascii_lower(line[h.len() as int]) == 58);
        }
    }
    crate::scan::lemma_split_concat(h, p, 58);
    crate::scan::lemma_split_absent(p, 58);
    let parts = split_by(line, 58);
    assert(parts =~~= seq![h] + seq![p]);
    assert(parts.len() == 2);
    assert(parts[0] == h);
    assert(parts[1] == p);
    crate::scan::lemma_trimmed_id(h);
    crate::scan::lemma_trimmed_id(p);
}

/// Law: with a valid IPv4 host, a port entry of `0` — and likewise any
/// entry that does not parse as a 16-bit number, as long as it keeps
/// the line's `host:port` shape — yields the default port 443, marked
/// as defaulted.
pub proof fn lemma_port_fallback(h: Seq<u8>, p: Seq<u8>)
    requires
        is_ipv4(h),
        p.len() > 0,
        !is_space(p[0]),
        !is_space(p[p.len() - 1]),
        forall|i: int| 0 <= i < p.len() ==> p[i] != 58,
        p =~= seq![48u8] || !is_port_str(p),
    ensures
        spec_classify(h + seq![58u8] + p) == (LineOutcome::Added {
            endpoint: Endpoint { host: ipv4_of(h), port: DEFAULT_PORT },
            defaulted: true,
        }),
{
    let line = h + seq![58u8] + p;
    lemma_ipv4_bytes(h);
    assert(line[0] == h[0]);
    assert(line[line.len() - 1] == p[p.len() - 1]);
    crate::scan::lemma_trimmed_id(line);
    assert(line[h.len() as int] == 58);
    assert(!spec_is_done(line)) by {
        if spec_is_done(line) {
            assert(ascii_lower(line[h.len() as int]) == 58);
        }
    }
    crate::scan::lemma_split_concat(h, p, 58);
    crate::scan::lemma_split_absent(p, 58);
    let parts = split_by(line, 58);
    assert(parts =~~= seq![h] + seq![p]);
    assert(parts[0] == h);
    assert(parts[1] == p);
    crate::scan::lemma_trimmed_id(h);
    crate::scan::lemma_trimmed_id(p);
    if p =~= seq![48u8] {
        assert(port_digits(p) == p);
        assert(dec_val(p) == dec_val(p.drop_last()) * 10 + (p[0] - 48));
        assert(p.drop_last() =~= Seq::<u8>::empty());
        assert(port_of(p) == 0);
    }
}

/// Result of reading a whole target-input session.
pub struct CollectResult {
    /// The endpoints that were accepted, in entry order.
    pub endpoints: Vec<Endpoint>,
    /// How many lines drew a parse error (bad shape or bad host).
    pub parse_errors: u64,
    /// How many accepted endpoints had their port defaulted.
    pub defaulted: u64,
    /// Whether the session ended on an empty line or `done`.
    pub ended: bool,
}

/// Reads a sequence of input lines up to the terminator, collecting
/// endpoints and counting reported parse errors.  A line that fails to
/// parse never aborts the remaining input.
pub fn collect_endpoints(lines: &Vec<Vec<u8>>) -> (r: CollectResult)
    ensures
        r.endpoints@ == spec_collect(lines.deep_view()).0,
        r.parse_errors as int == spec_collect(lines.deep_view()).1,
        r.defaulted as int == spec_collect(lines.deep_view()).2,
        r.ended == spec_collect(lines.deep_view()).3,
{
    let ghost all = lines.deep_view();
    let mut endpoints: Vec<Endpoint> = Vec::new();
    let mut parse_errors: u64 = 0;
    let mut defaulted: u64 = 0;
    let mut i: usize = 0;
    proof {
        assert(all.skip(0) =~~= all);
        assert(endpoints@ =~~= Seq::<Endpoint>::empty());
    }
    while i < lines.len()
        invariant
            0 <= i <= lines.len(),
            all == lines.deep_view(),
            parse_errors <= i,
            defaulted <= i,
            spec_collect(all).0 =~= endpoints@ + spec_collect(all.skip(i as int)).0,
            spec_collect(all).1 == parse_errors + spec_collect(all.skip(i as int)).1,
            spec_collect(all).2 == defaulted + spec_collect(all.skip(i as int)).2,
            spec_collect(all).3 == spec_collect(all.skip(i as int)).3,
        decreases lines.len() - i,
    {
        proof {
            assert(all.skip(i as int).len() > 0);
            assert(all.skip(i as int)[0] == all[i as int]);
            assert(all.skip(i as int).drop_first() =~~= all.skip(i + 1));
            assert(all[i as int] == lines@[i as int]@);
        }
        let outcome = classify_line(lines[i].as_slice());
        match outcome {
            LineOutcome::End => {
                return CollectResult { endpoints, parse_errors, defaulted, ended: true };
            },
            LineOutcome::Added { endpoint, defaulted: d } => {
                let ghost eps0 = endpoints@;
                endpoints.push(endpoint);
                proof {
                    assert(endpoints@ =~= eps0.push(endpoint));
                    assert(eps0 + (seq![endpoint] + spec_collect(all.skip(i + 1)).0)
                        =~= endpoints@ + spec_collect(all.skip(i + 1)).0);
                }
                if d {
                    defaulted = defaulted + 1;
                }
            },
            _ => {
                parse_errors = parse_errors + 1;
            },
        }
        i = i + 1;
    }
    proof {
        assert(all.skip(i as int) =~~= Seq::<Seq<u8>>::empty());
        assert(spec_collect(all.skip(i as int)).0 =~= Seq::<Endpoint>::empty());
        assert(spec_collect(all).0 =~= endpoints@);
    }
    CollectResult { endpoints, parse_errors, defaulted, ended: false }
}

} // verus!
