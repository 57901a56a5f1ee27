//! Normalising what the user typed: ID/relay server addresses, direct-IP peer
//! ids and licence keys.

use vstd::prelude::*;
use crate::base64::{b64_decode, b64_decode_spec, b64_encode, b64_encode_spec};
use crate::text::{
    after_last, before_first, chars_of, contains, contains_char, contains_seq, has_prefix, is_white, is_white_char, last_index, lower, lower_chars, parses_uint,
    parses_uint_chars, push_chars, rsplit_last, same_chars, split_all, split_first, split_pieces,
    starts_with, strip_prefix, strip_prefix_chars, string_from_chars, trim, trim_chars, is_digit,
    find_last, lemma_last_index_bound, all_digits, digits_value, first_index, lstrip, rstrip,
    unsigned_digits,
};

verus! {

/// An empty or public rustdesk.com server name, which a self-hosted setup
/// must not use.
pub open spec fn is_placeholder_spec(raw: Seq<char>) -> bool {
    let l = lower(trim(raw));
    l.len() == 0 || contains_seq(l, "rustdesk.com/api"@) || l == "router.rustdesk.com"@ || l
        == "router.rustdesk.com:21116"@ || l == "rs-ny.rustdesk.com"@ || l
        == "rs-ny.rustdesk.com:21116"@ || l == "rs-sg.rustdesk.com"@ || l
        == "rs-sg.rustdesk.com:21116"@
}

pub fn is_official_placeholder(raw: &str) -> (b: bool)
    ensures
        b == is_placeholder_spec(raw@),
{
    let all = chars_of(raw);
    placeholder_chars(all.as_slice())
}

fn placeholder_chars(raw: &[char]) -> (b: bool)
    ensures
        b == is_placeholder_spec(raw@),
{
    let t = trim_chars(raw);
    let l = lower_chars(t.as_slice());
    let l = l.as_slice();
    l.len() == 0 || contains(l, chars_of("rustdesk.com/api").as_slice()) || same_chars(
        l,
        chars_of("router.rustdesk.com").as_slice(),
    ) || same_chars(l, chars_of("router.rustdesk.com:21116").as_slice()) || same_chars(
        l,
        chars_of("rs-ny.rustdesk.com").as_slice(),
    ) || same_chars(l, chars_of("rs-ny.rustdesk.com:21116").as_slice()) || same_chars(
        l,
        chars_of("rs-sg.rustdesk.com").as_slice(),
    ) || same_chars(l, chars_of("rs-sg.rustdesk.com:21116").as_slice())
}

/// `s` without a leading `https://` or, failing that, `http://`.
pub open spec fn without_scheme(s: Seq<char>) -> Seq<char> {
    match strip_prefix(s, "https://"@) {
        Some(t) => t,
        None => match strip_prefix(s, "http://"@) {
            Some(t) => t,
            None => s,
        },
    }
}

fn without_scheme_chars(s: &[char]) -> (r: Vec<char>)
    ensures
        r@ == without_scheme(s@),
{
    match strip_prefix_chars(s, chars_of("https://").as_slice()) {
        Some(t) => t,
        None => match strip_prefix_chars(s, chars_of("http://").as_slice()) {
            Some(t) => t,
            None => {
                let mut v: Vec<char> = Vec::new();
                v.extend_from_slice(s);
                v
            },
        },
    }
}

/// `host` with `:port` appended when it names no port.
pub open spec fn with_default_port(host: Seq<char>, port: Seq<char>) -> Seq<char> {
    if host.contains(':') {
        host
    } else {
        host + ":"@ + port
    }
}

fn with_default_port_chars(host: Vec<char>, port: &str) -> (r: String)
    ensures
        r@ == with_default_port(host@, port@),
{
    let mut s = string_from_chars(host.as_slice());
    if !contains_char(host.as_slice(), ':') {
        push_chars(&mut s, chars_of(":").as_slice());
        push_chars(&mut s, chars_of(port).as_slice());
    }
    s
}

/// The `host:port` of the self-hosted ID server that `raw` names, when it
/// names one: trimmed, without scheme or path, port 21116 by default.
pub open spec fn id_server_addr(raw: Seq<char>) -> Option<Seq<char>> {
    let trimmed = trim(raw);
    if is_placeholder_spec(trimmed) {
        None
    } else {
        let hostport = trim(before_first(without_scheme(trimmed), '/'));
        if hostport.len() == 0 || is_placeholder_spec(hostport) {
            None
        } else {
            Some(with_default_port(hostport, "21116"@))
        }
    }
}

/// Normalises the configured ID server; refuses an empty or public
/// rustdesk.com address.
pub fn normalize_server(raw: &str) -> (r: Result<String, String>)
    ensures
        match id_server_addr(raw@) {
            Some(a) => r matches Ok(s) && s@ == a,
            None => r matches Err(e) && e@ == "missing self-hosted id server"@,
        },
{
    let all = chars_of(raw);
    let trimmed = trim_chars(all.as_slice());
    if placeholder_chars(trimmed.as_slice()) {
        return Err(String::from_str("missing self-hosted id server"));
    }
    let ws = without_scheme_chars(trimmed.as_slice());
    let first = split_first(ws.as_slice(), '/');
    let hostport = trim_chars(first.as_slice());
    if hostport.len() == 0 || placeholder_chars(hostport.as_slice()) {
        return Err(String::from_str("missing self-hosted id server"));
    }
    Ok(with_default_port_chars(hostport, "21116"))
}

/// Every piece is a `u8` as `str::parse` reads one.
pub open spec fn all_u8(parts: Seq<Seq<char>>) -> bool {
    forall|i: int| 0 <= i < parts.len() ==> parses_uint(#[trigger] parts[i], 255)
}

/// A peer id that is an address for RustDesk direct IP access rather than a
/// RustDesk id: `[v6]:port`, a dotted IPv4 address with an optional valid
/// port, or `host:port` whose host is not all digits.
pub open spec fn is_direct_ip_spec(raw: Seq<char>) -> bool {
    let s = trim(raw);
    if s.len() == 0 || has_prefix(s, "DEMO"@) || has_prefix(s, "TEST"@) {
        false
    } else if has_prefix(s, "["@) {
        contains_seq(s, "]:"@)
    } else {
        let host = before_first(s, ':');
        let parts = split_pieces(host, '.');
        if parts.len() == 4 && all_u8(parts) {
            if s.contains(':') {
                parses_uint(after_last(s, ':'), 65535)
            } else {
                true
            }
        } else {
            match last_index(s, ':') {
                Some(k) => {
                    let h = s.take(k);
                    let p = s.skip(k + 1);
                    h.len() > 0 && parses_uint(p, 65535) && !(forall|i: int|
                        0 <= i < h.len() ==> is_digit(#[trigger] h[i]))
                },
                None => false,
            }
        }
    }
}

/// `c` does not occur in `x`.
spec fn lacks(x: Seq<char>, c: char) -> bool {
    forall|i: int| 0 <= i < x.len() ==> x[i] != c
}

/// One or more decimal digits.
pub open spec fn is_decimal(s: Seq<char>) -> bool {
    s.len() > 0 && all_digits(s)
}

proof fn lemma_decimal_lacks(s: Seq<char>, c: char)
    requires
        all_digits(s),
        !is_digit(c),
    ensures
        lacks(s, c),
{
    assert forall|i: int| 0 <= i < s.len() implies s[i] != c by {
        assert(is_digit(s[i]));
    }
}

proof fn lemma_first_index_at(x: Seq<char>, c: char, y: Seq<char>)
    requires
        lacks(x, c),
    ensures
        first_index(x + seq![c] + y, c) == Some(x.len() as int),
    decreases x.len(),
{
    let s = x + seq![c] + y;
    if x.len() > 0 {
        assert(s[0] == x[0]);
        assert(s.drop_first() =~= x.drop_first() + seq![c] + y);
        lemma_first_index_at(x.drop_first(), c, y);
    } else {
        assert(s[0] == c);
    }
}

proof fn lemma_first_index_none(x: Seq<char>, c: char)
    requires
        lacks(x, c),
    ensures
        first_index(x, c) is None,
    decreases x.len(),
{
    if x.len() > 0 {
        lemma_first_index_none(x.drop_first(), c);
    }
}

proof fn lemma_before_first_at(x: Seq<char>, c: char, y: Seq<char>)
    requires
        lacks(x, c),
    ensures
        before_first(x + seq![c] + y, c) == x,
    decreases x.len(),
{
    let s = x + seq![c] + y;
    if x.len() > 0 {
        assert(s[0] == x[0]);
        assert(s.drop_first() =~= x.drop_first() + seq![c] + y);
        lemma_before_first_at(x.drop_first(), c, y);
        assert(seq![x[0]] + x.drop_first() =~= x);
    } else {
        assert(s[0] == c);
    }
}

proof fn lemma_after_last_at(x: Seq<char>, c: char, y: Seq<char>)
    requires
        lacks(y, c),
    ensures
        after_last(x + seq![c] + y, c) == y,
    decreases y.len(),
{
    let s = x + seq![c] + y;
    if y.len() > 0 {
        assert(s.last() == y.last());
        assert(s.drop_last() =~= x + seq![c] + y.drop_last());
        lemma_after_last_at(x, c, y.drop_last());
        assert(y.drop_last().push(y.last()) =~= y);
    } else {
        assert(s.drop_last() =~= x);
        assert(s.last() == c);
    }
}

proof fn lemma_split_piece(x: Seq<char>, c: char, y: Seq<char>)
    requires
        lacks(x, c),
    ensures
        split_pieces(x + seq![c] + y, c) == seq![x] + split_pieces(y, c),
{
    let s = x + seq![c] + y;
    lemma_first_index_at(x, c, y);
    assert(s.take(x.len() as int) =~= x);
    assert(s.skip(x.len() as int + 1) =~= y);
}

proof fn lemma_split_last(x: Seq<char>, c: char)
    requires
        lacks(x, c),
    ensures
        split_pieces(x, c) == seq![x],
{
    lemma_first_index_none(x, c);
}

proof fn lemma_octet(a: Seq<char>)
    requires
        is_decimal(a),
        digits_value(a) <= 255,
    ensures
        parses_uint(a, 255),
        lacks(a, '.'),
        lacks(a, ':'),
{
    assert(is_digit(a[0]));
    assert(unsigned_digits(a) == a);
    lemma_decimal_lacks(a, '.');
    lemma_decimal_lacks(a, ':');
}

/// A dotted IPv4 address (four decimal octets, each at most 255) is a direct
/// IP peer on its own; followed by `:` and a decimal port, it is one exactly
/// when the port is at most 65535 (a `u16`).
pub proof fn lemma_ipv4_peers(a: Seq<char>, b: Seq<char>, c: Seq<char>, d: Seq<char>, port: Seq<char>)
    requires
        is_decimal(a) && digits_value(a) <= 255,
        is_decimal(b) && digits_value(b) <= 255,
        is_decimal(c) && digits_value(c) <= 255,
        is_decimal(d) && digits_value(d) <= 255,
        is_decimal(port),
    ensures
        is_direct_ip_spec(a + seq!['.'] + b + seq!['.'] + c + seq!['.'] + d),
        is_direct_ip_spec(a + seq!['.'] + b + seq!['.'] + c + seq!['.'] + d + seq![':'] + port) == (
        digits_value(port) <= 65535),
{
    lemma_octet(a);
    lemma_octet(b);
    lemma_octet(c);
    lemma_octet(d);
    let ip = a + seq!['.'] + b + seq!['.'] + c + seq!['.'] + d;
    let rest3 = c + seq!['.'] + d;
    let rest2 = b + seq!['.'] + rest3;
    assert(ip =~= a + seq!['.'] + rest2);
    lemma_split_piece(a, '.', rest2);
    lemma_split_piece(b, '.', rest3);
    lemma_split_piece(c, '.', d);
    lemma_split_last(d, '.');
    let parts = split_pieces(ip, '.');
    assert(parts =~= seq![a, b, c, d]);
    assert(all_u8(parts)) by {
        assert forall|i: int| 0 <= i < parts.len() implies parses_uint(#[trigger] parts[i], 255) by {
            if i == 0 {
                assert(parts[i] == a);
            } else if i == 1 {
                assert(parts[i] == b);
            } else if i == 2 {
                assert(parts[i] == c);
            } else {
                assert(parts[i] == d);
            }
        }
    }
    assert(lacks(ip, ':')) by {
        assert forall|i: int| 0 <= i < ip.len() implies ip[i] != ':' by {
            if i < a.len() {
                assert(ip[i] == a[i]);
            } else if i < a.len() + 1 + b.len() {
                if i > a.len() {
                    assert(ip[i] == b[i - a.len() - 1]);
                }
            } else if i < a.len() + 1 + b.len() + 1 + c.len() {
                if i > a.len() + 1 + b.len() {
                    assert(ip[i] == c[i - a.len() - 1 - b.len() - 1]);
                }
            } else if i > a.len() + 1 + b.len() + 1 + c.len() {
                assert(ip[i] == d[i - a.len() - 1 - b.len() - 1 - c.len() - 1]);
            }
        }
    }
    reveal_strlit("DEMO");
    reveal_strlit("TEST");
    reveal_strlit("[");
    assert(is_digit(a[0]) && is_digit(d.last()) && is_digit(port.last()));
    // The address alone.
    assert(ip[0] == a[0] && ip.last() == d.last());
    assert(trim(ip) == ip);
    assert(!has_prefix(ip, "DEMO"@)) by {
        if has_prefix(ip, "DEMO"@) {
            assert(ip.subrange(0, 4)[0] == ip[0]);
        }
    }
    assert(!has_prefix(ip, "TEST"@)) by {
        if has_prefix(ip, "TEST"@) {
            assert(ip.subrange(0, 4)[0] == ip[0]);
        }
    }
    assert(!has_prefix(ip, "["@)) by {
        if has_prefix(ip, "["@) {
            assert(ip.subrange(0, 1)[0] == ip[0]);
        }
    }
    assert(ip =~= ip + Seq::<char>::empty());
    assert(before_first(ip, ':') == ip) by {
        lemma_first_index_none(ip, ':');
        lemma_before_first_none(ip, ':');
    }
    assert(!ip.contains(':'));
    // The address with a port.
    let s = ip + seq![':'] + port;
    assert(s[0] == a[0] && s.last() == port.last());
    assert(trim(s) == s);
    assert(!has_prefix(s, "DEMO"@)) by {
        if has_prefix(s, "DEMO"@) {
            assert(s.subrange(0, 4)[0] == s[0]);
        }
    }
    assert(!has_prefix(s, "TEST"@)) by {
        if has_prefix(s, "TEST"@) {
            assert(s.subrange(0, 4)[0] == s[0]);
        }
    }
    assert(!has_prefix(s, "["@)) by {
        if has_prefix(s, "["@) {
            assert(s.subrange(0, 1)[0] == s[0]);
        }
    }
    lemma_before_first_at(ip, ':', port);
    lemma_decimal_lacks(port, ':');
    lemma_after_last_at(ip, ':', port);
    assert(s[ip.len() as int] == ':');
    assert(s.contains(':'));
    assert(is_digit(port[0]));
    assert(unsigned_digits(port) == port);
}

proof fn lemma_before_first_none(x: Seq<char>, c: char)
    requires
        lacks(x, c),
    ensures
        before_first(x, c) == x,
    decreases x.len(),
{
    if x.len() > 0 {
        lemma_before_first_none(x.drop_first(), c);
        assert(seq![x[0]] + x.drop_first() =~= x);
    }
}

pub fn is_direct_ip_peer(raw: &str) -> (b: bool)
    ensures
        b == is_direct_ip_spec(raw@),
{
    let all = chars_of(raw);
    direct_ip_chars(all.as_slice())
}

fn direct_ip_chars(raw: &[char]) -> (b: bool)
    ensures
        b == is_direct_ip_spec(raw@),
{
    let s = trim_chars(raw);
    let s = s.as_slice();
    if s.len() == 0 || starts_with(s, chars_of("DEMO").as_slice()) || starts_with(
        s,
        chars_of("TEST").as_slice(),
    ) {
        return false;
    }
    if starts_with(s, chars_of("[").as_slice()) {
        return contains(s, chars_of("]:").as_slice());
    }
    let host = split_first(s, ':');
    let parts = split_all(host.as_slice(), '.');
    if parts.len() == 4 {
        let mut all = true;
        let mut i: usize = 0;
        while i < 4
            invariant
                i <= 4,
                parts@.len() == 4,
                parts@.len() == split_pieces(host@, '.').len(),
                forall|m: int| 0 <= m < 4 ==> #[trigger] parts@[m]@ == split_pieces(host@, '.')[m],
                all == (forall|m: int| 0 <= m < i ==> parses_uint(
                    #[trigger] split_pieces(host@, '.')[m],
                    255,
                )),
            decreases 4 - i,
        {
            let ok = parses_uint_chars(parts[i].as_slice(), 255);
            assert(parts@[i as int]@ == split_pieces(host@, '.')[i as int]);
            proof {
                if all && ok {
                    assert forall|m: int| 0 <= m < i + 1 implies parses_uint(
                        #[trigger] split_pieces(host@, '.')[m],
                        255,
                    ) by {
                        if m == i {
                        }
                    }
                }
            }
            all = all && ok;
            i = i + 1;
        }
        if all {
            if contains_char(s, ':') {
                let port = rsplit_last(s, ':');
                return parses_uint_chars(port.as_slice(), 65535);
            }
            return true;
        }
    }
    proof {
        lemma_last_index_bound(s@, ':');
    }
    match find_last(s, ':') {
        Some(k) => {
            let h = &s[0..k];
            let p = &s[k + 1..s.len()];
            assert(h@ =~= s@.take(k as int));
            assert(p@ =~= s@.skip(k + 1));
            if h.len() == 0 || !parses_uint_chars(p, 65535) {
                return false;
            }
            let mut j: usize = 0;
            let mut digits_only = true;
            while j < h.len()
                invariant
                    j <= h@.len(),
                    digits_only == (forall|m: int| 0 <= m < j ==> is_digit(#[trigger] h@[m])),
                decreases h.len() - j,
            {
                let d = '0' <= h[j] && h[j] <= '9';
                proof {
                    if digits_only && d {
                        assert forall|m: int| 0 <= m < j + 1 implies is_digit(#[trigger] h@[m]) by {
                            if m == j {
                            }
                        }
                    }
                    if !d {
                        assert(!is_digit(h@[j as int]));
                    }
                }
                digits_only = digits_only && d;
                j = j + 1;
            }
            !digits_only
        },
        None => false,
    }
}

/// A direct-IP peer address with the direct-access port 21118 when it has
/// none.
pub open spec fn direct_addr_spec(raw: Seq<char>) -> Seq<char> {
    let s = trim(raw);
    if has_prefix(s, "["@) || s.contains(':') {
        s
    } else {
        s + ":21118"@
    }
}

pub fn normalize_direct_addr(raw: &str) -> (r: String)
    ensures
        r@ == direct_addr_spec(raw@),
{
    let all = chars_of(raw);
    let s = trim_chars(all.as_slice());
    if starts_with(s.as_slice(), chars_of("[").as_slice()) || contains_char(s.as_slice(), ':') {
        return string_from_chars(s.as_slice());
    }
    let mut r = string_from_chars(s.as_slice());
    push_chars(&mut r, chars_of(":21118").as_slice());
    r
}

/// The relay server to use: `raw` without scheme or path, or the ID server's
/// host when `raw` is blank; port 21117 by default.
pub open spec fn relay_addr_spec(raw: Seq<char>, id_server: Seq<char>) -> Seq<char> {
    let trimmed = trim(raw);
    let host = if trimmed.len() == 0 {
        before_first(id_server, ':')
    } else {
        before_first(without_scheme(trimmed), '/')
    };
    with_default_port(host, "21117"@)
}

pub fn normalize_relay_addr(raw: &str, id_server: &str) -> (r: String)
    ensures
        r@ == relay_addr_spec(raw@, id_server@),
{
    let all = chars_of(raw);
    let trimmed = trim_chars(all.as_slice());
    let host = if trimmed.len() == 0 {
        let server = chars_of(id_server);
        split_first(server.as_slice(), ':')
    } else {
        let ws = without_scheme_chars(trimmed.as_slice());
        split_first(ws.as_slice(), '/')
    };
    with_default_port_chars(host, "21117")
}

/// `raw` without white space and without one pair of enclosing quotes.
pub open spec fn unquoted_key(raw: Seq<char>) -> Seq<char> {
    let s = raw.filter(|c: char| !is_white(c));
    if s.len() >= 2 && ((s[0] == '"' && s.last() == '"') || (s[0] == '\'' && s.last() == '\'')) {
        s.subrange(1, s.len() - 1)
    } else {
        s
    }
}

/// The licence key to send: a 64-byte base64 key pair is reduced to its
/// public half (the last 32 bytes, re-encoded); any other key is kept as typed,
/// less white space and enclosing quotes.
pub open spec fn licence_key_spec(raw: Seq<char>) -> Seq<char> {
    let s = unquoted_key(raw);
    match b64_decode_spec(s) {
        Some(bytes) => if bytes.len() == 64 {
            b64_encode_spec(bytes.skip(32))
        } else {
            s
        },
        None => s,
    }
}

pub fn normalize_licence_key(raw: &str) -> (r: String)
    ensures
        r@ == licence_key_spec(raw@),
{
    let all = chars_of(raw);
    let mut s: Vec<char> = Vec::new();
    let mut i: usize = 0;
    while i < all.len()
        invariant
            i <= all@.len(),
            all@ == raw@,
            s@ == all@.take(i as int).filter(|c: char| !is_white(c)),
        decreases all.len() - i,
    {
        let c = all[i];
        proof {
            all@.take(i as int).lemma_filter_push(c, |c: char| !is_white(c));
            assert(all@.take(i + 1) =~= all@.take(i as int).push(c));
        }
        if !is_white_char(c) {
            s.push(c);
        }
        i = i + 1;
    }
    assert(all@.take(i as int) =~= all@);
    let n = s.len();
    let key: Vec<char> = if n >= 2 && ((s[0] == '"' && s[n - 1] == '"') || (s[0] == '\''
        && s[n - 1] == '\'')) {
        let mut v: Vec<char> = Vec::new();
        v.extend_from_slice(&s[1..n - 1]);
        v
    } else {
        s
    };
    assert(key@ == unquoted_key(raw@));
    let key_str = string_from_chars(key.as_slice());
    if let Some(bytes) = b64_decode(key_str.as_str()) {
        if bytes.len() == 64 {
            let tail = &bytes.as_slice()[32..64];
            assert(tail@ =~= bytes@.skip(32));
            return b64_encode(tail);
        }
    }
    key_str
}

/// Lower-cased, the error text names a read that timed out or would block.
pub open spec fn is_idle_read_spec(err: Seq<char>) -> bool {
    let l = lower(err);
    contains_seq(l, "timed out"@) || contains_seq(l, "wouldblock"@) || contains_seq(
        l,
        "would block"@,
    ) || contains_seq(l, "temporarily unavailable"@) || contains_seq(l, "os error 11"@)
        || contains_seq(l, "os error 110"@) || contains_seq(l, "10060"@)
}

pub fn is_idle_read(err: &str) -> (b: bool)
    ensures
        b == is_idle_read_spec(err@),
{
    let e = chars_of(err);
    let l = lower_chars(e.as_slice());
    let l = l.as_slice();
    contains(l, chars_of("timed out").as_slice()) || contains(l, chars_of("wouldblock").as_slice())
        || contains(l, chars_of("would block").as_slice()) || contains(
        l,
        chars_of("temporarily unavailable").as_slice(),
    ) || contains(l, chars_of("os error 11").as_slice()) || contains(
        l,
        chars_of("os error 110").as_slice(),
    ) || contains(l, chars_of("10060").as_slice())
}

/// What a session does after a failed read.
#[derive(Debug, Clone, Copy, PartialEq, Eq, Structural)]
pub enum SessionRead {
    /// No frame began within the read timeout: a quiet moment, in which the
    /// session may ask for video again, then reads on.
    Idle,
    /// A read that timed out or would block mid-frame: read again.
    Again,
    /// Any other failure ends the session.
    End,
}

/// The reaction to the read error `err` while a session runs: `"idle"` (no
/// frame began) is a quiet moment, a timed-out or blocked read is retried,
/// and anything else ends the session.
pub fn session_read_error(err: &str) -> (r: SessionRead)
    ensures
        r == (if err@ == "idle"@ {
            SessionRead::Idle
        } else if is_idle_read_spec(err@) {
            SessionRead::Again
        } else {
            SessionRead::End
        }),
{
    let e = chars_of(err);
    if same_chars(e.as_slice(), chars_of("idle").as_slice()) {
        SessionRead::Idle
    } else if is_idle_read(err) {
        SessionRead::Again
    } else {
        SessionRead::End
    }
}

} // verus!
