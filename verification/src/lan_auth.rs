//! LAN access rules: PIN hashing and constant-time comparison, device
//! token cookies, loopback and private address classes, the PIN
//! brute-force guard and the access rule applied to every request.

use vstd::prelude::*;
use vstd::utf8::{encode_utf8, encode_utf8_decode_utf8};
use crate::text::{concat_chars, has_prefix, starts_with, chars_of, find_char, first_pos, same_chars, slice_chars, split_chars, split_seq, string_of, trim, trim_chars, views};

verus! {

// ─── Hex and hashing ───────────────────────────────────────────────────────

/// Lower-case hexadecimal digit of `n` (`n < 16`).
pub open spec fn hex_digit(n: int) -> char {
    if n < 10 {
        (48 + n) as char
    } else {
        (87 + n) as char
    }
}

/// Two lower-case hex digits per byte, in order.
pub open spec fn hex_text(bytes: Seq<u8>) -> Seq<char>
    decreases bytes.len(),
{
    if bytes.len() == 0 {
        seq![]
    } else {
        hex_text(bytes.drop_last()).push(hex_digit(bytes.last() as int / 16)).push(
            hex_digit(bytes.last() as int % 16),
        )
    }
}

fn hex_char(n: u8) -> (c: char)
    requires
        n < 16,
    ensures
        c == hex_digit(n as int),
{
    if n < 10 {
        (48u8 + n) as char
    } else {
        (87u8 + n) as char
    }
}

/// Lower-case hex encoding: two digits per byte.
pub fn to_hex(bytes: &[u8]) -> (s: String)
    ensures
        s@ == hex_text(bytes@),
        s@.len() == 2 * bytes@.len(),
{
    let mut out: Vec<char> = Vec::new();
    for k in 0..bytes.len()
        invariant
            out@ == hex_text(bytes@.subrange(0, k as int)),
            out@.len() == 2 * k,
    {
        let b = bytes[k];
        out.push(hex_char(b / 16));
        out.push(hex_char(b % 16));
        assert(bytes@.subrange(0, k + 1 as int).drop_last() =~= bytes@.subrange(0, k as int));
    }
    assert(bytes@.subrange(0, bytes@.len() as int) =~= bytes@);
    string_of(&out)
}

/// SHA-256 of a byte string (32 bytes), as the `sha2` crate computes it.
pub uninterp spec fn sha256_of(data: Seq<u8>) -> Seq<u8>;

/// `sha2::Sha256::digest`: the 32-byte SHA-256 digest of `data`. The digest
/// itself is named, not described; its length is fixed by the output type.
#[verifier::external_body]
fn sha256(data: &[u8]) -> (r: Vec<u8>)
    ensures
        r@ == sha256_of(data@),
        r@.len() == 32,
{
    <sha2::Sha256 as sha2::Digest>::digest(data).to_vec()
}

/// The bytes hashed for a PIN: salt, `:`, PIN (UTF-8).
pub open spec fn pin_hash_input(pin: Seq<char>, salt: Seq<char>) -> Seq<u8> {
    encode_utf8(salt) + seq![58u8] + encode_utf8(pin)
}

/// Salted SHA-256 of the PIN, hex-encoded (64 characters).
pub fn hash_pin(pin: &str, salt: &str) -> (h: String)
    ensures
        h@ == hex_text(sha256_of(pin_hash_input(pin@, salt@))),
        h@.len() == 64,
{
    let sb = salt.as_bytes();
    let pb = pin.as_bytes();
    let mut data: Vec<u8> = Vec::new();
    for k in 0..sb.len()
        invariant
            data@ == sb@.subrange(0, k as int),
    {
        data.push(sb[k]);
        assert(data@ =~= sb@.subrange(0, k + 1 as int));
    }
    data.push(58u8);
    for k in 0..pb.len()
        invariant
            data@ == sb@ + seq![58u8] + pb@.subrange(0, k as int),
    {
        data.push(pb[k]);
        assert(data@ =~= sb@ + seq![58u8] + pb@.subrange(0, k + 1 as int));
    }
    assert(data@ =~= pin_hash_input(pin@, salt@));
    let d = sha256(&data);
    to_hex(&d)
}

/// Constant-time equality of two strings: every byte is folded into the
/// verdict, so the time taken does not reveal where they first differ.
/// Equal exactly when the strings are equal.
pub fn ct_eq(a: &str, b: &str) -> (r: bool)
    ensures
        r == (a@ == b@),
{
    let x = a.as_bytes();
    let y = b.as_bytes();
    proof {
        encode_utf8_decode_utf8(a@);
        encode_utf8_decode_utf8(b@);
    }
    if x.len() != y.len() {
        return false;
    }
    let mut diff: u8 = 0;
    for i in 0..x.len()
        invariant
            x@.len() == y@.len(),
            (diff == 0) == (forall|k: int| 0 <= k < i ==> x@[k] == y@[k]),
    {
        let d = x[i] ^ y[i];
        let nd = diff | d;
        proof {
            let xi = x@[i as int];
            let yi = y@[i as int];
            assert((nd == 0) == (diff == 0 && xi == yi)) by (bit_vector)
                requires
                    d == xi ^ yi,
                    nd == diff | d;
        }
        diff = nd;
    }
    proof {
        if diff == 0 {
            assert(x@ =~= y@);
        }
    }
    diff == 0
}

/// Whether `pin` hashes (with `salt`) to the stored digest.
pub fn pin_matches(pin: &str, salt: &str, stored_hash: &str) -> (r: bool)
    ensures
        r == (hex_text(sha256_of(pin_hash_input(pin@, salt@))) == stored_hash@),
{
    let h = hash_pin(pin, salt);
    ct_eq(h.as_str(), stored_hash)
}

} // verus!

verus! {

// ─── Device tokens ─────────────────────────────────────────────────────────

/// Name of the cookie carrying a device token.
pub const LAN_COOKIE: &'static str = "piter_lan_token";

/// Device tokens live for 30 days.
pub const TOKEN_MAX_AGE_SECS: i64 = 2592000;

/// The `Set-Cookie` value that hands a device its token: HTTP only, for
/// the whole site, for [`TOKEN_MAX_AGE_SECS`], same-site lax.
pub fn device_cookie(token: &str) -> (r: String)
    ensures
        r@ == LAN_COOKIE@ + seq!['='] + token@ + "; HttpOnly; Path=/; Max-Age="@ + crate::system::decimal(
            TOKEN_MAX_AGE_SECS as nat,
        ) + "; SameSite=Lax"@,
{
    let eq: [char; 1] = ['='];
    let a = concat_chars(&chars_of(LAN_COOKIE), &eq);
    let b = concat_chars(&a, &chars_of(token));
    let c = concat_chars(&b, &chars_of("; HttpOnly; Path=/; Max-Age="));
    let d = concat_chars(&c, &crate::system::decimal_text(2592000u64));
    let e = concat_chars(&d, &chars_of("; SameSite=Lax"));
    assert(eq@ =~= seq!['=']);
    string_of(&e)
}

/// The value of one `k=v` cookie pair when its key is the LAN cookie and its
/// value is non-empty (key and value trimmed, split at the first `=`).
pub open spec fn cookie_token(part: Seq<char>) -> Option<Seq<char>> {
    let t = trim(part);
    let e = first_pos(t, '=');
    if e >= t.len() {
        None
    } else {
        let k = trim(t.subrange(0, e));
        let v = trim(t.subrange(e + 1, t.len() as int));
        if k == "piter_lan_token"@ && v.len() > 0 {
            Some(v)
        } else {
            None
        }
    }
}

/// The first LAN token among the `;`-separated cookie pairs from `i` on.
pub open spec fn first_cookie_token(parts: Seq<Seq<char>>, i: int) -> Option<Seq<char>>
    decreases parts.len() - i,
{
    if i >= parts.len() {
        None
    } else {
        match cookie_token(parts[i]) {
            Some(v) => Some(v),
            None => first_cookie_token(parts, i + 1),
        }
    }
}

fn cookie_token_of(part: &[char]) -> (r: Option<Vec<char>>)
    ensures
        r matches Some(v) ==> cookie_token(part@) == Some(v@),
        r is None ==> cookie_token(part@) is None,
{
    let t = trim_chars(part);
    let e = find_char(&t, '=');
    if e >= t.len() {
        return None;
    }
    let k = trim_chars(&slice_chars(&t, 0, e));
    let v = trim_chars(&slice_chars(&t, e + 1, t.len()));
    let name = chars_of(LAN_COOKIE);
    if same_chars(&k, &name) && v.len() > 0 {
        Some(v)
    } else {
        None
    }
}

/// The device token from a `Cookie` header: the trimmed value of the first
/// `piter_lan_token=<value>` pair with a non-empty value.
pub fn extract_lan_token(cookie_header: Option<&str>) -> (r: Option<String>)
    ensures
        cookie_header is None ==> r is None,
        cookie_header matches Some(h) ==> crate::rpc::opt_view(r) == first_cookie_token(split_seq(h@, ';'), 0),
{
    let h = match cookie_header {
        Some(h) => h,
        None => return None,
    };
    let c = chars_of(h);
    let parts = split_chars(&c, ';');
    let n = parts.len();
    for i in 0..n
        invariant
            n == parts@.len(),
            cookie_header == Some(h),
            views(parts@) == split_seq(h@, ';'),
            first_cookie_token(split_seq(h@, ';'), 0) == first_cookie_token(split_seq(h@, ';'), i as int),
    {
        assert(views(parts@)[i as int] == parts@[i as int]@);
        match cookie_token_of(&parts[i]) {
            Some(v) => return Some(string_of(&v)),
            None => {},
        }
    }
    None
}

// ─── Random secrets ────────────────────────────────────────────────────────

/// A lower-case hexadecimal digit.
pub open spec fn is_lower_hex(c: char) -> bool {
    ('0' <= c && c <= '9') || ('a' <= c && c <= 'f')
}

/// `uuid::Uuid::new_v4().simple()` as text: a fresh random UUID in its
/// simple form, 32 lower-case hex digits. Which digits come out is not
/// stated (they are random).
#[verifier::external_body]
pub(crate) fn random_uuid_hex() -> (s: String)
    ensures
        s@.len() == 32,
        forall|k: int| 0 <= k < 32 ==> is_lower_hex(#[trigger] s@[k]),
{
    uuid::Uuid::new_v4().simple().to_string()
}

/// `uuid::Uuid::new_v4().as_bytes()`: the 16 bytes of a fresh random UUID.
/// Nothing is stated of their values.
#[verifier::external_body]
fn random_uuid_bytes() -> (b: [u8; 16]) {
    *uuid::Uuid::new_v4().as_bytes()
}

/// A fresh random salt: 32 lower-case hex digits.
pub fn generate_salt() -> (s: String)
    ensures
        s@.len() == 32,
        forall|k: int| 0 <= k < 32 ==> is_lower_hex(#[trigger] s@[k]),
{
    random_uuid_hex()
}

/// A fresh random device token: 32 lower-case hex digits.
pub fn generate_token() -> (s: String)
    ensures
        s@.len() == 32,
        forall|k: int| 0 <= k < 32 ==> is_lower_hex(#[trigger] s@[k]),
{
    random_uuid_hex()
}

/// The decimal digit of `b % 10`.
pub open spec fn digit_of(b: u8) -> char {
    (48 + (b % 10)) as char
}

/// The six-digit PIN drawn from the first six bytes of `bytes`: each
/// byte modulo 10, as a decimal digit.
pub fn pin_from_bytes(bytes: &[u8]) -> (p: String)
    requires
        bytes@.len() >= 6,
    ensures
        p@.len() == 6,
        forall|k: int| 0 <= k < 6 ==> #[trigger] p@[k] == digit_of(bytes@[k]),
{
    let mut out: Vec<char> = Vec::new();
    for k in 0..6
        invariant
            bytes@.len() >= 6,
            out@.len() == k,
            forall|m: int| 0 <= m < k ==> #[trigger] out@[m] == digit_of(bytes@[m]),
    {
        let d = bytes[k] % 10;
        out.push((48u8 + d) as char);
    }
    string_of(&out)
}

/// A fresh six-digit numeric PIN.
pub fn generate_pin() -> (p: String)
    ensures
        p@.len() == 6,
        forall|k: int| 0 <= k < 6 ==> '0' <= #[trigger] p@[k] && p@[k] <= '9',
{
    let b = random_uuid_bytes();
    let p = pin_from_bytes(&b);
    proof {
        assert forall|k: int| 0 <= k < 6 implies '0' <= #[trigger] p@[k] && p@[k] <= '9' by {
            assert(p@[k] == digit_of(b@[k]));
        }
    }
    p
}

} // verus!

verus! {

// ─── Addresses ─────────────────────────────────────────────────────────────

/// An IP address: IPv4 as its 32-bit big-endian value, IPv6 as its 128-bit
/// big-endian value.
#[derive(Debug, Clone, Copy, PartialEq, Eq, Structural)]
pub enum IpAddress {
    V4(u32),
    V6(u128),
}

/// The 128-bit value of eight IPv6 segments, most significant first.
pub open spec fn segments_value(s: Seq<u16>) -> int {
    s[0] as int * 5192296858534827628530496329220096 + s[1] as int * 79228162514264337593543950336
        + s[2] as int * 1208925819614629174706176 + s[3] as int * 18446744073709551616
        + s[4] as int * 281474976710656 + s[5] as int * 4294967296 + s[6] as int * 65536 + s[7] as int
}

impl IpAddress {
    /// The IPv4 address `a.b.c.d`.
    pub fn v4(a: u8, b: u8, c: u8, d: u8) -> (ip: Self)
        ensures
            ip == IpAddress::V4((a as int * 16777216 + b as int * 65536 + c as int * 256 + d as int) as u32),
    {
        IpAddress::V4((a as u32) * 16777216 + (b as u32) * 65536 + (c as u32) * 256 + (d as u32))
    }

    /// The IPv6 address with the given eight 16-bit segments.
    pub fn v6(segments: [u16; 8]) -> (ip: Self)
        ensures
            ip == IpAddress::V6(segments_value(segments@) as u128),
    {
        let acc: u128 = segments[0] as u128 * 5192296858534827628530496329220096
            + segments[1] as u128 * 79228162514264337593543950336
            + segments[2] as u128 * 1208925819614629174706176
            + segments[3] as u128 * 18446744073709551616
            + segments[4] as u128 * 281474976710656 + segments[5] as u128 * 4294967296
            + segments[6] as u128 * 65536 + segments[7] as u128;
        IpAddress::V6(acc)
    }
}

/// Loopback: `127.0.0.0/8`, `::1`, and IPv4 loopback mapped into IPv6
/// (`::ffff:127.x.y.z`).
pub open spec fn spec_is_loopback(ip: IpAddress) -> bool {
    match ip {
        IpAddress::V4(x) => x / 16777216 == 127,
        IpAddress::V6(y) => y == 1 || (y / 4294967296 == 0xffff && (y % 4294967296) / 16777216 == 127),
    }
}

/// Whether a request from `ip` comes from this machine.
pub fn is_loopback_ip(ip: IpAddress) -> (r: bool)
    ensures
        r == spec_is_loopback(ip),
{
    match ip {
        IpAddress::V4(x) => x / 16777216 == 127,
        IpAddress::V6(y) => y == 1 || (y / 4294967296 == 0xffff && (y % 4294967296) / 16777216 == 127),
    }
}

/// Private IPv4 ranges (`10/8`, `172.16/12`, `192.168/16`), never loopback.
pub open spec fn spec_is_private_ipv4(ip: IpAddress) -> bool {
    match ip {
        IpAddress::V4(x) => {
            let a = x / 16777216;
            let b = (x / 65536) % 256;
            a != 127 && (a == 10 || (a == 172 && 16 <= b <= 31) || (a == 192 && b == 168))
        },
        IpAddress::V6(_) => false,
    }
}

/// Whether `ip` is a private (LAN) IPv4 address.
pub fn is_private_ipv4(ip: IpAddress) -> (r: bool)
    ensures
        r == spec_is_private_ipv4(ip),
{
    match ip {
        IpAddress::V4(x) => {
            let a = x / 16777216;
            let b = (x / 65536) % 256;
            a != 127 && (a == 10 || (a == 172 && 16 <= b && b <= 31) || (a == 192 && b == 168))
        },
        IpAddress::V6(_) => false,
    }
}

// ─── PIN brute-force guard ─────────────────────────────────────────────────

/// Consecutive failures that lock an address out.
pub const MAX_PIN_FAILURES: u32 = 5;

/// How long a lock lasts, in milliseconds.
pub const PIN_LOCK_MS: u64 = 60000;

/// The failure record of one address.
#[derive(Debug, Clone, Copy, PartialEq, Eq, Structural)]
pub struct FailEntry {
    pub count: u32,
    pub locked_until_ms: u64,
}

/// The guard's table after a failed PIN from `ip` at `now`: the count goes
/// up by one (starting from zero), and reaching the maximum (re)starts a
/// lock of `PIN_LOCK_MS`.
pub open spec fn after_failure(m: Map<IpAddress, FailEntry>, ip: IpAddress, now: u64) -> Map<IpAddress, FailEntry> {
    let e = if m.contains_key(ip) { m[ip] } else { FailEntry { count: 0, locked_until_ms: now } };
    let c = (e.count + 1) as u32;
    m.insert(ip, FailEntry {
        count: c,
        locked_until_ms: if c >= MAX_PIN_FAILURES { (now + PIN_LOCK_MS) as u64 } else { e.locked_until_ms },
    })
}

/// Whether `ip` is locked out at `now`.
pub open spec fn locked_at(m: Map<IpAddress, FailEntry>, ip: IpAddress, now: u64) -> bool {
    m.contains_key(ip) && m[ip].count >= MAX_PIN_FAILURES && now < m[ip].locked_until_ms
}

/// Seconds left on a lock (at least one).
pub open spec fn lock_secs_left(e: FailEntry, now: u64) -> u64 {
    let s = (e.locked_until_ms - now) / 1000;
    if s >= 1 { s as u64 } else { 1 }
}

/// The guard's table after asking about `ip` at `now`: an expired lock is forgotten.
pub open spec fn after_query(m: Map<IpAddress, FailEntry>, ip: IpAddress, now: u64) -> Map<IpAddress, FailEntry> {
    if m.contains_key(ip) && m[ip].count >= MAX_PIN_FAILURES && !(now < m[ip].locked_until_ms) {
        m.remove(ip)
    } else {
        m
    }
}

/// Per-address PIN failure counters.
#[derive(Debug, Clone)]
pub struct PinGuard {
    entries: Vec<(IpAddress, FailEntry)>,
}

/// The table held by an association list.
pub open spec fn assoc_map(s: Seq<(IpAddress, FailEntry)>) -> Map<IpAddress, FailEntry> {
    Map::new(
        |ip: IpAddress| exists|k: int| 0 <= k < s.len() && #[trigger] s[k].0 == ip,
        |ip: IpAddress| s[index_of_ip(s, ip)].1,
    )
}

/// The position of `ip` in the list (meaningful when it occurs).
pub open spec fn index_of_ip(s: Seq<(IpAddress, FailEntry)>, ip: IpAddress) -> int {
    choose|k: int| 0 <= k < s.len() && #[trigger] s[k].0 == ip
}

/// Keys occur at most once.
pub open spec fn assoc_unique(s: Seq<(IpAddress, FailEntry)>) -> bool {
    forall|a: int, b: int| 0 <= a < s.len() && 0 <= b < s.len() && #[trigger] s[a].0 == #[trigger] s[b].0 ==> a == b
}

proof fn lemma_assoc_at(s: Seq<(IpAddress, FailEntry)>, k: int)
    requires
        assoc_unique(s),
        0 <= k < s.len(),
    ensures
        assoc_map(s).contains_key(s[k].0),
        assoc_map(s)[s[k].0] == s[k].1,
{
    let ip = s[k].0;
    assert(exists|m: int| 0 <= m < s.len() && #[trigger] s[m].0 == ip);
    let c = index_of_ip(s, ip);
    assert(s[c].0 == s[k].0);
}

impl View for PinGuard {
    type V = Map<IpAddress, FailEntry>;

    closed spec fn view(&self) -> Map<IpAddress, FailEntry> {
        assoc_map(self.entries@)
    }
}

impl PinGuard {
    /// The guard's internal shape holds.
    pub closed spec fn wf(&self) -> bool {
        assoc_unique(self.entries@)
    }

    /// A guard with no failures recorded.
    pub fn new() -> (g: Self)
        ensures
            g.wf(),
            g@ == Map::<IpAddress, FailEntry>::empty(),
    {
        let g = PinGuard { entries: Vec::new() };
        assert(g@ =~= Map::<IpAddress, FailEntry>::empty());
        g
    }

    fn position(&self, ip: IpAddress) -> (r: Option<usize>)
        requires
            self.wf(),
        ensures
            r matches Some(k) ==> k < self.entries@.len() && self.entries@[k as int].0 == ip,
            r is None ==> !self@.contains_key(ip),
    {
        let n = self.entries.len();
        for k in 0..n
            invariant
                n == self.entries@.len(),
                forall|m: int| 0 <= m < k ==> self.entries@[m].0 != ip,
        {
            if self.entries[k].0 == ip {
                return Some(k);
            }
        }
        None
    }

    /// The record kept for `ip`, if any.
    pub fn entry(&self, ip: IpAddress) -> (r: Option<FailEntry>)
        requires
            self.wf(),
        ensures
            r is Some <==> self@.contains_key(ip),
            r matches Some(e) ==> e == self@[ip],
    {
        match self.position(ip) {
            Some(k) => {
                proof {
                    lemma_assoc_at(self.entries@, k as int);
                }
                Some(self.entries[k].1)
            },
            None => None,
        }
    }

    fn set_entry(&mut self, ip: IpAddress, e: FailEntry)
        requires
            old(self).wf(),
        ensures
            final(self).wf(),
            final(self)@ == old(self)@.insert(ip, e),
    {
        let ghost s = self.entries@;
        match self.position(ip) {
            Some(k) => {
                self.entries.set(k, (ip, e));
                let ghost t = self.entries@;
                assert(assoc_unique(t)) by {
                    assert forall|a: int, b: int| 0 <= a < t.len() && 0 <= b < t.len() && #[trigger] t[a].0 == #[trigger] t[b].0
                        implies a == b by {
                        assert(t[a].0 == s[a].0 && t[b].0 == s[b].0);
                    }
                }
                assert(assoc_map(t) =~= assoc_map(s).insert(ip, e)) by {
                    assert forall|q: IpAddress| #[trigger] assoc_map(t).contains_key(q)
                        <==> assoc_map(s).insert(ip, e).contains_key(q) by {
                        if assoc_map(s).contains_key(q) {
                            let m = choose|m: int| 0 <= m < s.len() && #[trigger] s[m].0 == q;
                            assert(t[m].0 == q);
                        }
                        if assoc_map(t).contains_key(q) {
                            let m = choose|m: int| 0 <= m < t.len() && #[trigger] t[m].0 == q;
                            assert(s[m].0 == q);
                        }
                        assert(t[k as int].0 == ip);
                    }
                    assert forall|q: IpAddress| #[trigger] assoc_map(t).contains_key(q)
                        implies assoc_map(t)[q] == assoc_map(s).insert(ip, e)[q] by {
                        let m = choose|m: int| 0 <= m < t.len() && #[trigger] t[m].0 == q;
                        lemma_assoc_at(t, m);
                        if m != k {
                            lemma_assoc_at(s, m);
                        }
                    }
                }
            },
            None => {
                self.entries.push((ip, e));
                let ghost t = self.entries@;
                assert(assoc_unique(t)) by {
                    assert forall|a: int, b: int| 0 <= a < t.len() && 0 <= b < t.len() && #[trigger] t[a].0 == #[trigger] t[b].0
                        implies a == b by {
                        if a < s.len() && b == s.len() {
                            lemma_assoc_at(s, a);
                        }
                        if b < s.len() && a == s.len() {
                            lemma_assoc_at(s, b);
                        }
                    }
                }
                assert(assoc_map(t) =~= assoc_map(s).insert(ip, e)) by {
                    assert forall|q: IpAddress| #[trigger] assoc_map(t).contains_key(q)
                        <==> assoc_map(s).insert(ip, e).contains_key(q) by {
                        if assoc_map(s).contains_key(q) {
                            let m = choose|m: int| 0 <= m < s.len() && #[trigger] s[m].0 == q;
                            assert(t[m].0 == q);
                        }
                        if assoc_map(t).contains_key(q) {
                            let m = choose|m: int| 0 <= m < t.len() && #[trigger] t[m].0 == q;
                            if m < s.len() {
                                assert(s[m].0 == q);
                            }
                        }
                        assert(t[s.len() as int].0 == ip);
                    }
                    assert forall|q: IpAddress| #[trigger] assoc_map(t).contains_key(q)
                        implies assoc_map(t)[q] == assoc_map(s).insert(ip, e)[q] by {
                        let m = choose|m: int| 0 <= m < t.len() && #[trigger] t[m].0 == q;
                        lemma_assoc_at(t, m);
                        if m < s.len() {
                            lemma_assoc_at(s, m);
                        }
                    }
                }
            },
        }
    }

    fn remove_entry(&mut self, ip: IpAddress)
        requires
            old(self).wf(),
        ensures
            final(self).wf(),
            final(self)@ == old(self)@.remove(ip),
    {
        let ghost s = self.entries@;
        match self.position(ip) {
            Some(k) => {
                self.entries.remove(k);
                let ghost t = self.entries@;
                assert(t =~= s.remove(k as int));
                assert(assoc_unique(t)) by {
                    assert forall|a: int, b: int| 0 <= a < t.len() && 0 <= b < t.len() && #[trigger] t[a].0 == #[trigger] t[b].0
                        implies a == b by {
                        let a2 = if a < k { a } else { a + 1 };
                        let b2 = if b < k { b } else { b + 1 };
                        assert(t[a] == s[a2] && t[b] == s[b2]);
                    }
                }
                assert(assoc_map(t) =~= assoc_map(s).remove(ip)) by {
                    assert forall|q: IpAddress| #[trigger] assoc_map(t).contains_key(q)
                        <==> assoc_map(s).remove(ip).contains_key(q) by {
                        if assoc_map(s).contains_key(q) && q != ip {
                            let m = choose|m: int| 0 <= m < s.len() && #[trigger] s[m].0 == q;
                            if m < k {
                                assert(t[m].0 == q);
                            } else {
                                assert(m != k);
                                assert(t[m - 1].0 == q);
                            }
                        }
                        if assoc_map(t).contains_key(q) {
                            let m = choose|m: int| 0 <= m < t.len() && #[trigger] t[m].0 == q;
                            let m2 = if m < k { m } else { m + 1 };
                            assert(s[m2].0 == q);
                            assert(m2 != k);
                        }
                    }
                    assert forall|q: IpAddress| #[trigger] assoc_map(t).contains_key(q)
                        implies assoc_map(t)[q] == assoc_map(s).remove(ip)[q] by {
                        let m = choose|m: int| 0 <= m < t.len() && #[trigger] t[m].0 == q;
                        let m2 = if m < k { m } else { m + 1 };
                        lemma_assoc_at(t, m);
                        lemma_assoc_at(s, m2);
                        assert(t[m] == s[m2]);
                    }
                }
            },
            None => {
                assert(assoc_map(s) =~= assoc_map(s).remove(ip));
            },
        }
    }

    /// `None` when `ip` may try a PIN at `now`; `Some(seconds)` (at least
    /// one) while it is locked out. An expired lock is forgotten.
    pub fn remaining(&mut self, ip: IpAddress, now: u64) -> (r: Option<u64>)
        requires
            old(self).wf(),
        ensures
            final(self).wf(),
            final(self)@ == after_query(old(self)@, ip, now),
            r is Some <==> locked_at(old(self)@, ip, now),
            r matches Some(s) ==> s == lock_secs_left(old(self)@[ip], now),
    {
        match self.entry(ip) {
            Some(e) => {
                if e.count >= MAX_PIN_FAILURES {
                    if now < e.locked_until_ms {
                        let s = (e.locked_until_ms - now) / 1000;
                        return Some(if s >= 1 { s } else { 1 });
                    }
                    self.remove_entry(ip);
                }
                None
            },
            None => None,
        }
    }

    /// Records a failed PIN from `ip` at `now`.
    pub fn record_failure(&mut self, ip: IpAddress, now: u64)
        requires
            old(self).wf(),
            now <= u64::MAX - PIN_LOCK_MS,
            old(self)@.contains_key(ip) ==> old(self)@[ip].count < u32::MAX,
        ensures
            final(self).wf(),
            final(self)@ == after_failure(old(self)@, ip, now),
    {
        let e = match self.entry(ip) {
            Some(e) => e,
            None => FailEntry { count: 0, locked_until_ms: now },
        };
        let c = e.count + 1;
        let until = if c >= MAX_PIN_FAILURES { now + PIN_LOCK_MS } else { e.locked_until_ms };
        self.set_entry(ip, FailEntry { count: c, locked_until_ms: until });
    }

    /// Records a correct PIN from `ip`: its failures are forgotten.
    pub fn record_success(&mut self, ip: IpAddress)
        requires
            old(self).wf(),
        ensures
            final(self).wf(),
            final(self)@ == old(self)@.remove(ip),
    {
        self.remove_entry(ip);
    }
}

} // verus!

verus! {

// ─── Guard laws ────────────────────────────────────────────────────────────

/// Failures are counted per address: a failure or a success recorded for
/// one address leaves every other address's record as it was.
pub proof fn lemma_guard_is_per_address(m: Map<IpAddress, FailEntry>, ip: IpAddress, other: IpAddress, now: u64)
    requires
        ip != other,
    ensures
        after_failure(m, ip, now).contains_key(other) == m.contains_key(other),
        m.contains_key(other) ==> after_failure(m, ip, now)[other] == m[other],
        m.remove(ip).contains_key(other) == m.contains_key(other),
        m.contains_key(other) ==> m.remove(ip)[other] == m[other],
{
}

/// Below the maximum number of consecutive failures an address is never
/// locked out; the failure that reaches it locks the address for
/// `PIN_LOCK_MS` from that moment.
pub proof fn lemma_lock_after_max_failures(m: Map<IpAddress, FailEntry>, ip: IpAddress, now: u64, later: u64)
    requires
        m.contains_key(ip) ==> m[ip].count < u32::MAX,
        now <= u64::MAX - PIN_LOCK_MS,
        now <= later,
    ensures
        ({
            let m2 = after_failure(m, ip, now);
            let c = if m.contains_key(ip) { m[ip].count as int } else { 0 };
            &&& c + 1 < MAX_PIN_FAILURES ==> !locked_at(m2, ip, later)
            &&& c + 1 >= MAX_PIN_FAILURES ==> (locked_at(m2, ip, later) <==> later < now + PIN_LOCK_MS)
        }),
{
}

/// Starting from no record, five failures in a row lock the address until
/// one lock period after the fifth; four do not.
pub proof fn lemma_five_failures_lock(m: Map<IpAddress, FailEntry>, ip: IpAddress, t: Seq<u64>, later: u64)
    requires
        !m.contains_key(ip),
        t.len() == 5,
        forall|k: int| 0 <= k < 5 ==> #[trigger] t[k] <= u64::MAX - PIN_LOCK_MS,
        t[3] <= later,
        t[4] <= later,
    ensures
        ({
            let m1 = after_failure(m, ip, t[0]);
            let m2 = after_failure(m1, ip, t[1]);
            let m3 = after_failure(m2, ip, t[2]);
            let m4 = after_failure(m3, ip, t[3]);
            let m5 = after_failure(m4, ip, t[4]);
            &&& !locked_at(m4, ip, later)
            &&& locked_at(m5, ip, later) <==> later < t[4] + PIN_LOCK_MS
        }),
{
    let m1 = after_failure(m, ip, t[0]);
    let m2 = after_failure(m1, ip, t[1]);
    let m3 = after_failure(m2, ip, t[2]);
    let m4 = after_failure(m3, ip, t[3]);
    assert(m1[ip].count == 1);
    assert(m2[ip].count == 2);
    assert(m3[ip].count == 3);
    assert(m4[ip].count == 4);
}

/// A correct PIN clears the address: it is no longer locked and its count
/// starts again from zero.
pub proof fn lemma_success_clears(m: Map<IpAddress, FailEntry>, ip: IpAddress, now: u64)
    ensures
        !locked_at(m.remove(ip), ip, now),
        !m.remove(ip).contains_key(ip),
{
}

// ─── Request access ──────────────────────────────────────────────────────────

/// What the LAN access rule does with a request.
#[derive(Debug, Clone, Copy, PartialEq, Eq, Structural)]
pub enum AccessDecision {
    /// Hand the request on.
    Allow,
    /// Answer 401 with `lan_auth_required` (API calls, WebSocket upgrades).
    Unauthorized,
    /// Answer with the PIN entry page (other pages).
    PinPage,
}

/// Paths reachable before a device is authorized.
pub open spec fn is_exempt_path(path: Seq<char>) -> bool {
    path == "/api/lan/auth"@ || path == "/api/health"@
}

/// The access rule: requests from this machine, requests while LAN auth is
/// off, the always-open paths and requests with a valid device token are
/// allowed; otherwise API calls and WebSocket upgrades are refused and
/// pages get the PIN page.
pub open spec fn access_verdict(loopback: bool, enabled: bool, path: Seq<char>, token_valid: bool, ws: bool) -> AccessDecision {
    if loopback || !enabled || is_exempt_path(path) || token_valid {
        AccessDecision::Allow
    } else if starts_with(path, "/api/"@) || ws {
        AccessDecision::Unauthorized
    } else {
        AccessDecision::PinPage
    }
}

/// Decides a request: `loopback` (from this machine), `enabled` (LAN auth
/// switched on), the request path, `token_valid` (a device token cookie
/// that the store knows and has not expired), `websocket_upgrade`.
pub fn access_decision(loopback: bool, enabled: bool, path: &str, token_valid: bool, websocket_upgrade: bool) -> (d: AccessDecision)
    ensures
        d == access_verdict(loopback, enabled, path@, token_valid, websocket_upgrade),
{
    if loopback || !enabled {
        return AccessDecision::Allow;
    }
    let p = chars_of(path);
    if same_chars(&p, &chars_of("/api/lan/auth")) || same_chars(&p, &chars_of("/api/health")) {
        return AccessDecision::Allow;
    }
    if token_valid {
        return AccessDecision::Allow;
    }
    if has_prefix(&p, &chars_of("/api/")) || websocket_upgrade {
        AccessDecision::Unauthorized
    } else {
        AccessDecision::PinPage
    }
}

/// The page to return to after the PIN: the path, with `?query` when present.
pub fn pin_page_next(path: &str, query: Option<&str>) -> (r: String)
    ensures
        query is None ==> r@ == path@,
        query matches Some(q) ==> r@ == path@ + "?"@ + q@,
{
    match query {
        Some(q) => {
            let a = concat_chars(&chars_of(path), &chars_of("?"));
            string_of(&concat_chars(&a, &chars_of(q)))
        },
        None => path.to_string(),
    }
}

// ─── PIN exchange ──────────────────────────────────────────────────────────

/// The answer to a PIN submission.
#[derive(Debug, Clone, Copy, PartialEq, Eq, Structural)]
pub enum PinExchange {
    /// 429: locked out, retry after this many seconds.
    RateLimited(u64),
    /// 400: LAN auth is switched off.
    Disabled,
    /// 400: no PIN has been set.
    NotConfigured,
    /// 401: wrong PIN (counted as a failure).
    BadPin,
    /// The PIN is right: a device token may be issued.
    Accepted,
}

/// The answer to a PIN from `ip` at `now`, and the failure table after
/// it: a locked-out address is answered without looking at the PIN; a
/// wrong PIN is counted; a right one clears the address's failures.
pub open spec fn exchange_outcome(
    m: Map<IpAddress, FailEntry>,
    ip: IpAddress,
    now: u64,
    enabled: bool,
    pin: Seq<char>,
    salt: Seq<char>,
    hash: Seq<char>,
) -> (PinExchange, Map<IpAddress, FailEntry>) {
    let m1 = after_query(m, ip, now);
    if locked_at(m, ip, now) {
        (PinExchange::RateLimited(lock_secs_left(m[ip], now)), m1)
    } else if !enabled {
        (PinExchange::Disabled, m1)
    } else if hash.len() == 0 || salt.len() == 0 {
        (PinExchange::NotConfigured, m1)
    } else if hex_text(sha256_of(pin_hash_input(pin, salt))) != hash {
        (PinExchange::BadPin, after_failure(m1, ip, now))
    } else {
        (PinExchange::Accepted, m1.remove(ip))
    }
}

/// The PIN handed out when it was regenerated unlocks a device whose
/// address is not locked out, while LAN auth is on.
pub proof fn lemma_new_pin_unlocks(
    m: Map<IpAddress, FailEntry>,
    ip: IpAddress,
    now: u64,
    pin: Seq<char>,
    salt: Seq<char>,
    hash: Seq<char>,
)
    requires
        salt.len() > 0,
        hash.len() > 0,
        hash == hex_text(sha256_of(pin_hash_input(pin, salt))),
        !locked_at(m, ip, now),
    ensures
        exchange_outcome(m, ip, now, true, pin, salt, hash).0 == PinExchange::Accepted,
        !exchange_outcome(m, ip, now, true, pin, salt, hash).1.contains_key(ip),
{
}

/// Checks a submitted PIN from `ip` at `now` against the stored salted
/// hash, applying the brute-force guard: a locked-out address is answered
/// without looking at the PIN; a wrong PIN is counted; a right one clears
/// the address's failures.
pub fn pin_exchange(
    guard: &mut PinGuard,
    ip: IpAddress,
    now: u64,
    enabled: bool,
    pin: &str,
    pin_salt: &str,
    pin_hash: &str,
) -> (r: PinExchange)
    requires
        old(guard).wf(),
        now <= u64::MAX - PIN_LOCK_MS,
        old(guard)@.contains_key(ip) ==> old(guard)@[ip].count < u32::MAX,
    ensures
        final(guard).wf(),
        (r, final(guard)@) == exchange_outcome(old(guard)@, ip, now, enabled, pin@, pin_salt@, pin_hash@),
{
    if let Some(secs) = guard.remaining(ip, now) {
        return PinExchange::RateLimited(secs);
    }
    if !enabled {
        return PinExchange::Disabled;
    }
    if pin_hash.unicode_len() == 0 || pin_salt.unicode_len() == 0 {
        return PinExchange::NotConfigured;
    }
    if !pin_matches(pin, pin_salt, pin_hash) {
        guard.record_failure(ip, now);
        return PinExchange::BadPin;
    }
    guard.record_success(ip);
    PinExchange::Accepted
}

} // verus!

verus! {

/// The LAN access settings. The PIN itself is never stored.
#[derive(Debug, Clone)]
pub struct LanAuthConfig {
    /// Whether a PIN is asked of LAN clients.
    pub enabled: bool,
    /// Salted SHA-256 of the PIN (see [`hash_pin`]).
    pub pin_hash: String,
    pub pin_salt: String,
    /// Time of the last change.
    pub updated_at: String,
}

/// A device let in: its bearer token.
#[derive(Debug, Clone)]
pub struct LanToken {
    pub token: String,
    pub created_at: String,
    pub expires_at: String,
}

impl LanAuthConfig {
    /// An administrator's change: the switch is set when `enabled` is
    /// given; with `regenerate` a fresh PIN and salt replace the stored
    /// hash, and the PIN is handed back (the only time it is seen).
    pub fn apply_update(&mut self, enabled: Option<bool>, regenerate: bool) -> (r: Option<String>)
        ensures
            final(self).enabled == match enabled {
                Some(e) => e,
                None => old(self).enabled,
            },
            final(self).updated_at == old(self).updated_at,
            regenerate ==> (r matches Some(pin) && {
                &&& pin@.len() == 6
                &&& forall|k: int| 0 <= k < 6 ==> '0' <= #[trigger] pin@[k] && pin@[k] <= '9'
                &&& final(self).pin_salt@.len() == 32
                &&& forall|k: int| 0 <= k < 32 ==> is_lower_hex(#[trigger] final(self).pin_salt@[k])
                &&& final(self).pin_hash@ == hex_text(sha256_of(pin_hash_input(pin@, final(self).pin_salt@)))
                &&& final(self).pin_hash@.len() == 64
            }),
            !regenerate ==> r is None && final(self).pin_hash == old(self).pin_hash && final(self).pin_salt == old(self).pin_salt,
    {
        match enabled {
            Some(e) => {
                self.enabled = e;
            },
            None => {},
        }
        if regenerate {
            let pin = generate_pin();
            let salt = generate_salt();
            self.pin_hash = hash_pin(pin.as_str(), salt.as_str());
            self.pin_salt = salt;
            Some(pin)
        } else {
            None
        }
    }

    /// The settings before any are stored: off, no PIN.
    pub fn unset() -> (r: Self)
        ensures
            !r.enabled,
            r.pin_hash@.len() == 0,
            r.pin_salt@.len() == 0,
            r.updated_at@.len() == 0,
    {
        LanAuthConfig { enabled: false, pin_hash: String::new(), pin_salt: String::new(), updated_at: String::new() }
    }
}

} // verus!
