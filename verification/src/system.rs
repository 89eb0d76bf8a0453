//! What the gateway reports about itself: health, LAN addresses, the git
//! branch, pi's status and the connected clients.

use vstd::prelude::*;
use crate::budget::dec_digit;
use crate::search::{contains_text, find_text, lemma_match_exists};
use crate::text::{chars_of, find_char, is_ws, lemma_split_nonempty, lowercase_text, split_chars, split_seq, str_lowercase, string_of, trim, trim_chars, views};

verus! {

/// The SVG of the QR code of `data`, drawn at least `size` pixels wide in
/// the `dark` and `light` colours; `None` when the data does not fit in a
/// QR code.
pub uninterp spec fn qr_svg_of(data: Seq<char>, size: u32, dark: Seq<char>, light: Seq<char>) -> Option<Seq<char>>;

/// `qrcode::QrCode::new(data)` and, when it fits, its SVG rendering with
/// `min_dimensions(size, size)` and the two colours. The drawing is named,
/// not described.
#[verifier::external_body]
fn qr_render(data: &str, size: u32, dark: &str, light: &str) -> (r: Option<String>)
    ensures
        crate::rpc::opt_view(r) == qr_svg_of(data@, size, dark@, light@),
{
    match qrcode::QrCode::new(data) {
        Ok(code) => Some(
            code.render().min_dimensions(size, size).dark_color(qrcode::render::svg::Color(dark)).light_color(
                qrcode::render::svg::Color(light),
            ).build(),
        ),
        Err(_) => None,
    }
}

/// Smallest width of the LAN QR code, in pixels.
pub const QR_MIN_SIZE: u32 = 200;

/// The QR code of a text as SVG: black on white, at least
/// [`QR_MIN_SIZE`] pixels wide; empty when the text does not fit in one.
pub fn qr_svg(data: &str) -> (r: String)
    ensures
        r@ == match qr_svg_of(data@, QR_MIN_SIZE, "#000000"@, "#ffffff"@) {
            Some(s) => s,
            None => Seq::<char>::empty(),
        },
{
    match qr_render(data, QR_MIN_SIZE, "#000000", "#ffffff") {
        Some(s) => s,
        None => String::new(),
    }
}

/// The end of the run of characters from `i` on that are white space
/// exactly when `ws` is.
pub open spec fn run_end(s: Seq<char>, i: int, ws: bool) -> int
    decreases s.len() - i,
{
    if 0 <= i < s.len() && is_ws(s[i]) == ws {
        run_end(s, i + 1, ws)
    } else {
        i
    }
}

/// The first white-space separated word of `s`, as
/// `split_whitespace().next()` gives it.
pub open spec fn first_word(s: Seq<char>) -> Option<Seq<char>> {
    let a = run_end(s, 0, true);
    if a >= s.len() {
        None
    } else {
        Some(s.subrange(a, run_end(s, a, false)))
    }
}

/// The address an `ifconfig`/`ip addr` line gives: the first word after
/// `inet ` on a line that starts with it once trimmed.
pub open spec fn inet_word(line: Seq<char>) -> Option<Seq<char>> {
    let t = trim(line);
    if t.len() >= 5 && t.subrange(0, 5) == seq!['i', 'n', 'e', 't', ' '] {
        first_word(t.skip(5))
    } else {
        None
    }
}

fn run_end_index(s: &Vec<char>, i: usize, ws: bool) -> (r: usize)
    requires
        i <= s@.len(),
    ensures
        r as int == run_end(s@, i as int, ws),
        i <= r <= s@.len(),
{
    let mut k = i;
    while k < s.len() && crate::text::is_white_space(s[k]) == ws
        invariant
            i <= k <= s@.len(),
            run_end(s@, i as int, ws) == run_end(s@, k as int, ws),
        decreases s.len() - k,
    {
        k = k + 1;
    }
    k
}

/// The address on a line of `ifconfig -a` or `ip addr` output, if the
/// line is an `inet` line (see [`inet_word`]).
pub fn inet_address(line: &str) -> (r: Option<String>)
    ensures
        crate::rpc::opt_view(r) == inet_word(line@),
{
    let t = trim_chars(&chars_of(line));
    let head: [char; 5] = ['i', 'n', 'e', 't', ' '];
    assert(head@ =~= seq!['i', 'n', 'e', 't', ' ']);
    if t.len() < 5 || !crate::text::same_chars(&crate::text::slice_chars(&t, 0, 5), &head) {
        return None;
    }
    let rest = crate::text::skip_chars(&t, 5);
    let a = run_end_index(&rest, 0, true);
    if a >= rest.len() {
        return None;
    }
    let b = run_end_index(&rest, a, false);
    Some(string_of(&crate::text::slice_chars(&rest, a, b)))
}

/// The address an `ipconfig` line gives: on a line that, once trimmed,
/// mentions `IPv4` and a colon, what follows its last colon, trimmed.
pub open spec fn ipv4_config_word(line: Seq<char>) -> Option<Seq<char>> {
    let t = trim(line);
    if contains_text(t, "IPv4"@) && t.contains(':') {
        Some(trim(split_seq(t, ':').last()))
    } else {
        None
    }
}

/// The address on a line of Windows `ipconfig` output, if the line is an
/// IPv4 line (see [`ipv4_config_word`]).
pub fn ipv4_config_address(line: &str) -> (r: Option<String>)
    ensures
        crate::rpc::opt_view(r) == ipv4_config_word(line@),
{
    let t = trim_chars(&chars_of(line));
    let has_v4 = has_text(&t, "IPv4");
    let colon = find_char(&t, ':');
    proof {
        if colon as int == t@.len() {
            assert forall|j: int| 0 <= j < t@.len() implies t@[j] != ':' by {}
            assert(!t@.contains(':'));
        } else {
            assert(t@[colon as int] == ':');
            assert(t@.contains(':'));
        }
    }
    if !has_v4 || colon >= t.len() {
        return None;
    }
    let parts = split_chars(&t, ':');
    proof {
        lemma_split_nonempty(t@, ':');
    }
    let n = parts.len();
    assert(views(parts@)[n - 1] == parts@[n - 1]@);
    Some(string_of(&trim_chars(&parts[n - 1])))
}

/// `s` without trailing colons.
pub open spec fn trim_end_colons(s: Seq<char>) -> Seq<char>
    decreases s.len(),
{
    if s.len() > 0 && s.last() == ':' {
        trim_end_colons(s.drop_last())
    } else {
        s
    }
}

/// What an `ipconfig` line says of the adapter the following lines belong
/// to: nothing when it is no adapter heading (it does not mention
/// `adapter`); else the first word after `adapter` (colons at the end and
/// white space around dropped), lower-cased, when there is one.
pub open spec fn adapter_heading(line: Seq<char>) -> Option<Option<Seq<char>>> {
    let t = trim(line);
    match crate::search::match_from(t, "adapter"@, 0) {
        None => None,
        Some(i) => Some(
            match first_word(trim(trim_end_colons(t.skip(i + 7)))) {
                Some(w) => Some(lowercase_text(w)),
                None => None,
            },
        ),
    }
}

/// What a line of Windows `ipconfig` output says of the adapter that
/// follows (see [`adapter_heading`]).
pub fn adapter_heading_of(line: &str) -> (r: Option<Option<String>>)
    ensures
        match r {
            None => adapter_heading(line@) is None,
            Some(w) => adapter_heading(line@) == Some(crate::rpc::opt_view(w)),
        },
{
    let t = trim_chars(&chars_of(line));
    let key = chars_of("adapter");
    proof {
        reveal_strlit("adapter");
    }
    assert(key@.len() == 7);
    match find_text(&t, &key) {
        None => None,
        Some(i) => {
            proof {
                lemma_match_bound(t@, key@, 0);
                assert(crate::search::match_from(t@, key@, 0) == Some(i as int));
                assert(i + key@.len() <= t@.len());
            }
            let tn = t.len();
            assert(i + 7 <= tn);
            let mut rest = crate::text::skip_chars(&t, i + 7);
            while rest.len() > 0 && rest[rest.len() - 1] == ':'
                invariant
                    trim_end_colons(rest@) == trim_end_colons(t@.skip(i + 7)),
                decreases rest@.len(),
            {
                rest.pop();
            }
            let w = trim_chars(&rest);
            let a = run_end_index(&w, 0, true);
            if a >= w.len() {
                Some(None)
            } else {
                let b = run_end_index(&w, a, false);
                let word = string_of(&crate::text::slice_chars(&w, a, b));
                Some(Some(str_lowercase(word.as_str())))
            }
        },
    }
}

proof fn lemma_match_bound(h: Seq<char>, n: Seq<char>, k: int)
    ensures
        crate::search::match_from(h, n, k) matches Some(p) ==> k <= p && p + n.len() <= h.len(),
    decreases h.len() + 1 - k,
{
    if k >= 0 && k + n.len() <= h.len() && h.subrange(k, k + n.len()) != n {
        lemma_match_bound(h, n, k + 1);
    }
}

/// Adapter names of virtual and tunnel adapters, whose addresses are not
/// announced on the LAN.
pub open spec fn virtual_markers() -> Seq<Seq<char>> {
    seq!["vehternet"@, "wsl"@, "docker"@, "hyper-v"@, "virtualbox"@, "vmware"@, "npcap"@, "loopback"@,
        "bluetooth"@, "isatap"@, "tailscale"@, "zerotier"@, "tun"@, "tap"@]
}

/// The adapter is virtual: its name contains one of [`virtual_markers`].
pub open spec fn is_virtual_adapter_name(name: Seq<char>) -> bool {
    exists|m: int| 0 <= m < virtual_markers().len() && contains_text(name, #[trigger] virtual_markers()[m])
}

/// Whether an adapter (named as [`adapter_heading`] gives it) is virtual.
pub fn is_virtual_adapter(name: &str) -> (r: bool)
    ensures
        r == is_virtual_adapter_name(name@),
{
    let c = chars_of(name);
    let markers: [&str; 14] = ["vehternet", "wsl", "docker", "hyper-v", "virtualbox", "vmware", "npcap", "loopback",
        "bluetooth", "isatap", "tailscale", "zerotier", "tun", "tap"];
    assert(markers@.map_values(|m: &str| m@) =~= virtual_markers());
    let mut k: usize = 0;
    while k < 14
        invariant
            k <= 14,
            markers@.map_values(|m: &str| m@) == virtual_markers(),
            c@ == name@,
            forall|j: int| 0 <= j < k ==> !contains_text(c@, #[trigger] virtual_markers()[j]),
        decreases 14 - k,
    {
        assert(virtual_markers()[k as int] == markers@[k as int]@);
        if has_text(&c, markers[k]) {
            assert(contains_text(c@, virtual_markers()[k as int]));
            assert(virtual_markers().len() == 14);
            assert(is_virtual_adapter_name(name@));
            return true;
        }
        k = k + 1;
    }
    false
}

/// The port the gateway listens on when none is configured.
pub const DEFAULT_HTTP_PORT: u16 = 31421;

/// Where the gateway tries to listen: the configured port, else
/// [`DEFAULT_HTTP_PORT`]; and whether, when that port is taken, any free
/// port will do (only when none was configured).
pub fn listen_plan(port: Option<u16>) -> (r: (u16, bool))
    ensures
        r == match port {
            Some(p) => (p, false),
            None => (DEFAULT_HTTP_PORT, true),
        },
{
    match port {
        Some(p) => (p, false),
        None => (DEFAULT_HTTP_PORT, true),
    }
}

/// The name the gateway announces itself under on the LAN: the name set
/// by the administrator (trimmed), when not blank; else the host's name;
/// else "piter" when the host's name cannot be read.
pub fn mdns_instance_name(configured: Option<&str>, host: Option<&str>) -> (r: String)
    ensures
        ({
            let fallback = match host {
                Some(h) => h@,
                None => "piter"@,
            };
            r@ == match configured {
                Some(n) => if trim(n@).len() > 0 {
                    trim(n@)
                } else {
                    fallback
                },
                None => fallback,
            }
        }),
{
    let fallback = match host {
        Some(h) => h.to_string(),
        None => "piter".to_string(),
    };
    match configured {
        Some(n) => {
            let t = trim_chars(&chars_of(n));
            if t.len() > 0 {
                string_of(&t)
            } else {
                fallback
            }
        },
        None => fallback,
    }
}

/// The gateway's health.
#[derive(Debug, Clone)]
pub struct HealthResponse {
    pub status: String,
    pub version: String,
    pub pi_version: String,
    pub lan_urls: Vec<String>,
    pub broker_url: String,
    pub uptime_secs: u64,
}

/// How to reach the gateway from the LAN.
#[derive(Debug, Clone)]
pub struct LanInfoResponse {
    pub broker_ws_url: String,
    pub http_url: String,
    pub lan_urls: Vec<String>,
    pub qr_data: String,
}

/// The git branch of the gateway's directory.
#[derive(Debug, Clone)]
pub struct GitBranchResponse {
    pub branch: Option<String>,
}

/// Whether a pi instance runs.
#[derive(Debug, Clone)]
pub struct PiStatusResponse {
    pub running: bool,
    pub instance_id: Option<String>,
    pub session_path: Option<String>,
}

/// A WebSocket client as listed on the share page.
#[derive(Debug, Clone)]
pub struct ClientConnection {
    pub id: u64,
    /// `work`, `chat` or `ui`, by endpoint.
    pub kind: String,
    /// `web`, `app` or `unknown`, by user agent.
    pub form: String,
    pub ip: String,
    pub user_agent: String,
    /// Epoch milliseconds.
    pub connected_at_ms: i64,
}

/// The decimal digits of a number.
pub open spec fn decimal(n: nat) -> Seq<char>
    decreases n,
{
    if n < 10 {
        seq![dec_digit(n as int)]
    } else {
        decimal(n / 10).push(dec_digit(n as int))
    }
}

fn digit_char(d: u64) -> (c: char)
    requires
        d < 10,
    ensures
        c == dec_digit(d as int),
{
    let c = match d {
        0 => '0',
        1 => '1',
        2 => '2',
        3 => '3',
        4 => '4',
        5 => '5',
        6 => '6',
        7 => '7',
        8 => '8',
        _ => '9',
    };
    assert(c == dec_digit(d as int)) by {
        assert(d as int % 10 == d as int);
    }
    c
}

/// A number in decimal.
pub fn decimal_text(n: u64) -> (r: Vec<char>)
    ensures
        r@ == decimal(n as nat),
    decreases n,
{
    if n < 10 {
        let mut v: Vec<char> = Vec::new();
        v.push(digit_char(n));
        assert(v@ =~= seq![dec_digit(n as int)]);
        v
    } else {
        let mut v = decimal_text(n / 10);
        v.push(digit_char(n % 10));
        assert(dec_digit((n % 10) as int) == dec_digit(n as int)) by {
            assert((n % 10) as int % 10 == n as int % 10);
        }
        v
    }
}

fn append(v: &mut Vec<char>, s: &str)
    ensures
        final(v)@ == old(v)@ + s@,
{
    let c = chars_of(s);
    let r = crate::text::concat_chars(v, &c);
    *v = r;
}

fn append_chars(v: &mut Vec<char>, s: &Vec<char>)
    ensures
        final(v)@ == old(v)@ + s@,
{
    let r = crate::text::concat_chars(v, s);
    *v = r;
}

/// `http://<host>:<port><path>`.
pub open spec fn http_url(host: Seq<char>, port: u16, path: Seq<char>) -> Seq<char> {
    "http://"@ + host + seq![':'] + decimal(port as nat) + path
}

/// `ws://<host>:<port><path>`.
pub open spec fn ws_url(host: Seq<char>, port: u16, path: Seq<char>) -> Seq<char> {
    "ws://"@ + host + seq![':'] + decimal(port as nat) + path
}

fn url(scheme: &str, host: &str, port: u16, path: &str) -> (r: Vec<char>)
    ensures
        r@ == scheme@ + host@ + seq![':'] + decimal(port as nat) + path@,
{
    let mut v: Vec<char> = Vec::new();
    append(&mut v, scheme);
    append(&mut v, host);
    v.push(':');
    let d = decimal_text(port as u64);
    append_chars(&mut v, &d);
    append(&mut v, path);
    assert(v@ =~= scheme@ + host@ + seq![':'] + decimal(port as nat) + path@);
    v
}

/// The abstract values of a list of strings.
pub open spec fn texts(v: Seq<String>) -> Seq<Seq<char>> {
    v.map_values(|s: String| s@)
}

/// The chat address on each LAN address.
pub open spec fn chat_urls(ips: Seq<Seq<char>>, port: u16) -> Seq<Seq<char>> {
    ips.map_values(|ip: Seq<char>| http_url(ip, port, "/chat"@))
}

fn chat_urls_of(lan_ips: &[String], port: u16) -> (r: Vec<String>)
    ensures
        texts(r@) == chat_urls(texts(lan_ips@), port),
{
    let mut out: Vec<String> = Vec::new();
    for k in 0..lan_ips.len()
        invariant
            out@.len() == k,
            forall|j: int| 0 <= j < k ==> (#[trigger] out@[j])@ == http_url(lan_ips@[j]@, port, "/chat"@),
    {
        out.push(string_of(&url("http://", lan_ips[k].as_str(), port, "/chat")));
    }
    assert(texts(out@) =~= chat_urls(texts(lan_ips@), port));
    out
}

/// The gateway's health: running, its version and pi's, the chat address
/// on each LAN address, the local broker address and the uptime.
pub fn get_health(version: &str, pi_version: &str, lan_ips: &[String], port: u16, uptime_secs: u64) -> (r: HealthResponse)
    ensures
        r.status@ == "ok"@,
        r.version@ == version@,
        r.pi_version@ == pi_version@,
        texts(r.lan_urls@) == chat_urls(texts(lan_ips@), port),
        r.broker_url@ == ws_url("127.0.0.1"@, port, "/ws"@),
        r.uptime_secs == uptime_secs,
{
    HealthResponse {
        status: "ok".to_string(),
        version: version.to_string(),
        pi_version: pi_version.to_string(),
        lan_urls: chat_urls_of(lan_ips, port),
        broker_url: string_of(&url("ws://", "127.0.0.1", port, "/ws")),
        uptime_secs: uptime_secs,
    }
}

/// How to reach the gateway: the local broker and HTTP addresses, the chat
/// address on each LAN address, and the first of these (or the local chat
/// address) for the QR code.
pub fn get_lan_info(lan_ips: &[String], port: u16) -> (r: LanInfoResponse)
    ensures
        r.broker_ws_url@ == ws_url("127.0.0.1"@, port, "/ws"@),
        r.http_url@ == http_url("127.0.0.1"@, port, "/"@),
        texts(r.lan_urls@) == chat_urls(texts(lan_ips@), port),
        r.qr_data@ == if lan_ips@.len() > 0 {
            http_url(lan_ips@[0]@, port, "/chat"@)
        } else {
            http_url("127.0.0.1"@, port, "/chat"@)
        },
{
    let lan_urls = chat_urls_of(lan_ips, port);
    assert(texts(lan_urls@).len() == lan_urls@.len() && texts(lan_ips@).len() == lan_ips@.len());
    assert(lan_urls@.len() == lan_ips@.len());
    let qr_data = if lan_urls.len() > 0 {
        assert(texts(lan_urls@)[0] == lan_urls@[0]@);
        assert(texts(lan_urls@).len() == texts(lan_ips@).len());
        assert(texts(lan_ips@)[0] == lan_ips@[0]@);
        assert(chat_urls(texts(lan_ips@), port)[0] == http_url(lan_ips@[0]@, port, "/chat"@));
        lan_urls[0].clone()
    } else {
        string_of(&url("http://", "127.0.0.1", port, "/chat"))
    };
    LanInfoResponse {
        broker_ws_url: string_of(&url("ws://", "127.0.0.1", port, "/ws")),
        http_url: string_of(&url("http://", "127.0.0.1", port, "/")),
        lan_urls: lan_urls,
        qr_data: qr_data,
    }
}

/// The address put in the LAN QR code: the mobile chat page on the first
/// LAN address with its broker address, or the local chat page.
pub fn lan_qr_data(lan_ips: &[String], port: u16) -> (r: String)
    ensures
        lan_ips@.len() > 0 ==> r@ == http_url(lan_ips@[0]@, port, "/chat?brokerWs="@) + ws_url(
            lan_ips@[0]@,
            port,
            "/ws&mobile=1"@,
        ),
        lan_ips@.len() == 0 ==> r@ == http_url("127.0.0.1"@, port, "/chat"@),
{
    if lan_ips.len() > 0 {
        let ip = lan_ips[0].as_str();
        let mut v = url("http://", ip, port, "/chat?brokerWs=");
        let w = url("ws://", ip, port, "/ws&mobile=1");
        append_chars(&mut v, &w);
        string_of(&v)
    } else {
        string_of(&url("http://", "127.0.0.1", port, "/chat"))
    }
}

/// The chat addresses handed to clients on each LAN address, with the
/// broker address of the chat socket.
pub fn lan_urls(lan_ips: &[String], port: u16) -> (r: Vec<String>)
    ensures
        r@.len() == lan_ips@.len(),
        forall|k: int| 0 <= k < r@.len() ==> (#[trigger] r@[k])@ == http_url(lan_ips@[k]@, port, "/chat?brokerWs="@)
            + ws_url(lan_ips@[k]@, port, "/chat-ws"@),
{
    let mut out: Vec<String> = Vec::new();
    for k in 0..lan_ips.len()
        invariant
            out@.len() == k,
            forall|j: int| 0 <= j < k ==> (#[trigger] out@[j])@ == http_url(lan_ips@[j]@, port, "/chat?brokerWs="@)
                + ws_url(lan_ips@[j]@, port, "/chat-ws"@),
    {
        let ip = lan_ips[k].as_str();
        let mut v = url("http://", ip, port, "/chat?brokerWs=");
        let w = url("ws://", ip, port, "/chat-ws");
        append_chars(&mut v, &w);
        out.push(string_of(&v));
    }
    out
}

/// The branch printed by `git rev-parse --abbrev-ref HEAD`: its trimmed
/// output, none when the command failed or printed nothing.
pub fn git_branch(success: bool, stdout: &str) -> (r: GitBranchResponse)
    ensures
        !success || trim(stdout@).len() == 0 ==> r.branch is None,
        success && trim(stdout@).len() > 0 ==> (r.branch matches Some(b) && b@ == trim(stdout@)),
{
    if !success {
        return GitBranchResponse { branch: None };
    }
    let t = trim_chars(&chars_of(stdout));
    if t.len() == 0 {
        GitBranchResponse { branch: None }
    } else {
        GitBranchResponse { branch: Some(string_of(&t)) }
    }
}

fn has_text(s: &Vec<char>, t: &str) -> (r: bool)
    ensures
        r == contains_text(s@, t@),
{
    let n = chars_of(t);
    proof {
        lemma_match_exists(s@, t@, 0);
    }
    match find_text(s, &n) {
        Some(_) => true,
        None => false,
    }
}

/// The form of a client, from its user agent (case ignored): `app` for
/// the Flutter app and mobile browsers, `web` otherwise.
pub fn detect_client_form(ua: &str) -> (r: String)
    ensures
        r@ == if contains_text(lowercase_text(ua@), "dart/"@) || contains_text(lowercase_text(ua@), "android"@)
            || contains_text(lowercase_text(ua@), "iphone"@) || contains_text(lowercase_text(ua@), "mobile"@) {
            "app"@
        } else {
            "web"@
        },
{
    let u = chars_of(str_lowercase(ua).as_str());
    if has_text(&u, "dart/") || has_text(&u, "android") || has_text(&u, "iphone") || has_text(&u, "mobile") {
        "app".to_string()
    } else {
        "web".to_string()
    }
}

} // verus!
