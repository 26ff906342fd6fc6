//! Host-based routing: reading the `Host` header out of a raw request,
//! spotting WebSocket upgrades, deciding where a connection goes, and
//! rendering the built-in status page and error bodies.

use vstd::prelude::*;

use crate::codec::sp_ws;
use crate::daemon::trim_back;
use crate::strutil::{chars_to_string, contains_seq, contains_chars, dec_digits, string_to_chars};
use crate::types::{Service, ServiceView};

verus! {

// ---------------------------------------------------------------------
// The Host header
// ---------------------------------------------------------------------

/// Index of the first newline in `s`, or its length.
pub open spec fn first_nl(s: Seq<char>) -> nat
    decreases s.len(),
{
    if s.len() == 0 {
        0
    } else if s[0] == '\n' {
        0
    } else {
        1 + first_nl(s.skip(1))
    }
}

/// A line with any trailing carriage return removed.
pub open spec fn strip_cr(l: Seq<char>) -> Seq<char> {
    if l.len() > 0 && l.last() == '\r' {
        l.drop_last()
    } else {
        l
    }
}

/// The line names the `Host` header, compared without regard to
/// ASCII case.
pub open spec fn is_host_line(l: Seq<char>) -> bool {
    &&& l.len() >= 5
    &&& (l[0] == 'h' || l[0] == 'H')
    &&& (l[1] == 'o' || l[1] == 'O')
    &&& (l[2] == 's' || l[2] == 'S')
    &&& (l[3] == 't' || l[3] == 'T')
    &&& l[4] == ':'
}

/// The header's value: what follows the colon, with surrounding
/// whitespace removed.
pub open spec fn host_value(l: Seq<char>) -> Seq<char> {
    trim_back(sp_ws(l.skip(5)))
}

/// The value of the first `Host` header among the given lines, if
/// one is present.
pub open spec fn sp_extract_host(s: Seq<char>) -> Option<Seq<char>>
    decreases s.len(),
{
    if s.len() == 0 {
        None
    } else {
        let n = first_nl(s);
        let line = strip_cr(s.take(n as int));
        if is_host_line(line) {
            Some(host_value(line))
        } else if n < s.len() {
            sp_extract_host(s.skip(n as int + 1))
        } else {
            None
        }
    }
}

/// The first newline sits exactly where the scan found it.
proof fn lemma_first_nl_at(s: Seq<char>, idx: int)
    requires
        0 <= idx <= s.len(),
        forall|k: int| 0 <= k < idx ==> s[k] != '\n',
        idx == s.len() || s[idx] == '\n',
    ensures
        first_nl(s) == idx,
    decreases idx,
{
    if s.len() == 0 {
    } else if idx == 0 {
    } else {
        assert(s[0] != '\n');
        assert forall|k: int| 0 <= k < idx - 1 implies s.skip(1)[k] != '\n' by {
            assert(s.skip(1)[k] == s[k + 1]);
        }
        if idx < s.len() {
            assert(s.skip(1)[idx - 1] == s[idx]);
        }
        lemma_first_nl_at(s.skip(1), idx - 1);
    }
}

/// The characters of `v` between `a` and `b`, as a string.
fn chars_range_to_string(v: &Vec<char>, a: usize, b: usize) -> (r: String)
    requires
        a <= b <= v.len(),
    ensures
        r@ == v@.subrange(a as int, b as int),
{
    let mut out: Vec<char> = Vec::new();
    let mut i = a;
    while i < b
        invariant
            a <= i <= b <= v.len(),
            out@ == v@.subrange(a as int, i as int),
        decreases b - i,
    {
        out.push(v[i]);
        proof {
            assert(v@.subrange(a as int, i + 1) =~= v@.subrange(a as int, i as int).push(
                v@[i as int],
            ));
        }
        i += 1;
    }
    chars_to_string(&out)
}

/// Extract the first `Host` header value from raw HTTP headers.
#[verifier::rlimit(100)]
pub fn extract_host_from_headers(headers: &str) -> (r: Option<String>)
    ensures
        match r {
            Some(h) => sp_extract_host(headers@) == Some(h@),
            None => sp_extract_host(headers@) is None,
        },
{
    let v = string_to_chars(headers);
    proof {
        assert(v@.skip(0) =~= v@);
    }
    let mut pos: usize = 0;
    loop
        invariant
            0 <= pos <= v.len(),
            v@ == headers@,
            sp_extract_host(headers@) == sp_extract_host(v@.skip(pos as int)),
        decreases v.len() - pos,
    {
        if pos >= v.len() {
            return None;
        }
        // Find the end of the current line.
        let mut e = pos;
        while e < v.len() && v[e] != '\n'
            invariant
                pos <= e <= v.len(),
                forall|k: int| pos <= k < e ==> v@[k] != '\n',
            decreases v.len() - e,
        {
            e += 1;
        }
        let ghost suffix = v@.skip(pos as int);
        proof {
            assert forall|k: int| 0 <= k < e - pos implies suffix[k] != '\n' by {
                assert(suffix[k] == v@[pos + k]);
            }
            if e < v.len() {
                assert(suffix[e - pos] == v@[e as int]);
            }
            lemma_first_nl_at(suffix, e - pos);
        }
        // Strip a trailing carriage return.
        let le = if e > pos && v[e - 1] == '\r' {
            e - 1
        } else {
            e
        };
        let ghost line = strip_cr(suffix.take(e - pos));
        proof {
            assert(suffix.take(e - pos) =~= v@.subrange(pos as int, e as int));
            if e > pos && v@[e - 1] == '\r' {
                assert(v@.subrange(pos as int, e as int).last() == v@[e - 1]);
                assert(v@.subrange(pos as int, e as int).drop_last() =~= v@.subrange(
                    pos as int,
                    e - 1,
                ));
            }
            assert(line =~= v@.subrange(pos as int, le as int));
        }
        // Does this line name the Host header?
        let is_host = le - pos >= 5 && (v[pos] == 'h' || v[pos] == 'H') && (v[pos + 1] == 'o'
            || v[pos + 1] == 'O') && (v[pos + 2] == 's' || v[pos + 2] == 'S') && (v[pos + 3]
            == 't' || v[pos + 3] == 'T') && v[pos + 4] == ':';
        proof {
            if le - pos >= 5 {
                assert(line[0] == v@[pos as int]);
                assert(line[1] == v@[pos + 1]);
                assert(line[2] == v@[pos + 2]);
                assert(line[3] == v@[pos + 3]);
                assert(line[4] == v@[pos + 4]);
            }
            assert(is_host == is_host_line(line));
        }
        if is_host {
            proof {
                assert(line.skip(5) =~= v@.subrange(pos + 5, le as int));
            }
            // Trim the value.
            let mut a = pos + 5;
            while a < le && (v[a] == ' ' || v[a] == '\t' || v[a] == '\n' || v[a] == '\r')
                invariant
                    pos + 5 <= a <= le <= v.len(),
                    line =~= v@.subrange(pos as int, le as int),
                    line.len() >= 5,
                    sp_ws(line.skip(5)) == sp_ws(v@.subrange(a as int, le as int)),
                decreases le - a,
            {
                proof {
                    let cur = v@.subrange(a as int, le as int);
                    assert(cur[0] == v@[a as int]);
                    assert(cur.skip(1) =~= v@.subrange(a + 1, le as int));
                }
                a += 1;
            }
            proof {
                let cur = v@.subrange(a as int, le as int);
                if cur.len() > 0 {
                    assert(cur[0] == v@[a as int]);
                }
                assert(sp_ws(cur) == cur);
            }
            let mut b = le;
            while b > a && (v[b - 1] == ' ' || v[b - 1] == '\t' || v[b - 1] == '\n' || v[b - 1]
                == '\r')
                invariant
                    a <= b <= le <= v.len(),
                    trim_back(v@.subrange(a as int, le as int)) == trim_back(
                        v@.subrange(a as int, b as int),
                    ),
                decreases b,
            {
                proof {
                    let cur = v@.subrange(a as int, b as int);
                    assert(cur.last() == v@[b - 1]);
                    assert(cur.drop_last() =~= v@.subrange(a as int, b - 1));
                }
                b -= 1;
            }
            proof {
                let cur = v@.subrange(a as int, b as int);
                if cur.len() > 0 {
                    assert(cur.last() == v@[b - 1]);
                }
                assert(trim_back(cur) == cur);
                assert(line.skip(5) =~= v@.subrange(pos + 5, le as int));
                assert(host_value(line) == v@.subrange(a as int, b as int));
            }
            let value = chars_range_to_string(&v, a, b);
            return Some(value);
        }
        if e >= v.len() {
            proof {
                assert(first_nl(suffix) == suffix.len());
            }
            return None;
        }
        proof {
            assert(suffix.skip(e - pos + 1) =~= v@.skip(e + 1));
        }
        pos = e + 1;
    }
}

// ---------------------------------------------------------------------
// WebSocket detection and the routing domain
// ---------------------------------------------------------------------

/// The raw headers ask for a WebSocket upgrade: they hold an
/// `Upgrade: websocket` header in either of the two casings the
/// daemon accepts.
pub open spec fn spec_is_websocket(s: Seq<char>) -> bool {
    contains_seq(s, "Upgrade: websocket"@) || contains_seq(s, "upgrade: websocket"@)
}

/// True exactly when the headers ask for a WebSocket upgrade.
pub fn is_websocket_upgrade(headers: &str) -> (r: bool)
    ensures
        r == spec_is_websocket(headers@),
{
    let v = string_to_chars(headers);
    let upper = string_to_chars("Upgrade: websocket");
    let lower = string_to_chars("upgrade: websocket");
    let a = contains_chars(&v, &upper);
    if a {
        true
    } else {
        contains_chars(&v, &lower)
    }
}

/// Index of the first colon in `s`, or its length.
pub open spec fn first_colon(s: Seq<char>) -> nat
    decreases s.len(),
{
    if s.len() == 0 {
        0
    } else if s[0] == ':' {
        0
    } else {
        1 + first_colon(s.skip(1))
    }
}

/// The routing domain of a `Host` value: everything before the first
/// colon, so that a `:port` suffix is ignored.
pub open spec fn spec_domain_of_host(s: Seq<char>) -> Seq<char> {
    s.take(first_colon(s) as int)
}

/// The first colon sits exactly where the scan found it.
proof fn lemma_first_colon_at(s: Seq<char>, idx: int)
    requires
        0 <= idx <= s.len(),
        forall|k: int| 0 <= k < idx ==> s[k] != ':',
        idx == s.len() || s[idx] == ':',
    ensures
        first_colon(s) == idx,
    decreases idx,
{
    if s.len() == 0 {
    } else if idx == 0 {
    } else {
        assert(s[0] != ':');
        assert forall|k: int| 0 <= k < idx - 1 implies s.skip(1)[k] != ':' by {
            assert(s.skip(1)[k] == s[k + 1]);
        }
        if idx < s.len() {
            assert(s.skip(1)[idx - 1] == s[idx]);
        }
        lemma_first_colon_at(s.skip(1), idx - 1);
    }
}

/// Strip any `:port` suffix from a `Host` value.
pub fn domain_of_host(host: &str) -> (r: String)
    ensures
        r@ == spec_domain_of_host(host@),
{
    let v = string_to_chars(host);
    let mut i: usize = 0;
    while i < v.len() && v[i] != ':'
        invariant
            0 <= i <= v.len(),
            forall|k: int| 0 <= k < i ==> v@[k] != ':',
        decreases v.len() - i,
    {
        i += 1;
    }
    proof {
        if i < v.len() {
            assert(v@[i as int] == ':');
        }
        lemma_first_colon_at(v@, i as int);
        assert(v@.subrange(0, i as int) =~= v@.take(i as int));
    }
    chars_range_to_string(&v, 0, i)
}

// ---------------------------------------------------------------------
// The routing decision
// ---------------------------------------------------------------------

/// Where an accepted connection goes.
#[derive(Debug)]
pub enum RouteDecision {
    /// Known domain, WebSocket upgrade: splice raw bytes to this
    /// backend port.
    Tunnel(u16),
    /// Unknown domain on a WebSocket upgrade: refuse with a bare 404.
    TunnelNotFound,
    /// Known domain, ordinary HTTP: forward to this backend port.
    Forward(u16),
    /// The bare loopback host asked to kill this domain's binding.
    KillApi(String),
    /// The bare loopback host: serve the built-in status page.
    Dashboard,
    /// Unknown domain: refuse with the plain-text listing.
    NotFoundListing,
}

pub open spec fn kill_prefix() -> Seq<char> {
    seq!['/', 'a', 'p', 'i', '/', 'k', 'i', 'l', 'l', '/']
}

/// The routing domain is the bare loopback host.
pub open spec fn is_builtin_host(domain: Seq<char>) -> bool {
    domain == "localhost"@ || domain == "127.0.0.1"@
}

/// The path names the kill endpoint, with a non-empty target.
pub open spec fn kill_target(path: Seq<char>) -> Option<Seq<char>> {
    if path.len() > kill_prefix().len() && path.take(kill_prefix().len() as int)
        == kill_prefix() {
        Some(path.skip(kill_prefix().len() as int))
    } else {
        None
    }
}

/// The routing decision for one request, given the routing domain,
/// the registry's verdict on it, whether the headers ask for a
/// WebSocket upgrade, and the request path: a WebSocket upgrade on a
/// known domain is tunnelled and refused with a bare 404 otherwise;
/// ordinary HTTP on a known domain is forwarded; the bare loopback
/// host serves the kill endpoint or the status page; anything else
/// gets the plain-text listing.
pub open spec fn route_matches(
    r: RouteDecision,
    domain: Seq<char>,
    port: Option<u16>,
    websocket: bool,
    path: Seq<char>,
) -> bool {
    if websocket {
        match port {
            Some(p) => r == RouteDecision::Tunnel(p),
            None => r is TunnelNotFound,
        }
    } else {
        match port {
            Some(p) => r == RouteDecision::Forward(p),
            None => if is_builtin_host(domain) {
                match kill_target(path) {
                    Some(t) => match r {
                        RouteDecision::KillApi(x) => x@ == t,
                        _ => false,
                    },
                    None => r is Dashboard,
                }
            } else {
                r is NotFoundListing
            },
        }
    }
}

/// Decide where a request goes. `port` is the registry's verdict on
/// the routing domain.
pub fn route_request(domain: &str, port: Option<u16>, websocket: bool, path: &str) -> (r:
    RouteDecision)
    ensures
        route_matches(r, domain@, port, websocket, path@),
{
    if websocket {
        match port {
            Some(p) => RouteDecision::Tunnel(p),
            None => RouteDecision::TunnelNotFound,
        }
    } else {
        match port {
            Some(p) => RouteDecision::Forward(p),
            None => {
                let builtin = crate::strutil::str_eq(domain, "localhost") || crate::strutil::str_eq(
                    domain,
                    "127.0.0.1",
                );
                if builtin {
                    match kill_target_of(path) {
                        Some(t) => RouteDecision::KillApi(t),
                        None => RouteDecision::Dashboard,
                    }
                } else {
                    RouteDecision::NotFoundListing
                }
            },
        }
    }
}

/// The kill-endpoint target named by the path, if any.
pub fn kill_target_of(path: &str) -> (r: Option<String>)
    ensures
        match r {
            Some(t) => kill_target(path@) == Some(t@),
            None => kill_target(path@) is None,
        },
{
    let v = string_to_chars(path);
    proof {
        reveal_strlit("/api/kill/");
        assert("/api/kill/"@ =~= kill_prefix());
    }
    let prefix = string_to_chars("/api/kill/");
    if v.len() <= prefix.len() {
        proof {
            if kill_target(path@) is Some {
                assert(path@.len() > kill_prefix().len());
            }
        }
        return None;
    }
    let mut i: usize = 0;
    while i < prefix.len()
        invariant
            v@ == path@,
            prefix@ == kill_prefix(),
            v@.len() > prefix@.len(),
            0 <= i <= prefix@.len(),
            forall|k: int| 0 <= k < i ==> v@[k] == prefix@[k],
        decreases prefix.len() - i,
    {
        if v[i] != prefix[i] {
            proof {
                if kill_target(path@) is Some {
                    assert(path@.take(kill_prefix().len() as int)[i as int] == kill_prefix()[
                        i as int
                    ]);
                }
            }
            return None;
        }
        i += 1;
    }
    proof {
        assert(path@.take(kill_prefix().len() as int) =~= kill_prefix());
        assert(path@.skip(kill_prefix().len() as int) =~= v@.subrange(
            prefix@.len() as int,
            v@.len() as int,
        ));
    }
    let t = chars_range_to_string(&v, prefix.len(), v.len());
    Some(t)
}

// ---------------------------------------------------------------------
// The built-in status page
// ---------------------------------------------------------------------

/// Everything of the status page before the table rows.
pub open spec fn dash_head() -> Seq<char> {
    "<!DOCTYPE html>\n<html lang=\"en\">\n<head>\n<meta charset=\"UTF-8\">\n<meta name=\"viewport\" content=\"width=device-width, initial-scale=1.0\">\n<title>unport - Local Development Services</title>\n<style>\nbody { font-family: -apple-system, 'Segoe UI', Roboto, sans-serif; background: #0a0a0a; color: #e5e5e5; padding: 40px 20px; }\n.container { max-width: 800px; margin: 0 auto; }\nh1 { color: #fff; margin-bottom: 8px; }\n.subtitle { color: #666; font-size: 14px; }\ntable { width: 100%; border-collapse: collapse; background: #141414; border-radius: 8px; }\nth { text-align: left; padding: 12px 16px; font-size: 12px; color: #666; text-transform: uppercase; border-bottom: 1px solid #222; }\ntd { padding: 16px; border-bottom: 1px solid #1a1a1a; font-size: 14px; }\n.url { font-family: monospace; color: #3b82f6; }\n.status-dot { display: inline-block; width: 8px; height: 8px; border-radius: 50%; margin-right: 8px; }\n.status-running { background: #22c55e; }\n.status-stopped { background: #ef4444; }\n.btn { padding: 6px 12px; border-radius: 4px; font-size: 12px; cursor: pointer; text-decoration: none; border: none; }\n.btn-copy { background: #222; color: #e5e5e5; border: 1px solid #333; }\n.btn-go { background: #3b82f6; color: #fff; }\n.btn-kill { background: #dc2626; color: #fff; }\n.empty { text-align: center; color: #666; padding: 40px 16px; }\ncode { background: #222; padding: 2px 6px; border-radius: 4px; font-family: monospace; }\n.toast { position: fixed; bottom: 20px; left: 50%; transform: translateX(-50%); background: #22c55e; color: #fff; padding: 12px 24px; border-radius: 6px; opacity: 0; transition: all 0.3s ease; }\n.toast.show { opacity: 1; }\n</style>\n</head>\n<body>\n<div class=\"container\">\n<header>\n<h1>unport</h1>\n<p class=\"subtitle\">Local Development Services</p>\n</header>\n<table>\n<thead>\n<tr><th>Status</th><th>URL</th><th>Port</th><th>Actions</th></tr>\n</thead>\n<tbody>\n"@
}

/// Everything of the status page after the table rows.
pub open spec fn dash_tail() -> Seq<char> {
    "\n</tbody>\n</table>\n</div>\n<div class=\"toast\" id=\"toast\">Copied to clipboard</div>\n<script>\nfunction copyToClipboard(text) {\n  navigator.clipboard.writeText(text).then(() => { showToast('Copied to clipboard'); });\n}\nfunction killService(domain) {\n  if (confirm('Kill ' + domain + '?')) {\n    fetch('/api/kill/' + domain, { method: 'POST' })\n      .then(r => r.json())\n      .then(data => {\n        if (data.ok) {\n          const row = document.getElementById('row-' + domain);\n          if (row) row.remove();\n          showToast('Killed ' + domain);\n        } else {\n          showToast('Failed to kill service');\n        }\n      })\n      .catch(() => showToast('Failed to kill service'));\n  }\n}\nfunction showToast(msg) {\n  const toast = document.getElementById('toast');\n  toast.textContent = msg;\n  toast.classList.add('show');\n  setTimeout(() => toast.classList.remove('show'), 2000);\n}\n</script>\n</body>\n</html>"@
}

/// The row shown when no service is registered.
pub open spec fn dash_empty_row() -> Seq<char> {
    "<tr><td colspan=\"4\" class=\"empty\">No services running. Start one with <code>unport start</code></td></tr>"@
}

/// One table row: the binding's liveness, URL, port, and action
/// buttons.
pub open spec fn dash_row(v: ServiceView, alive: bool) -> Seq<char> {
    "<tr id=\"row-"@ + v.domain + "\"><td><span class=\"status-dot "@ + (if alive {
        "status-running"@
    } else {
        "status-stopped"@
    }) + "\"></span>"@ + (if alive {
        "running"@
    } else {
        "stopped"@
    }) + "</td><td class=\"url\">http://"@ + v.domain + "</td><td>"@ + dec_digits(v.port as nat)
        + "</td><td class=\"actions\"><button class=\"btn btn-copy\" onclick=\"copyToClipboard('http://"@
        + v.domain + "')\">Copy</button> <a href=\"http://"@ + v.domain
        + "\" class=\"btn btn-go\" target=\"_blank\">Open</a> <button class=\"btn btn-kill\" onclick=\"killService('"@
        + v.domain + "')\">Kill</button></td></tr>\n"@
}

/// All table rows, in table order.
pub open spec fn dash_rows(l: Seq<ServiceView>, alive: Seq<bool>) -> Seq<char>
    decreases l.len(),
{
    if l.len() == 0 || alive.len() == 0 {
        Seq::empty()
    } else {
        dash_row(l[0], alive[0]) + dash_rows(l.skip(1), alive.skip(1))
    }
}

/// The complete status page for the given bindings and liveness
/// verdicts.
pub open spec fn spec_dashboard(l: Seq<ServiceView>, alive: Seq<bool>) -> Seq<char> {
    dash_head() + (if l.len() == 0 {
        dash_empty_row()
    } else {
        dash_rows(l, alive)
    }) + dash_tail()
}

/// Appending a binding appends its row.
proof fn lemma_dash_rows_push(l: Seq<ServiceView>, alive: Seq<bool>, v: ServiceView, f: bool)
    requires
        l.len() == alive.len(),
    ensures
        dash_rows(l.push(v), alive.push(f)) == dash_rows(l, alive) + dash_row(v, f),
    decreases l.len(),
{
    if l.len() == 0 {
        assert(l.push(v)[0] == v);
        assert(alive.push(f)[0] == f);
        assert(l.push(v).skip(1) =~= Seq::<ServiceView>::empty());
        assert(alive.push(f).skip(1) =~= Seq::<bool>::empty());
        assert(dash_rows(Seq::<ServiceView>::empty(), Seq::<bool>::empty())
            == Seq::<char>::empty());
        assert(dash_rows(l.push(v), alive.push(f)) == dash_row(v, f) + Seq::<char>::empty());
        assert(dash_row(v, f) + Seq::<char>::empty() =~= Seq::<char>::empty() + dash_row(v, f));
    } else {
        assert(l.push(v)[0] == l[0]);
        assert(alive.push(f)[0] == alive[0]);
        assert(l.push(v).skip(1) =~= l.skip(1).push(v));
        assert(alive.push(f).skip(1) =~= alive.skip(1).push(f));
        lemma_dash_rows_push(l.skip(1), alive.skip(1), v, f);
        assert(dash_row(l[0], alive[0]) + (dash_rows(l.skip(1), alive.skip(1)) + dash_row(v, f))
            =~= (dash_row(l[0], alive[0]) + dash_rows(l.skip(1), alive.skip(1))) + dash_row(
            v,
            f,
        ));
    }
}

/// Append one status-page row for a binding.
fn append_dash_row(out: &mut Vec<char>, s: &Service, live: bool)
    ensures
        final(out)@ == old(out)@ + dash_row(s@, live),
{
    crate::codec::append_str(out, "<tr id=\"row-");
    crate::codec::append_str(out, s.domain.as_str());
    crate::codec::append_str(out, "\"><td><span class=\"status-dot ");
    if live {
        crate::codec::append_str(out, "status-running");
    } else {
        crate::codec::append_str(out, "status-stopped");
    }
    crate::codec::append_str(out, "\"></span>");
    if live {
        crate::codec::append_str(out, "running");
    } else {
        crate::codec::append_str(out, "stopped");
    }
    crate::codec::append_str(out, "</td><td class=\"url\">http://");
    crate::codec::append_str(out, s.domain.as_str());
    crate::codec::append_str(out, "</td><td>");
    crate::codec::append_num(out, s.port as u64);
    crate::codec::append_str(
        out,
        "</td><td class=\"actions\"><button class=\"btn btn-copy\" onclick=\"copyToClipboard('http://",
    );
    crate::codec::append_str(out, s.domain.as_str());
    crate::codec::append_str(out, "')\">Copy</button> <a href=\"http://");
    crate::codec::append_str(out, s.domain.as_str());
    crate::codec::append_str(
        out,
        "\" class=\"btn btn-go\" target=\"_blank\">Open</a> <button class=\"btn btn-kill\" onclick=\"killService('",
    );
    crate::codec::append_str(out, s.domain.as_str());
    crate::codec::append_str(out, "')\">Kill</button></td></tr>\n");
    proof {
        assert(out@ =~= old(out)@ + dash_row(s@, live));
    }
}

/// Render the status page. `alive[i]` reports the liveness of the
/// process of the `i`-th binding.
#[verifier::rlimit(100)]
pub fn render_dashboard(services: &Vec<Service>, alive: &Vec<bool>) -> (r: String)
    requires
        alive@.len() == services@.len(),
    ensures
        r@ == spec_dashboard(crate::codec::services_view(services@), alive@),
{
    let ghost views = crate::codec::services_view(services@);
    let mut out: Vec<char> = Vec::new();
    crate::codec::append_str(
        &mut out,
        "<!DOCTYPE html>\n<html lang=\"en\">\n<head>\n<meta charset=\"UTF-8\">\n<meta name=\"viewport\" content=\"width=device-width, initial-scale=1.0\">\n<title>unport - Local Development Services</title>\n<style>\nbody { font-family: -apple-system, 'Segoe UI', Roboto, sans-serif; background: #0a0a0a; color: #e5e5e5; padding: 40px 20px; }\n.container { max-width: 800px; margin: 0 auto; }\nh1 { color: #fff; margin-bottom: 8px; }\n.subtitle { color: #666; font-size: 14px; }\ntable { width: 100%; border-collapse: collapse; background: #141414; border-radius: 8px; }\nth { text-align: left; padding: 12px 16px; font-size: 12px; color: #666; text-transform: uppercase; border-bottom: 1px solid #222; }\ntd { padding: 16px; border-bottom: 1px solid #1a1a1a; font-size: 14px; }\n.url { font-family: monospace; color: #3b82f6; }\n.status-dot { display: inline-block; width: 8px; height: 8px; border-radius: 50%; margin-right: 8px; }\n.status-running { background: #22c55e; }\n.status-stopped { background: #ef4444; }\n.btn { padding: 6px 12px; border-radius: 4px; font-size: 12px; cursor: pointer; text-decoration: none; border: none; }\n.btn-copy { background: #222; color: #e5e5e5; border: 1px solid #333; }\n.btn-go { background: #3b82f6; color: #fff; }\n.btn-kill { background: #dc2626; color: #fff; }\n.empty { text-align: center; color: #666; padding: 40px 16px; }\ncode { background: #222; padding: 2px 6px; border-radius: 4px; font-family: monospace; }\n.toast { position: fixed; bottom: 20px; left: 50%; transform: translateX(-50%); background: #22c55e; color: #fff; padding: 12px 24px; border-radius: 6px; opacity: 0; transition: all 0.3s ease; }\n.toast.show { opacity: 1; }\n</style>\n</head>\n<body>\n<div class=\"container\">\n<header>\n<h1>unport</h1>\n<p class=\"subtitle\">Local Development Services</p>\n</header>\n<table>\n<thead>\n<tr><th>Status</th><th>URL</th><th>Port</th><th>Actions</th></tr>\n</thead>\n<tbody>\n",
    );
    if services.len() == 0 {
        crate::codec::append_str(
            &mut out,
            "<tr><td colspan=\"4\" class=\"empty\">No services running. Start one with <code>unport start</code></td></tr>",
        );
    } else {
        let ghost base = out@;
        let mut k: usize = 0;
        while k < services.len()
            invariant
                0 <= k <= services.len(),
                alive@.len() == services@.len(),
                views == crate::codec::services_view(services@),
                views.len() == services@.len(),
                forall|i: int| 0 <= i < services@.len() ==> views[i] == services@[i]@,
                out@ == base + dash_rows(views.take(k as int), alive@.take(k as int)),
            decreases services.len() - k,
        {
            proof {
                assert(views.take(k + 1) =~= views.take(k as int).push(views[k as int]));
                assert(alive@.take(k + 1) =~= alive@.take(k as int).push(alive@[k as int]));
                lemma_dash_rows_push(
                    views.take(k as int),
                    alive@.take(k as int),
                    views[k as int],
                    alive@[k as int],
                );
            }
            append_dash_row(&mut out, &services[k], alive[k]);
            proof {
                assert(out@ =~= base + dash_rows(views.take(k + 1), alive@.take(k + 1)));
            }
            k += 1;
        }
        proof {
            assert(views.take(services@.len() as int) =~= views);
            assert(alive@.take(alive@.len() as int) =~= alive@);
        }
    }
    crate::codec::append_str(
        &mut out,
        "\n</tbody>\n</table>\n</div>\n<div class=\"toast\" id=\"toast\">Copied to clipboard</div>\n<script>\nfunction copyToClipboard(text) {\n  navigator.clipboard.writeText(text).then(() => { showToast('Copied to clipboard'); });\n}\nfunction killService(domain) {\n  if (confirm('Kill ' + domain + '?')) {\n    fetch('/api/kill/' + domain, { method: 'POST' })\n      .then(r => r.json())\n      .then(data => {\n        if (data.ok) {\n          const row = document.getElementById('row-' + domain);\n          if (row) row.remove();\n          showToast('Killed ' + domain);\n        } else {\n          showToast('Failed to kill service');\n        }\n      })\n      .catch(() => showToast('Failed to kill service'));\n  }\n}\nfunction showToast(msg) {\n  const toast = document.getElementById('toast');\n  toast.textContent = msg;\n  toast.classList.add('show');\n  setTimeout(() => toast.classList.remove('show'), 2000);\n}\n</script>\n</body>\n</html>",
    );
    proof {
        assert(out@ =~= spec_dashboard(views, alive@));
    }
    chars_to_string(&out)
}

// ---------------------------------------------------------------------
// The not-found listing
// ---------------------------------------------------------------------

/// One listing line for a binding.
pub open spec fn nf_entry(v: ServiceView) -> Seq<char> {
    "  - http://"@ + v.domain
}

/// The listing lines, joined by newlines.
pub open spec fn nf_items(l: Seq<ServiceView>) -> Seq<char>
    decreases l.len(),
{
    if l.len() == 0 {
        Seq::empty()
    } else if l.len() == 1 {
        nf_entry(l[0])
    } else {
        nf_entry(l[0]) + "\n"@ + nf_items(l.skip(1))
    }
}

/// The plain-text body served for an unknown domain: the domain that
/// was asked for and the listing of every registered one.
pub open spec fn spec_not_found(domain: Seq<char>, l: Seq<ServiceView>) -> Seq<char> {
    "unport: Domain '"@ + domain + "' not found.\n\nAvailable services:\n"@ + (if l.len() == 0 {
        "  (none)"@
    } else {
        nf_items(l)
    })
}

/// Appending a binding extends the listing by one line.
proof fn lemma_nf_items_push(l: Seq<ServiceView>, v: ServiceView)
    ensures
        nf_items(l.push(v)) == if l.len() == 0 {
            nf_entry(v)
        } else {
            nf_items(l) + "\n"@ + nf_entry(v)
        },
    decreases l.len(),
{
    if l.len() == 0 {
        assert(l.push(v).len() == 1);
        assert(l.push(v)[0] == v);
    } else {
        assert(l.push(v)[0] == l[0]);
        assert(l.push(v).skip(1) =~= l.skip(1).push(v));
        lemma_nf_items_push(l.skip(1), v);
        if l.len() == 1 {
            assert(l.skip(1).len() == 0);
            assert(nf_items(l.push(v)) == nf_entry(l[0]) + "\n"@ + nf_items(l.skip(1).push(v)));
            assert(nf_items(l) == nf_entry(l[0]));
        } else {
            assert(nf_items(l.push(v)) == nf_entry(l[0]) + "\n"@ + nf_items(l.skip(1).push(v)));
            assert(nf_entry(l[0]) + "\n"@ + (nf_items(l.skip(1)) + "\n"@ + nf_entry(v)) =~= (
            nf_entry(l[0]) + "\n"@ + nf_items(l.skip(1))) + "\n"@ + nf_entry(v));
        }
    }
}

/// Render the plain-text body served for an unknown domain.
pub fn render_not_found(domain: &str, services: &Vec<Service>) -> (r: String)
    ensures
        r@ == spec_not_found(domain@, crate::codec::services_view(services@)),
{
    let ghost views = crate::codec::services_view(services@);
    let mut out: Vec<char> = Vec::new();
    crate::codec::append_str(&mut out, "unport: Domain '");
    crate::codec::append_str(&mut out, domain);
    crate::codec::append_str(&mut out, "' not found.\n\nAvailable services:\n");
    if services.len() == 0 {
        crate::codec::append_str(&mut out, "  (none)");
    } else {
        let ghost base = out@;
        let mut k: usize = 0;
        while k < services.len()
            invariant
                0 <= k <= services.len(),
                views == crate::codec::services_view(services@),
                views.len() == services@.len(),
                forall|i: int| 0 <= i < services@.len() ==> views[i] == services@[i]@,
                out@ == base + nf_items(views.take(k as int)),
            decreases services.len() - k,
        {
            proof {
                assert(views.take(k + 1) =~= views.take(k as int).push(views[k as int]));
                lemma_nf_items_push(views.take(k as int), views[k as int]);
            }
            if k > 0 {
                crate::codec::append_str(&mut out, "\n");
            }
            crate::codec::append_str(&mut out, "  - http://");
            crate::codec::append_str(&mut out, services[k].domain.as_str());
            proof {
                assert(out@ =~= base + nf_items(views.take(k + 1)));
            }
            k += 1;
        }
        proof {
            assert(views.take(services@.len() as int) =~= views);
        }
    }
    proof {
        assert(out@ =~= spec_not_found(domain@, views));
    }
    chars_to_string(&out)
}

} // verus!
