//! The client's command line: the `<local>:me` and `up:<remote>` port
//! arguments, and the names derived from the two ports.
use vstd::prelude::*;
use crate::protocol::{lemma_request_line_roundtrip, parse_request_spec, request_line_spec, RequestSpec};
use crate::text::{
    chars_of, decimal, decimal_string, is_digit, is_white_space, lemma_decimal_digits,
    lemma_parse_decimal, no_white_space, parse_u16_range, parse_u16_spec, push_decimal, push_range,
    push_str, range_equals, trim, trim_bounds,
};

verus! {

broadcast use vstd::string::group_string_axioms;

/// `s` without the suffix `suffix`, where `s` ends with it (`str::strip_suffix`).
pub open spec fn strip_suffix_spec(s: Seq<char>, suffix: Seq<char>) -> Option<Seq<char>> {
    if suffix.len() <= s.len() && s.subrange(s.len() - suffix.len(), s.len() as int) == suffix {
        Some(s.subrange(0, s.len() - suffix.len()))
    } else {
        None
    }
}

/// `s` without the prefix `prefix`, where `s` starts with it (`str::strip_prefix`).
pub open spec fn strip_prefix_spec(s: Seq<char>, prefix: Seq<char>) -> Option<Seq<char>> {
    if prefix.len() <= s.len() && s.subrange(0, prefix.len() as int) == prefix {
        Some(s.subrange(prefix.len() as int, s.len() as int))
    } else {
        None
    }
}

/// `strip_suffix_spec` removes exactly the suffix: what it gives, followed
/// by the suffix, is `s`; and it gives that wherever `s` ends with the suffix.
pub proof fn lemma_strip_suffix(s: Seq<char>, suffix: Seq<char>)
    ensures
        strip_suffix_spec(s, suffix) matches Some(p) ==> p + suffix == s,
        forall|p: Seq<char>| #[trigger] (p + suffix) == s ==> strip_suffix_spec(s, suffix) == Some(p),
{
    if strip_suffix_spec(s, suffix) is Some {
        assert(s.subrange(0, s.len() - suffix.len()) + suffix =~= s);
    }
    assert forall|p: Seq<char>| #[trigger] (p + suffix) == s implies strip_suffix_spec(s, suffix)
        == Some(p) by {
        assert(s.subrange(s.len() - suffix.len(), s.len() as int) =~= suffix);
        assert(s.subrange(0, s.len() - suffix.len()) =~= p);
    }
}

/// `strip_prefix_spec` removes exactly the prefix: the prefix, followed by
/// what it gives, is `s`; and it gives that wherever `s` starts with the prefix.
pub proof fn lemma_strip_prefix(s: Seq<char>, prefix: Seq<char>)
    ensures
        strip_prefix_spec(s, prefix) matches Some(p) ==> prefix + p == s,
        forall|p: Seq<char>| #[trigger] (prefix + p) == s ==> strip_prefix_spec(s, prefix) == Some(p),
{
    if strip_prefix_spec(s, prefix) is Some {
        assert(prefix + s.subrange(prefix.len() as int, s.len() as int) =~= s);
    }
    assert forall|p: Seq<char>| #[trigger] (prefix + p) == s implies strip_prefix_spec(s, prefix)
        == Some(p) by {
        assert(s.subrange(0, prefix.len() as int) =~= prefix);
        assert(s.subrange(prefix.len() as int, s.len() as int) =~= p);
    }
}

/// The message that refuses the port argument `t` (already trimmed).
pub open spec fn invalid_port_message(t: Seq<char>) -> Seq<char> {
    "Invalid port in '"@ + t + "'"@
}

/// A port argument: the trimmed text, less the marker where it is there,
/// read as a `u16`; refused with a message naming the trimmed text.
pub open spec fn port_argument(t: Seq<char>, body: Option<Seq<char>>) -> Result<u16, Seq<char>> {
    let digits = match body {
        Some(p) => p,
        None => t,
    };
    match parse_u16_spec(digits) {
        Some(p) => Ok(p),
        None => Err(invalid_port_message(t)),
    }
}

/// The local port argument: `22:me` or `22`, whitespace around allowed.
pub open spec fn me_port_spec(s: Seq<char>) -> Result<u16, Seq<char>> {
    port_argument(trim(s), strip_suffix_spec(trim(s), ":me"@))
}

/// The remote port argument: `up:22` or `22`, whitespace around allowed.
pub open spec fn up_port_spec(s: Seq<char>) -> Result<u16, Seq<char>> {
    port_argument(trim(s), strip_prefix_spec(trim(s), "up:"@))
}

/// A port result with its message taken by its characters.
pub open spec fn port_result_view(r: Result<u16, String>) -> Result<u16, Seq<char>> {
    match r {
        Ok(p) => Ok(p),
        Err(m) => Err(m@),
    }
}

/// The position where the suffix `suffix` starts in `v[from..to]`, where that
/// range ends with it.
fn suffix_start(v: &Vec<char>, from: usize, to: usize, suffix: &str) -> (r: Option<usize>)
    requires
        from <= to <= v@.len(),
    ensures
        match strip_suffix_spec(v@.subrange(from as int, to as int), suffix@) {
            Some(p) => r matches Some(k) && from <= k <= to && p == v@.subrange(
                from as int,
                k as int,
            ),
            None => r is None,
        },
{
    let ghost s = v@.subrange(from as int, to as int);
    let n = chars_of(suffix).len();
    if n > to - from {
        return None;
    }
    let k = to - n;
    let ends = range_equals(v, k, to, suffix);
    assert(s.subrange(s.len() - n, s.len() as int) =~= v@.subrange(k as int, to as int));
    assert(s.subrange(0, s.len() - n) =~= v@.subrange(from as int, k as int));
    if ends {
        Some(k)
    } else {
        None
    }
}

/// The position where the rest starts after the prefix `prefix` of
/// `v[from..to]`, where that range starts with it.
fn prefix_end(v: &Vec<char>, from: usize, to: usize, prefix: &str) -> (r: Option<usize>)
    requires
        from <= to <= v@.len(),
    ensures
        match strip_prefix_spec(v@.subrange(from as int, to as int), prefix@) {
            Some(p) => r matches Some(k) && from <= k <= to && p == v@.subrange(
                k as int,
                to as int,
            ),
            None => r is None,
        },
{
    let ghost s = v@.subrange(from as int, to as int);
    let n = chars_of(prefix).len();
    if n > to - from {
        return None;
    }
    let k = from + n;
    let starts = range_equals(v, from, k, prefix);
    assert(s.subrange(0, n as int) =~= v@.subrange(from as int, k as int));
    assert(s.subrange(n as int, s.len() as int) =~= v@.subrange(k as int, to as int));
    if starts {
        Some(k)
    } else {
        None
    }
}

/// The port read from `v[from..to]`, or the refusal naming `v[a..b]`.
fn port_or_message(v: &Vec<char>, from: usize, to: usize, a: usize, b: usize) -> (r: Result<
    u16,
    String,
>)
    requires
        from <= to <= v@.len(),
        a <= b <= v@.len(),
    ensures
        port_result_view(r) == match parse_u16_spec(v@.subrange(from as int, to as int)) {
            Some(p) => Ok(p),
            None => Err(invalid_port_message(v@.subrange(a as int, b as int))),
        },
{
    match parse_u16_range(v, from, to) {
        Some(p) => Ok(p),
        None => {
            let mut m = String::new();
            push_str(&mut m, "Invalid port in '");
            push_range(&mut m, v, a, b);
            push_str(&mut m, "'");
            Err(m)
        },
    }
}

/// Reads the local port argument, `22:me` or `22` (whitespace around it
/// allowed). Refuses it with `Invalid port in '<trimmed argument>'`.
pub fn parse_me_port(s: &str) -> (r: Result<u16, String>)
    ensures
        port_result_view(r) == me_port_spec(s@),
{
    let v = chars_of(s);
    let (a, b) = trim_bounds(&v);
    match suffix_start(&v, a, b, ":me") {
        Some(k) => port_or_message(&v, a, k, a, b),
        None => port_or_message(&v, a, b, a, b),
    }
}

/// Reads the remote port argument, `up:22` or `22` (whitespace around it
/// allowed). Refuses it with `Invalid port in '<trimmed argument>'`.
pub fn parse_up_port(s: &str) -> (r: Result<u16, String>)
    ensures
        port_result_view(r) == up_port_spec(s@),
{
    let v = chars_of(s);
    let (a, b) = trim_bounds(&v);
    match prefix_end(&v, a, b, "up:") {
        Some(k) => port_or_message(&v, k, b, a, b),
        None => port_or_message(&v, a, b, a, b),
    }
}

// ---------------------------------------------------------------------------
// Names derived from the ports
// ---------------------------------------------------------------------------

/// The tunnel id of local port `local` published as remote port `remote`,
/// such as `22-me_up-22`.
pub open spec fn tunnel_id_spec(local: u16, remote: u16) -> Seq<char> {
    decimal(local as nat) + "-me_up-"@ + decimal(remote as nat)
}

/// The public name of the tunnel under `server`, such as
/// `22-me.up-22.beam.eysho.info`.
pub open spec fn tunnel_url_spec(local: u16, remote: u16, server: Seq<char>) -> Seq<char> {
    decimal(local as nat) + "-me.up-"@ + decimal(remote as nat) + "."@ + server
}

/// A socket address `host:port`.
pub open spec fn host_port_spec(host: Seq<char>, port: u16) -> Seq<char> {
    host + ":"@ + decimal(port as nat)
}

/// The tunnel id `<local>-me_up-<remote>`.
pub fn tunnel_id(local: u16, remote: u16) -> (r: String)
    ensures
        r@ == tunnel_id_spec(local, remote),
{
    let mut r = decimal_string(local);
    push_str(&mut r, "-me_up-");
    push_decimal(&mut r, remote);
    r
}

/// The public name `<local>-me.up-<remote>.<server>`.
pub fn tunnel_url(local: u16, remote: u16, server: &str) -> (r: String)
    ensures
        r@ == tunnel_url_spec(local, remote, server@),
{
    let mut r = decimal_string(local);
    push_str(&mut r, "-me.up-");
    push_decimal(&mut r, remote);
    push_str(&mut r, ".");
    push_str(&mut r, server);
    r
}

/// The address `<host>:<port>`.
pub fn host_port(host: &str, port: u16) -> (r: String)
    ensures
        r@ == host_port_spec(host@, port),
{
    let mut r = String::new();
    push_str(&mut r, host);
    push_str(&mut r, ":");
    push_decimal(&mut r, port);
    r
}

/// The admin page's "Create Tunnel": the public name of the tunnel where
/// both ports are set (not zero), nothing otherwise.
pub fn create_tunnel_url(local: u16, remote: u16, server: &str) -> (r: Option<String>)
    ensures
        match r {
            Some(u) => local > 0 && remote > 0 && u@ == tunnel_url_spec(local, remote, server@),
            None => local == 0 || remote == 0,
        },
{
    if local > 0 && remote > 0 {
        Some(tunnel_url(local, remote, server))
    } else {
        None
    }
}

/// The tunnel id splits at `k` into the local port, `-me_up-` and the remote
/// port, in that order; each port part reads back as its port and is written
/// in decimal without a leading zero.
pub proof fn lemma_tunnel_id_parts(local: u16, remote: u16) -> (k: int)
    ensures
        0 < k && k + 7 < tunnel_id_spec(local, remote).len(),
        parse_u16_spec(tunnel_id_spec(local, remote).subrange(0, k)) == Some(local),
        tunnel_id_spec(local, remote).subrange(k, k + 7) == "-me_up-"@,
        parse_u16_spec(
            tunnel_id_spec(local, remote).subrange(k + 7, tunnel_id_spec(local, remote).len() as int),
        ) == Some(remote),
        tunnel_id_spec(local, remote).subrange(0, k) == decimal(local as nat),
        tunnel_id_spec(local, remote).subrange(
            k + 7,
            tunnel_id_spec(local, remote).len() as int,
        ) == decimal(remote as nat),
{
    reveal_strlit("-me_up-");
    lemma_decimal_digits(local as nat);
    lemma_decimal_digits(remote as nat);
    lemma_parse_decimal(local);
    lemma_parse_decimal(remote);
    let l = decimal(local as nat);
    let r = decimal(remote as nat);
    let t = tunnel_id_spec(local, remote);
    let k = l.len() as int;
    assert(t.subrange(0, k) =~= l);
    assert(t.subrange(k, k + 7) =~= "-me_up-"@);
    assert(t.subrange(k + 7, t.len() as int) =~= r);
    k
}

/// The public name splits at `k1` and `k2` into the local port, `-me.up-`,
/// the remote port, `.` and the server name, in that order; each port part
/// reads back as its port.
pub proof fn lemma_tunnel_url_parts(local: u16, remote: u16, server: Seq<char>) -> (k: (int, int))
    ensures
        ({
            let t = tunnel_url_spec(local, remote, server);
            &&& 0 < k.0 && k.0 + 7 < k.1 && k.1 + 1 + server.len() == t.len()
            &&& parse_u16_spec(t.subrange(0, k.0)) == Some(local)
            &&& t.subrange(k.0, k.0 + 7) == "-me.up-"@
            &&& parse_u16_spec(t.subrange(k.0 + 7, k.1)) == Some(remote)
            &&& t[k.1] == '.'
            &&& t.subrange(k.1 + 1, t.len() as int) == server
        }),
{
    reveal_strlit("-me.up-");
    reveal_strlit(".");
    lemma_decimal_digits(local as nat);
    lemma_decimal_digits(remote as nat);
    lemma_parse_decimal(local);
    lemma_parse_decimal(remote);
    let l = decimal(local as nat);
    let r = decimal(remote as nat);
    let t = tunnel_url_spec(local, remote, server);
    let k0 = l.len() as int;
    let k1 = k0 + 7 + r.len();
    assert(t.subrange(0, k0) =~= l);
    assert(t.subrange(k0, k0 + 7) =~= "-me.up-"@);
    assert(t.subrange(k0 + 7, k1) =~= r);
    assert(t.subrange(k1 + 1, t.len() as int) =~= server);
    (k0, k1)
}

/// An address `host:port` splits at `k` into the host, `:` and the port,
/// which reads back as the port.
pub proof fn lemma_host_port_parts(host: Seq<char>, port: u16) -> (k: int)
    ensures
        k == host.len(),
        host_port_spec(host, port).subrange(0, k) == host,
        host_port_spec(host, port)[k] == ':',
        parse_u16_spec(
            host_port_spec(host, port).subrange(k + 1, host_port_spec(host, port).len() as int),
        ) == Some(port),
{
    reveal_strlit(":");
    lemma_parse_decimal(port);
    let t = host_port_spec(host, port);
    let k = host.len() as int;
    assert(t.subrange(0, k) =~= host);
    assert(t.subrange(k + 1, t.len() as int) =~= decimal(port as nat));
    k
}

/// The tunnel id that the client derives from its ports is a single word,
/// so the server reads the client's `REGISTER` and `WORKER` lines, and the
/// router's `CONNECT` line, back as requests for exactly that tunnel.
pub proof fn lemma_tunnel_id_roundtrip(local: u16, remote: u16)
    ensures
        no_white_space(tunnel_id_spec(local, remote)),
        parse_request_spec(request_line_spec("REGISTER"@, tunnel_id_spec(local, remote)))
            == RequestSpec::Register(tunnel_id_spec(local, remote)),
        parse_request_spec(request_line_spec("CONNECT"@, tunnel_id_spec(local, remote)))
            == RequestSpec::Connect(tunnel_id_spec(local, remote)),
        parse_request_spec(request_line_spec("WORKER"@, tunnel_id_spec(local, remote)))
            == RequestSpec::Worker(tunnel_id_spec(local, remote)),
{
    reveal_strlit("-me_up-");
    lemma_decimal_digits(local as nat);
    lemma_decimal_digits(remote as nat);
    let l = decimal(local as nat);
    let r = decimal(remote as nat);
    let m = "-me_up-"@;
    let t = tunnel_id_spec(local, remote);
    assert forall|i: int| 0 <= i < t.len() implies !is_white_space(#[trigger] t[i]) by {
        if i < l.len() {
            assert(t[i] == l[i]);
            assert(is_digit(l[i]));
        } else if i < l.len() + m.len() {
            assert(t[i] == m[i - l.len()]);
        } else {
            assert(t[i] == r[i - l.len() - m.len()]);
            assert(is_digit(r[i - l.len() - m.len()]));
        }
    }
    lemma_request_line_roundtrip(t);
}

/// Reading back the decimal notation of a port, with or without its marker,
/// gives the port again: `<p>:me` and `<p>` for the local port, `up:<p>` and
/// `<p>` for the remote port.
pub proof fn lemma_port_argument_roundtrip(p: u16)
    ensures
        me_port_spec(decimal(p as nat) + ":me"@) == Ok::<u16, Seq<char>>(p),
        me_port_spec(decimal(p as nat)) == Ok::<u16, Seq<char>>(p),
        up_port_spec("up:"@ + decimal(p as nat)) == Ok::<u16, Seq<char>>(p),
        up_port_spec(decimal(p as nat)) == Ok::<u16, Seq<char>>(p),
{
    reveal_strlit(":me");
    reveal_strlit("up:");
    lemma_decimal_digits(p as nat);
    lemma_parse_decimal(p);
    let d = decimal(p as nat);
    assert(!is_white_space(d[0]) && is_digit(d[0]));
    assert(!is_white_space(d.last()) && is_digit(d.last()));
    assert(trim(d) == d) by {
        assert(crate::text::trim_start(d) == d);
    }
    let a = d + ":me"@;
    assert(a[0] == d[0]);
    assert(a.last() == 'e');
    assert(trim(a) == a) by {
        assert(crate::text::trim_start(a) == a);
    }
    assert(a.subrange(a.len() - 3, a.len() as int) =~= ":me"@);
    assert(a.subrange(0, a.len() - 3) =~= d);
    let b = "up:"@ + d;
    assert(b[0] == 'u');
    assert(b.last() == d.last());
    assert(trim(b) == b) by {
        assert(crate::text::trim_start(b) == b);
    }
    assert(b.subrange(0, 3) =~= "up:"@);
    assert(b.subrange(3, b.len() as int) =~= d);
    // a bare number carries no marker
    assert(strip_suffix_spec(d, ":me"@) is None) by {
        if 3 <= d.len() {
            assert(d.subrange(d.len() - 3, d.len() as int)[2] == d.last());
        }
    }
    assert(strip_prefix_spec(d, "up:"@) is None) by {
        if 3 <= d.len() {
            assert(d.subrange(0, 3)[0] == d[0]);
        }
    }
}

} // verus!
