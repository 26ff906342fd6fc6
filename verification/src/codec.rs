//! Wire codec for the control channel and the registry snapshot.
//!
//! The daemon speaks newline-delimited JSON and persists the registry
//! as a JSON object. This module renders those documents and parses
//! them back, and proves that parsing a rendered document yields the
//! value it was rendered from.

use vstd::prelude::*;

use crate::strutil::{
    chars_to_string, dec_digits, digit_val, is_digit, lemma_dec_digits_val, string_to_chars,
    u64_to_dec_chars,
};
use crate::types::{Service, ServiceView, Request, RequestView, Response, ResponseView};

verus! {

// ---------------------------------------------------------------------
// Spec-level tokens and rendering
// ---------------------------------------------------------------------

/// JSON insignificant whitespace.
pub open spec fn is_ws(c: char) -> bool {
    c == ' ' || c == '\t' || c == '\n' || c == '\r'
}

/// The escape sequence a character renders as inside a JSON string.
pub open spec fn esc_char(c: char) -> Seq<char> {
    if c == '"' {
        seq!['\\', '"']
    } else if c == '\\' {
        seq!['\\', '\\']
    } else if c == '\n' {
        seq!['\\', 'n']
    } else if c == '\r' {
        seq!['\\', 'r']
    } else if c == '\t' {
        seq!['\\', 't']
    } else {
        seq![c]
    }
}

/// The body of a JSON string rendering of `s` (without the quotes).
pub open spec fn esc(s: Seq<char>) -> Seq<char>
    decreases s.len(),
{
    if s.len() == 0 {
        Seq::empty()
    } else {
        esc_char(s[0]) + esc(s.skip(1))
    }
}

/// The JSON string rendering of `s`, quotes included.
pub open spec fn jstr(s: Seq<char>) -> Seq<char> {
    seq!['"'] + esc(s) + seq!['"']
}

// ---------------------------------------------------------------------
// Spec-level parsing: tokens
// ---------------------------------------------------------------------

/// Drop insignificant whitespace from the front.
pub open spec fn sp_ws(s: Seq<char>) -> Seq<char>
    decreases s.len(),
{
    if s.len() > 0 && is_ws(s[0]) {
        sp_ws(s.skip(1))
    } else {
        s
    }
}

/// Consume the exact token `lit`; the rest on success.
pub open spec fn sp_lit(s: Seq<char>, lit: Seq<char>) -> Option<Seq<char>> {
    if s.len() >= lit.len() && s.subrange(0, lit.len() as int) == lit {
        Some(s.skip(lit.len() as int))
    } else {
        None
    }
}

/// The character named by a JSON string escape.
pub open spec fn unesc_char(c: char) -> Option<char> {
    if c == '"' {
        Some('"')
    } else if c == '\\' {
        Some('\\')
    } else if c == '/' {
        Some('/')
    } else if c == 'n' {
        Some('\n')
    } else if c == 'r' {
        Some('\r')
    } else if c == 't' {
        Some('\t')
    } else if c == 'b' {
        Some('\u{8}')
    } else if c == 'f' {
        Some('\u{c}')
    } else {
        None
    }
}

/// Consume a JSON string body up to and including the closing quote;
/// the decoded content and the rest on success.
pub open spec fn sp_str_body(s: Seq<char>) -> Option<(Seq<char>, Seq<char>)>
    decreases s.len(),
{
    if s.len() == 0 {
        None
    } else if s[0] == '"' {
        Some((Seq::empty(), s.skip(1)))
    } else if s[0] == '\\' {
        if s.len() < 2 {
            None
        } else {
            match unesc_char(s[1]) {
                None => None,
                Some(c) => match sp_str_body(s.skip(2)) {
                    None => None,
                    Some((body, rest)) => Some((seq![c] + body, rest)),
                },
            }
        }
    } else {
        match sp_str_body(s.skip(1)) {
            None => None,
            Some((body, rest)) => Some((seq![s[0]] + body, rest)),
        }
    }
}

/// Consume a complete JSON string, quotes included.
pub open spec fn sp_string(s: Seq<char>) -> Option<(Seq<char>, Seq<char>)> {
    if s.len() > 0 && s[0] == '"' {
        sp_str_body(s.skip(1))
    } else {
        None
    }
}

// ---------------------------------------------------------------------
// Round-trip lemmas: tokens
// ---------------------------------------------------------------------

/// Skipping whitespace in front of a non-whitespace character changes
/// nothing.
pub proof fn lemma_ws_noop(s: Seq<char>)
    requires
        s.len() == 0 || !is_ws(s[0]),
    ensures
        sp_ws(s) == s,
{
}

/// A token at the front of the input is consumed exactly.
pub proof fn lemma_lit_prefix(lit: Seq<char>, rest: Seq<char>)
    ensures
        sp_lit(lit + rest, lit) == Some(rest),
{
    let s = lit + rest;
    assert(s.subrange(0, lit.len() as int) =~= lit);
    assert(s.skip(lit.len() as int) =~= rest);
}

/// Parsing the escaped rendering of `s`, followed by a closing quote,
/// recovers `s` exactly.
pub proof fn lemma_str_body_round(s: Seq<char>, rest: Seq<char>)
    ensures
        sp_str_body(esc(s) + seq!['"'] + rest) == Some((s, rest)),
    decreases s.len(),
{
    let t = esc(s) + seq!['"'] + rest;
    if s.len() == 0 {
        assert(t =~= seq!['"'] + rest);
        assert(t[0] == '"');
        assert(t.skip(1) =~= rest);
    } else {
        let c = s[0];
        let e = esc_char(c);
        let tail = esc(s.skip(1)) + seq!['"'] + rest;
        assert(t =~= e + tail);
        lemma_str_body_round(s.skip(1), rest);
        if c == '"' || c == '\\' || c == '\n' || c == '\r' || c == '\t' {
            assert(e.len() == 2 && e[0] == '\\');
            assert(t[0] == '\\');
            assert(t[1] == e[1]);
            assert(unesc_char(e[1]) == Some(c));
            assert(t.skip(2) =~= tail);
            assert(sp_str_body(t) == Some((seq![c] + s.skip(1), rest)));
            assert(seq![c] + s.skip(1) =~= s);
        } else {
            assert(e =~= seq![c]);
            assert(t[0] == c);
            assert(c != '"' && c != '\\');
            assert(t.skip(1) =~= tail);
            assert(sp_str_body(t) == Some((seq![c] + s.skip(1), rest)));
            assert(seq![c] + s.skip(1) =~= s);
        }
    }
}

/// Parsing the JSON string rendering of `s` recovers `s` exactly.
pub proof fn lemma_string_round(s: Seq<char>, rest: Seq<char>)
    ensures
        sp_string(jstr(s) + rest) == Some((s, rest)),
{
    let t = jstr(s) + rest;
    assert(t[0] == '"');
    assert(t.skip(1) =~= esc(s) + seq!['"'] + rest);
    lemma_str_body_round(s, rest);
}

// ---------------------------------------------------------------------
// Spec-level parsing: numbers
// ---------------------------------------------------------------------

/// Consume leading digits, folding them into `acc`.
pub open spec fn sp_nat_rec(s: Seq<char>, acc: nat) -> (nat, Seq<char>)
    decreases s.len(),
{
    if s.len() > 0 && is_digit(s[0]) {
        sp_nat_rec(s.skip(1), acc * 10 + digit_val(s[0]))
    } else {
        (acc, s)
    }
}

/// Consume a decimal number of value at most `max`.
pub open spec fn sp_nat(s: Seq<char>, max: nat) -> Option<(nat, Seq<char>)> {
    if s.len() > 0 && is_digit(s[0]) {
        let (v, rest) = sp_nat_rec(s, 0);
        if v <= max {
            Some((v, rest))
        } else {
            None
        }
    } else {
        None
    }
}

/// The value of the digit run `d`, folded onto `acc`.
pub open spec fn val_from(acc: nat, d: Seq<char>) -> nat
    decreases d.len(),
{
    if d.len() == 0 {
        acc
    } else {
        val_from(acc * 10 + digit_val(d[0]), d.skip(1))
    }
}

/// Folding digits never shrinks the accumulator.
pub proof fn lemma_sp_nat_rec_ge(s: Seq<char>, acc: nat)
    ensures
        sp_nat_rec(s, acc).0 >= acc,
    decreases s.len(),
{
    if s.len() > 0 && is_digit(s[0]) {
        let d = digit_val(s[0]);
        assert(acc * 10 + d >= acc) by (nonlinear_arith);
        lemma_sp_nat_rec_ge(s.skip(1), acc * 10 + d);
    }
}

/// A digit run followed by a non-digit parses as the run's value.
pub proof fn lemma_sp_nat_rec_concat(d: Seq<char>, rest: Seq<char>, acc: nat)
    requires
        forall|i: int| 0 <= i < d.len() ==> is_digit(#[trigger] d[i]),
        rest.len() == 0 || !is_digit(rest[0]),
    ensures
        sp_nat_rec(d + rest, acc) == (val_from(acc, d), rest),
    decreases d.len(),
{
    if d.len() == 0 {
        assert(d + rest =~= rest);
    } else {
        let s = d + rest;
        assert(s[0] == d[0]);
        assert(s.skip(1) =~= d.skip(1) + rest);
        lemma_sp_nat_rec_concat(d.skip(1), rest, acc * 10 + digit_val(d[0]));
    }
}

/// Appending a digit multiplies the folded value by ten and adds it.
pub proof fn lemma_val_from_push(acc: nat, d: Seq<char>, c: char)
    ensures
        val_from(acc, d.push(c)) == val_from(acc, d) * 10 + digit_val(c),
    decreases d.len(),
{
    if d.len() == 0 {
        assert(d.push(c)[0] == c);
        assert(d.push(c).skip(1) =~= Seq::<char>::empty());
        assert(val_from(acc, d.push(c)) == val_from(
            acc * 10 + digit_val(c),
            Seq::<char>::empty(),
        ));
        assert(val_from(acc, d) == acc);
    } else {
        assert(d.push(c)[0] == d[0]);
        assert(d.push(c).skip(1) =~= d.skip(1).push(c));
        assert(val_from(acc, d.push(c)) == val_from(
            acc * 10 + digit_val(d[0]),
            d.skip(1).push(c),
        ));
        lemma_val_from_push(acc * 10 + digit_val(d[0]), d.skip(1), c);
        assert(val_from(acc, d) == val_from(acc * 10 + digit_val(d[0]), d.skip(1)));
    }
}

/// Folding the decimal rendering of `n` yields `n`.
pub proof fn lemma_val_from_dec_digits(n: nat)
    ensures
        val_from(0, dec_digits(n)) == n,
    decreases n,
{
    lemma_dec_digits_val(n);
    if n < 10 {
        let d = dec_digits(n);
        assert(d =~= seq![crate::strutil::dec_digit_char(n)]);
        assert(d.skip(1) =~= Seq::<char>::empty());
        assert(val_from(0, d) == val_from(digit_val(d[0]), Seq::<char>::empty()));
        crate::strutil::lemma_dec_digit_char_val(n);
    } else {
        lemma_val_from_dec_digits(n / 10);
        assert(dec_digits(n) == dec_digits(n / 10).push(crate::strutil::dec_digit_char(n % 10)));
        lemma_val_from_push(0, dec_digits(n / 10), crate::strutil::dec_digit_char(n % 10));
        crate::strutil::lemma_dec_digit_char_val(n % 10);
        assert((n / 10) * 10 + n % 10 == n) by {
            vstd::arithmetic::div_mod::lemma_fundamental_div_mod(n as int, 10);
        }
    }
}

/// Parsing the decimal rendering of `n` recovers `n` exactly.
pub proof fn lemma_nat_round(n: nat, max: nat, rest: Seq<char>)
    requires
        n <= max,
        rest.len() == 0 || !is_digit(rest[0]),
    ensures
        sp_nat(dec_digits(n) + rest, max) == Some((n, rest)),
{
    lemma_dec_digits_val(n);
    let d = dec_digits(n);
    assert((d + rest)[0] == d[0]);
    lemma_sp_nat_rec_concat(d, rest, 0);
    lemma_val_from_dec_digits(n);
}

/// Characters that render as themselves pass through escaping.
pub proof fn lemma_esc_id(s: Seq<char>)
    requires
        forall|i: int| 0 <= i < s.len() ==> {
            let c = #[trigger] s[i];
            c != '"' && c != '\\' && c != '\n' && c != '\r' && c != '\t'
        },
    ensures
        esc(s) == s,
    decreases s.len(),
{
    if s.len() == 0 {
        assert(esc(s) =~= s);
    } else {
        lemma_esc_id(s.skip(1));
        assert(esc_char(s[0]) =~= seq![s[0]]);
        assert(esc(s) =~= seq![s[0]] + s.skip(1));
        assert(seq![s[0]] + s.skip(1) =~= s);
    }
}

// ---------------------------------------------------------------------
// The service object
// ---------------------------------------------------------------------

pub open spec fn key_domain() -> Seq<char> {
    seq!['"', 'd', 'o', 'm', 'a', 'i', 'n', '"']
}

pub open spec fn key_port() -> Seq<char> {
    seq!['"', 'p', 'o', 'r', 't', '"']
}

pub open spec fn key_pid() -> Seq<char> {
    seq!['"', 'p', 'i', 'd', '"']
}

pub open spec fn key_directory() -> Seq<char> {
    seq!['"', 'd', 'i', 'r', 'e', 'c', 't', 'o', 'r', 'y', '"']
}

/// The JSON rendering of one service binding.
pub open spec fn jservice(v: ServiceView) -> Seq<char> {
    seq!['{'] + key_domain() + seq![':'] + jstr(v.domain) + seq![','] + key_port() + seq![':']
        + dec_digits(v.port as nat) + seq![','] + key_pid() + seq![':'] + dec_digits(v.pid as nat)
        + seq![','] + key_directory() + seq![':'] + jstr(v.directory) + seq!['}']
}

/// Consume `lit` after any whitespace.
pub open spec fn sp_tok(s: Seq<char>, lit: Seq<char>) -> Option<Seq<char>> {
    sp_lit(sp_ws(s), lit)
}

/// Parse one service object.
pub open spec fn sp_service(s: Seq<char>) -> Option<(ServiceView, Seq<char>)> {
    match sp_tok(s, seq!['{']) {
        None => None,
        Some(s) => match sp_tok(s, key_domain()) {
            None => None,
            Some(s) => match sp_tok(s, seq![':']) {
                None => None,
                Some(s) => match sp_string(sp_ws(s)) {
                    None => None,
                    Some((domain, s)) => match sp_tok(s, seq![',']) {
                        None => None,
                        Some(s) => match sp_tok(s, key_port()) {
                            None => None,
                            Some(s) => match sp_tok(s, seq![':']) {
                                None => None,
                                Some(s) => match sp_nat(sp_ws(s), 65535) {
                                    None => None,
                                    Some((port, s)) => match sp_tok(s, seq![',']) {
                                        None => None,
                                        Some(s) => match sp_tok(s, key_pid()) {
                                            None => None,
                                            Some(s) => match sp_tok(s, seq![':']) {
                                                None => None,
                                                Some(s) => match sp_nat(sp_ws(s), 4294967295) {
                                                    None => None,
                                                    Some((pid, s)) => match sp_tok(s, seq![',']) {
                                                        None => None,
                                                        Some(s) => match sp_tok(
                                                            s,
                                                            key_directory(),
                                                        ) {
                                                            None => None,
                                                            Some(s) => match sp_tok(
                                                                s,
                                                                seq![':'],
                                                            ) {
                                                                None => None,
                                                                Some(s) => match sp_string(
                                                                    sp_ws(s),
                                                                ) {
                                                                    None => None,
                                                                    Some((directory, s)) => match
                                                                        sp_tok(s, seq!['}']) {
                                                                        None => None,
                                                                        Some(s) => Some(
                                                                            (
                                                                                ServiceView {
                                                                                    domain,
                                                                                    port: port as u16,
                                                                                    pid: pid as u32,
                                                                                    directory,
                                                                                },
                                                                                s,
                                                                            ),
                                                                        ),
                                                                    },
                                                                },
                                                            },
                                                        },
                                                    },
                                                },
                                            },
                                        },
                                    },
                                },
                            },
                        },
                    },
                },
            },
        },
    }
}

/// A token at the front, not led by whitespace, is consumed exactly.
pub proof fn lemma_tok(lit: Seq<char>, rest: Seq<char>)
    requires
        lit.len() > 0,
        !is_ws(lit[0]),
    ensures
        sp_tok(lit + rest, lit) == Some(rest),
{
    assert((lit + rest)[0] == lit[0]);
    lemma_ws_noop(lit + rest);
    lemma_lit_prefix(lit, rest);
}

/// Parsing the rendering of a service recovers it exactly.
#[verifier::rlimit(60)]
pub proof fn lemma_service_round(v: ServiceView, rest: Seq<char>)
    ensures
        sp_service(jservice(v) + rest) == Some((v, rest)),
{
    lemma_dec_digits_val(v.port as nat);
    lemma_dec_digits_val(v.pid as nat);
    let r17 = rest;
    let r16 = seq!['}'] + r17;
    let r15 = jstr(v.directory) + r16;
    let r14 = seq![':'] + r15;
    let r13 = key_directory() + r14;
    let r12 = seq![','] + r13;
    let r11 = dec_digits(v.pid as nat) + r12;
    let r10 = seq![':'] + r11;
    let r9 = key_pid() + r10;
    let r8 = seq![','] + r9;
    let r7 = dec_digits(v.port as nat) + r8;
    let r6 = seq![':'] + r7;
    let r5 = key_port() + r6;
    let r4 = seq![','] + r5;
    let r3 = jstr(v.domain) + r4;
    let r2 = seq![':'] + r3;
    let r1 = key_domain() + r2;
    let r0 = seq!['{'] + r1;
    assert(jservice(v) + rest =~= r0);
    lemma_tok(seq!['{'], r1);
    lemma_tok(key_domain(), r2);
    lemma_tok(seq![':'], r3);
    assert(r3[0] == '"');
    lemma_ws_noop(r3);
    lemma_string_round(v.domain, r4);
    lemma_tok(seq![','], r5);
    lemma_tok(key_port(), r6);
    lemma_tok(seq![':'], r7);
    assert(r7[0] == dec_digits(v.port as nat)[0]);
    assert(!is_ws(r7[0]));
    lemma_ws_noop(r7);
    assert(r8[0] == ',' && !is_digit(r8[0]));
    lemma_nat_round(v.port as nat, 65535, r8);
    lemma_tok(seq![','], r9);
    lemma_tok(key_pid(), r10);
    lemma_tok(seq![':'], r11);
    assert(r11[0] == dec_digits(v.pid as nat)[0]);
    assert(!is_ws(r11[0]));
    lemma_ws_noop(r11);
    assert(r12[0] == ',' && !is_digit(r12[0]));
    lemma_nat_round(v.pid as nat, 4294967295, r12);
    lemma_tok(seq![','], r13);
    lemma_tok(key_directory(), r14);
    lemma_tok(seq![':'], r15);
    assert(r15[0] == '"');
    lemma_ws_noop(r15);
    lemma_string_round(v.directory, r16);
    lemma_tok(seq!['}'], r17);
    assert(sp_service(r0) == Some(
        (
            ServiceView {
                domain: v.domain,
                port: (v.port as nat) as u16,
                pid: (v.pid as nat) as u32,
                directory: v.directory,
            },
            rest,
        ),
    ));
}

// ---------------------------------------------------------------------
// Requests
// ---------------------------------------------------------------------

pub open spec fn tag_register() -> Seq<char> {
    seq!['R', 'e', 'g', 'i', 's', 't', 'e', 'r']
}

pub open spec fn tag_unregister() -> Seq<char> {
    seq!['U', 'n', 'r', 'e', 'g', 'i', 's', 't', 'e', 'r']
}

pub open spec fn tag_getport() -> Seq<char> {
    seq!['G', 'e', 't', 'P', 'o', 'r', 't']
}

pub open spec fn tag_list() -> Seq<char> {
    seq!['L', 'i', 's', 't']
}

pub open spec fn tag_stop() -> Seq<char> {
    seq!['S', 't', 'o', 'p']
}

pub open spec fn tag_shutdown() -> Seq<char> {
    seq!['S', 'h', 'u', 't', 'd', 'o', 'w', 'n']
}

pub open spec fn tag_https_status() -> Seq<char> {
    seq!['H', 't', 't', 'p', 's', 'S', 't', 'a', 't', 'u', 's']
}

/// The rendering of a one-field `{"domain": ...}` payload.
pub open spec fn jdomain_payload(domain: Seq<char>) -> Seq<char> {
    seq!['{'] + key_domain() + seq![':'] + jstr(domain) + seq!['}']
}

/// The JSON rendering of a control request, in the externally tagged
/// form the wire protocol uses.
pub open spec fn jrequest(v: RequestView) -> Seq<char> {
    match v {
        RequestView::Register { domain, port, pid, directory } => seq!['{'] + jstr(tag_register())
            + seq![':'] + jservice(ServiceView { domain, port, pid, directory }) + seq!['}'],
        RequestView::Unregister { domain } => seq!['{'] + jstr(tag_unregister()) + seq![':']
            + jdomain_payload(domain) + seq!['}'],
        RequestView::GetPort => jstr(tag_getport()),
        RequestView::List => jstr(tag_list()),
        RequestView::Stop { domain } => seq!['{'] + jstr(tag_stop()) + seq![':'] + jdomain_payload(
            domain,
        ) + seq!['}'],
        RequestView::Shutdown => jstr(tag_shutdown()),
        RequestView::HttpsStatus => jstr(tag_https_status()),
    }
}

/// Parse a `{"domain": ...}` payload.
pub open spec fn sp_domain_payload(s: Seq<char>) -> Option<(Seq<char>, Seq<char>)> {
    match sp_tok(s, seq!['{']) {
        None => None,
        Some(s) => match sp_tok(s, key_domain()) {
            None => None,
            Some(s) => match sp_tok(s, seq![':']) {
                None => None,
                Some(s) => match sp_string(sp_ws(s)) {
                    None => None,
                    Some((domain, s)) => match sp_tok(s, seq!['}']) {
                        None => None,
                        Some(s) => Some((domain, s)),
                    },
                },
            },
        },
    }
}

/// Parse one control request.
pub open spec fn sp_request(s: Seq<char>) -> Option<(RequestView, Seq<char>)> {
    let s0 = sp_ws(s);
    if s0.len() > 0 && s0[0] == '"' {
        match sp_string(s0) {
            None => None,
            Some((tag, rest)) => {
                if tag == tag_getport() {
                    Some((RequestView::GetPort, rest))
                } else if tag == tag_list() {
                    Some((RequestView::List, rest))
                } else if tag == tag_shutdown() {
                    Some((RequestView::Shutdown, rest))
                } else if tag == tag_https_status() {
                    Some((RequestView::HttpsStatus, rest))
                } else {
                    None
                }
            },
        }
    } else {
        match sp_tok(s0, seq!['{']) {
            None => None,
            Some(s) => match sp_string(sp_ws(s)) {
                None => None,
                Some((tag, s)) => match sp_tok(s, seq![':']) {
                    None => None,
                    Some(s) => {
                        if tag == tag_register() {
                            match sp_service(s) {
                                None => None,
                                Some((v, s)) => match sp_tok(s, seq!['}']) {
                                    None => None,
                                    Some(rest) => Some(
                                        (
                                            RequestView::Register {
                                                domain: v.domain,
                                                port: v.port,
                                                pid: v.pid,
                                                directory: v.directory,
                                            },
                                            rest,
                                        ),
                                    ),
                                },
                            }
                        } else if tag == tag_unregister() {
                            match sp_domain_payload(s) {
                                None => None,
                                Some((domain, s)) => match sp_tok(s, seq!['}']) {
                                    None => None,
                                    Some(rest) => Some(
                                        (RequestView::Unregister { domain }, rest),
                                    ),
                                },
                            }
                        } else if tag == tag_stop() {
                            match sp_domain_payload(s) {
                                None => None,
                                Some((domain, s)) => match sp_tok(s, seq!['}']) {
                                    None => None,
                                    Some(rest) => Some((RequestView::Stop { domain }, rest)),
                                },
                            }
                        } else {
                            None
                        }
                    },
                },
            },
        }
    }
}

/// A complete line holds exactly one request, up to trailing
/// whitespace.
pub open spec fn spec_parse_request(s: Seq<char>) -> Option<RequestView> {
    match sp_request(s) {
        None => None,
        Some((v, rest)) => if sp_ws(rest).len() == 0 {
            Some(v)
        } else {
            None
        },
    }
}

/// Letters and digits pass through escaping unchanged; used for tags.
pub proof fn lemma_tag_round(tag: Seq<char>, rest: Seq<char>)
    requires
        forall|i: int| 0 <= i < tag.len() ==> {
            let c = #[trigger] tag[i];
            c != '"' && c != '\\' && c != '\n' && c != '\r' && c != '\t'
        },
    ensures
        sp_string(jstr(tag) + rest) == Some((tag, rest)),
        (jstr(tag) + rest)[0] == '"',
{
    lemma_string_round(tag, rest);
}

/// Parsing the rendering of a `{"domain": ...}` payload recovers it.
pub proof fn lemma_domain_payload_round(domain: Seq<char>, rest: Seq<char>)
    ensures
        sp_domain_payload(jdomain_payload(domain) + rest) == Some((domain, rest)),
{
    let r4 = rest;
    let r3 = seq!['}'] + r4;
    let r2 = jstr(domain) + r3;
    let r1 = seq![':'] + r2;
    let r0a = key_domain() + r1;
    let r0 = seq!['{'] + r0a;
    assert(jdomain_payload(domain) + rest =~= r0);
    lemma_tok(seq!['{'], r0a);
    lemma_tok(key_domain(), r1);
    lemma_tok(seq![':'], r2);
    assert(r2[0] == '"');
    lemma_ws_noop(r2);
    lemma_string_round(domain, r3);
    lemma_tok(seq!['}'], r4);
}

/// Parsing the rendering of any request recovers it exactly.
#[verifier::rlimit(60)]
pub proof fn lemma_request_round(v: RequestView, rest: Seq<char>)
    ensures
        sp_request(jrequest(v) + rest) == Some((v, rest)),
{
    let t = jrequest(v) + rest;
    match v {
        RequestView::GetPort => {
            assert(t =~= jstr(tag_getport()) + rest);
            lemma_tag_round(tag_getport(), rest);
            lemma_ws_noop(t);
        },
        RequestView::List => {
            assert(t =~= jstr(tag_list()) + rest);
            lemma_tag_round(tag_list(), rest);
            lemma_ws_noop(t);
        },
        RequestView::Shutdown => {
            assert(t =~= jstr(tag_shutdown()) + rest);
            lemma_tag_round(tag_shutdown(), rest);
            lemma_ws_noop(t);
        },
        RequestView::HttpsStatus => {
            assert(t =~= jstr(tag_https_status()) + rest);
            lemma_tag_round(tag_https_status(), rest);
            lemma_ws_noop(t);
        },
        RequestView::Register { domain, port, pid, directory } => {
            let sv = ServiceView { domain, port, pid, directory };
            let r4 = rest;
            let r3 = seq!['}'] + r4;
            let r2 = jservice(sv) + r3;
            let r1 = seq![':'] + r2;
            let r0a = jstr(tag_register()) + r1;
            let r0 = seq!['{'] + r0a;
            assert(t =~= r0);
            assert(t[0] == '{');
            lemma_ws_noop(t);
            lemma_tok(seq!['{'], r0a);
            assert(r0a[0] == '"');
            lemma_ws_noop(r0a);
            lemma_tag_round(tag_register(), r1);
            lemma_tok(seq![':'], r2);
            lemma_service_round(sv, r3);
            lemma_tok(seq!['}'], r4);
        },
        RequestView::Unregister { domain } => {
            let r4 = rest;
            let r3 = seq!['}'] + r4;
            let r2 = jdomain_payload(domain) + r3;
            let r1 = seq![':'] + r2;
            let r0a = jstr(tag_unregister()) + r1;
            let r0 = seq!['{'] + r0a;
            assert(t =~= r0);
            assert(t[0] == '{');
            lemma_ws_noop(t);
            lemma_tok(seq!['{'], r0a);
            assert(r0a[0] == '"');
            lemma_ws_noop(r0a);
            lemma_tag_round(tag_unregister(), r1);
            lemma_tok(seq![':'], r2);
            lemma_domain_payload_round(domain, r3);
            lemma_tok(seq!['}'], r4);
        },
        RequestView::Stop { domain } => {
            let r4 = rest;
            let r3 = seq!['}'] + r4;
            let r2 = jdomain_payload(domain) + r3;
            let r1 = seq![':'] + r2;
            let r0a = jstr(tag_stop()) + r1;
            let r0 = seq!['{'] + r0a;
            assert(t =~= r0);
            assert(t[0] == '{');
            lemma_ws_noop(t);
            lemma_tok(seq!['{'], r0a);
            assert(r0a[0] == '"');
            lemma_ws_noop(r0a);
            lemma_tag_round(tag_stop(), r1);
            lemma_tok(seq![':'], r2);
            lemma_domain_payload_round(domain, r3);
            lemma_tok(seq!['}'], r4);
        },
    }
}

/// Parsing the rendering of any request, as a whole line, is identity.
pub proof fn lemma_request_round_trip(v: RequestView)
    ensures
        spec_parse_request(jrequest(v)) == Some(v),
{
    assert(jrequest(v) + Seq::<char>::empty() =~= jrequest(v));
    lemma_request_round(v, Seq::<char>::empty());
}

// ---------------------------------------------------------------------
// Responses
// ---------------------------------------------------------------------

pub open spec fn tag_ok() -> Seq<char> {
    seq!['O', 'k']
}

pub open spec fn tag_port() -> Seq<char> {
    seq!['P', 'o', 'r', 't']
}

pub open spec fn tag_services() -> Seq<char> {
    seq!['S', 'e', 'r', 'v', 'i', 'c', 'e', 's']
}

pub open spec fn tag_error() -> Seq<char> {
    seq!['E', 'r', 'r', 'o', 'r']
}

pub open spec fn tag_https_enabled() -> Seq<char> {
    seq!['H', 't', 't', 'p', 's', 'E', 'n', 'a', 'b', 'l', 'e', 'd']
}

pub open spec fn tok_null() -> Seq<char> {
    seq!['n', 'u', 'l', 'l']
}

pub open spec fn tok_true() -> Seq<char> {
    seq!['t', 'r', 'u', 'e']
}

pub open spec fn tok_false() -> Seq<char> {
    seq!['f', 'a', 'l', 's', 'e']
}

/// The comma-separated renderings of the services of `l`.
pub open spec fn jservices_items(l: Seq<ServiceView>) -> Seq<char>
    decreases l.len(),
{
    if l.len() == 0 {
        Seq::empty()
    } else if l.len() == 1 {
        jservice(l[0])
    } else {
        jservice(l[0]) + seq![','] + jservices_items(l.skip(1))
    }
}

/// The JSON array of the services of `l`.
pub open spec fn jservices(l: Seq<ServiceView>) -> Seq<char> {
    seq!['['] + jservices_items(l) + seq![']']
}

/// The JSON rendering of a control response.
pub open spec fn jresponse(v: ResponseView) -> Seq<char> {
    match v {
        ResponseView::Okay(m) => seq!['{'] + jstr(tag_ok()) + seq![':'] + (match m {
            Some(msg) => jstr(msg),
            None => tok_null(),
        }) + seq!['}'],
        ResponseView::Port(p) => seq!['{'] + jstr(tag_port()) + seq![':'] + dec_digits(p as nat)
            + seq!['}'],
        ResponseView::Services(l) => seq!['{'] + jstr(tag_services()) + seq![':'] + jservices(l)
            + seq!['}'],
        ResponseView::Error(e) => seq!['{'] + jstr(tag_error()) + seq![':'] + jstr(e) + seq!['}'],
        ResponseView::HttpsEnabled(b) => seq!['{'] + jstr(tag_https_enabled()) + seq![':'] + (
        if b {
            tok_true()
        } else {
            tok_false()
        }) + seq!['}'],
    }
}

/// Parse the items of a non-empty service array, closing bracket
/// included. `fuel` bounds the number of items.
pub open spec fn sp_services_items(s: Seq<char>, fuel: nat) -> Option<
    (Seq<ServiceView>, Seq<char>),
>
    decreases fuel,
{
    match sp_service(s) {
        None => None,
        Some((v, s)) => {
            let s2 = sp_ws(s);
            if s2.len() > 0 && s2[0] == ',' {
                if fuel == 0 {
                    None
                } else {
                    match sp_services_items(s2.skip(1), (fuel - 1) as nat) {
                        None => None,
                        Some((l, rest)) => Some((seq![v] + l, rest)),
                    }
                }
            } else if s2.len() > 0 && s2[0] == ']' {
                Some((seq![v], s2.skip(1)))
            } else {
                None
            }
        },
    }
}

/// Parse a JSON array of services.
pub open spec fn sp_services(s: Seq<char>) -> Option<(Seq<ServiceView>, Seq<char>)> {
    match sp_tok(s, seq!['[']) {
        None => None,
        Some(s1) => {
            let s2 = sp_ws(s1);
            if s2.len() > 0 && s2[0] == ']' {
                Some((Seq::empty(), s2.skip(1)))
            } else {
                sp_services_items(s1, s1.len() as nat)
            }
        },
    }
}

/// Parse one control response.
pub open spec fn sp_response(s: Seq<char>) -> Option<(ResponseView, Seq<char>)> {
    match sp_tok(s, seq!['{']) {
        None => None,
        Some(s) => match sp_string(sp_ws(s)) {
            None => None,
            Some((tag, s)) => match sp_tok(s, seq![':']) {
                None => None,
                Some(s) => {
                    let body: Option<(ResponseView, Seq<char>)> = if tag == tag_ok() {
                        let s2 = sp_ws(s);
                        match sp_lit(s2, tok_null()) {
                            Some(rest) => Some((ResponseView::Okay(None), rest)),
                            None => match sp_string(s2) {
                                None => None,
                                Some((msg, rest)) => Some(
                                    (ResponseView::Okay(Some(msg)), rest),
                                ),
                            },
                        }
                    } else if tag == tag_port() {
                        match sp_nat(sp_ws(s), 65535) {
                            None => None,
                            Some((p, rest)) => Some((ResponseView::Port(p as u16), rest)),
                        }
                    } else if tag == tag_services() {
                        match sp_services(s) {
                            None => None,
                            Some((l, rest)) => Some((ResponseView::Services(l), rest)),
                        }
                    } else if tag == tag_error() {
                        match sp_string(sp_ws(s)) {
                            None => None,
                            Some((e, rest)) => Some((ResponseView::Error(e), rest)),
                        }
                    } else if tag == tag_https_enabled() {
                        let s2 = sp_ws(s);
                        match sp_lit(s2, tok_true()) {
                            Some(rest) => Some((ResponseView::HttpsEnabled(true), rest)),
                            None => match sp_lit(s2, tok_false()) {
                                Some(rest) => Some((ResponseView::HttpsEnabled(false), rest)),
                                None => None,
                            },
                        }
                    } else {
                        None
                    };
                    match body {
                        None => None,
                        Some((v, s)) => match sp_tok(s, seq!['}']) {
                            None => None,
                            Some(rest) => Some((v, rest)),
                        },
                    }
                },
            },
        },
    }
}

/// A complete line holds exactly one response, up to trailing
/// whitespace.
pub open spec fn spec_parse_response(s: Seq<char>) -> Option<ResponseView> {
    match sp_response(s) {
        None => None,
        Some((v, rest)) => if sp_ws(rest).len() == 0 {
            Some(v)
        } else {
            None
        },
    }
}

/// Each rendered service is at least one character long.
pub proof fn lemma_jservice_len(v: ServiceView)
    ensures
        jservice(v).len() >= 1,
        jservice(v)[0] == '{',
{
}

/// A rendered item list is at least as long as the list.
pub proof fn lemma_jservices_items_len(l: Seq<ServiceView>)
    ensures
        l.len() > 0 ==> jservices_items(l).len() >= l.len(),
        l.len() > 0 ==> jservices_items(l)[0] == '{',
    decreases l.len(),
{
    if l.len() == 1 {
        lemma_jservice_len(l[0]);
    } else if l.len() > 1 {
        lemma_jservice_len(l[0]);
        lemma_jservices_items_len(l.skip(1));
    }
}

/// Parsing the rendered items of a non-empty list recovers the list.
#[verifier::rlimit(100)]
pub proof fn lemma_services_items_round(l: Seq<ServiceView>, rest: Seq<char>, fuel: nat)
    requires
        l.len() >= 1,
        fuel >= l.len(),
    ensures
        sp_services_items(jservices_items(l) + (seq![']'] + rest), fuel) == Some((l, rest)),
    decreases l.len(),
{
    let t = jservices_items(l) + (seq![']'] + rest);
    if l.len() == 1 {
        assert(t =~= jservice(l[0]) + (seq![']'] + rest));
        lemma_service_round(l[0], seq![']'] + rest);
        let s2 = seq![']'] + rest;
        lemma_ws_noop(s2);
        assert(s2.skip(1) =~= rest);
        assert(seq![l[0]] =~= l);
    } else {
        let tail = jservices_items(l.skip(1)) + (seq![']'] + rest);
        let after = seq![','] + tail;
        assert(t =~= jservice(l[0]) + after);
        lemma_service_round(l[0], after);
        lemma_ws_noop(after);
        assert(after[0] == ',');
        assert(after.skip(1) =~= tail);
        lemma_services_items_round(l.skip(1), rest, (fuel - 1) as nat);
        assert(seq![l[0]] + l.skip(1) =~= l);
    }
}

/// Parsing the rendering of a service array recovers the list.
pub proof fn lemma_services_round(l: Seq<ServiceView>, rest: Seq<char>)
    ensures
        sp_services(jservices(l) + rest) == Some((l, rest)),
{
    let inner = jservices_items(l) + (seq![']'] + rest);
    assert(jservices(l) + rest =~= seq!['['] + inner);
    lemma_tok(seq!['['], inner);
    if l.len() == 0 {
        assert(inner =~= seq![']'] + rest);
        lemma_ws_noop(inner);
        assert(inner[0] == ']');
        assert(inner.skip(1) =~= rest);
        assert(Seq::<ServiceView>::empty() =~= l);
    } else {
        lemma_jservices_items_len(l);
        assert(inner[0] == '{');
        lemma_ws_noop(inner);
        assert(inner.len() >= l.len());
        lemma_services_items_round(l, rest, inner.len() as nat);
    }
}

/// Parsing the rendering of an acknowledgement recovers it.
#[verifier::rlimit(60)]
proof fn lemma_response_round_okay(m: Option<Seq<char>>, rest: Seq<char>)
    ensures
        sp_response(jresponse(ResponseView::Okay(m)) + rest) == Some(
            (ResponseView::Okay(m), rest),
        ),
{
    let t = jresponse(ResponseView::Okay(m)) + rest;
    let payload = match m {
        Some(msg) => jstr(msg),
        None => tok_null(),
    };
    let r4 = rest;
    let r3 = seq!['}'] + r4;
    let r2 = payload + r3;
    let r1 = seq![':'] + r2;
    let r0a = jstr(tag_ok()) + r1;
    let r0 = seq!['{'] + r0a;
    assert(t =~= r0);
    lemma_tok(seq!['{'], r0a);
    assert(r0a[0] == '"');
    lemma_ws_noop(r0a);
    lemma_tag_round(tag_ok(), r1);
    lemma_tok(seq![':'], r2);
    match m {
        None => {
            assert(r2[0] == 'n');
            lemma_ws_noop(r2);
            lemma_lit_prefix(tok_null(), r3);
        },
        Some(msg) => {
            assert(r2[0] == '"');
            lemma_ws_noop(r2);
            assert(sp_lit(r2, tok_null()) is None) by {
                if sp_lit(r2, tok_null()) is Some {
                    assert(r2.subrange(0, 4)[0] == 'n');
                }
            }
            lemma_string_round(msg, r3);
        },
    }
    lemma_tok(seq!['}'], r4);
}

/// Parsing the rendering of a port reply recovers it.
#[verifier::rlimit(60)]
proof fn lemma_response_round_port(p: u16, rest: Seq<char>)
    ensures
        sp_response(jresponse(ResponseView::Port(p)) + rest) == Some(
            (ResponseView::Port(p), rest),
        ),
{
    let t = jresponse(ResponseView::Port(p)) + rest;
    let r4 = rest;
    let r3 = seq!['}'] + r4;
    let r2 = dec_digits(p as nat) + r3;
    let r1 = seq![':'] + r2;
    let r0a = jstr(tag_port()) + r1;
    let r0 = seq!['{'] + r0a;
    assert(t =~= r0);
    lemma_tok(seq!['{'], r0a);
    assert(r0a[0] == '"');
    lemma_ws_noop(r0a);
    lemma_tag_round(tag_port(), r1);
    lemma_tok(seq![':'], r2);
    lemma_dec_digits_val(p as nat);
    assert(r2[0] == dec_digits(p as nat)[0]);
    assert(!is_ws(r2[0]));
    lemma_ws_noop(r2);
    assert(r3[0] == '}' && !is_digit(r3[0]));
    lemma_nat_round(p as nat, 65535, r3);
    lemma_tok(seq!['}'], r4);
}

/// Parsing the rendering of a service listing recovers it.
#[verifier::rlimit(60)]
proof fn lemma_response_round_services(l: Seq<ServiceView>, rest: Seq<char>)
    ensures
        sp_response(jresponse(ResponseView::Services(l)) + rest) == Some(
            (ResponseView::Services(l), rest),
        ),
{
    let t = jresponse(ResponseView::Services(l)) + rest;
    let r4 = rest;
    let r3 = seq!['}'] + r4;
    let r2 = jservices(l) + r3;
    let r1 = seq![':'] + r2;
    let r0a = jstr(tag_services()) + r1;
    let r0 = seq!['{'] + r0a;
    assert(t =~= r0);
    lemma_tok(seq!['{'], r0a);
    assert(r0a[0] == '"');
    lemma_ws_noop(r0a);
    lemma_tag_round(tag_services(), r1);
    lemma_tok(seq![':'], r2);
    lemma_services_round(l, r3);
    lemma_tok(seq!['}'], r4);
}

/// Parsing the rendering of an error reply recovers it.
#[verifier::rlimit(60)]
proof fn lemma_response_round_error(e: Seq<char>, rest: Seq<char>)
    ensures
        sp_response(jresponse(ResponseView::Error(e)) + rest) == Some(
            (ResponseView::Error(e), rest),
        ),
{
    let t = jresponse(ResponseView::Error(e)) + rest;
    let r4 = rest;
    let r3 = seq!['}'] + r4;
    let r2 = jstr(e) + r3;
    let r1 = seq![':'] + r2;
    let r0a = jstr(tag_error()) + r1;
    let r0 = seq!['{'] + r0a;
    assert(t =~= r0);
    lemma_tok(seq!['{'], r0a);
    assert(r0a[0] == '"');
    lemma_ws_noop(r0a);
    lemma_tag_round(tag_error(), r1);
    lemma_tok(seq![':'], r2);
    assert(r2[0] == '"');
    lemma_ws_noop(r2);
    lemma_string_round(e, r3);
    lemma_tok(seq!['}'], r4);
}

/// Parsing the rendering of an HTTPS verdict recovers it.
#[verifier::rlimit(60)]
proof fn lemma_response_round_https(b: bool, rest: Seq<char>)
    ensures
        sp_response(jresponse(ResponseView::HttpsEnabled(b)) + rest) == Some(
            (ResponseView::HttpsEnabled(b), rest),
        ),
{
    let t = jresponse(ResponseView::HttpsEnabled(b)) + rest;
    let payload = if b {
        tok_true()
    } else {
        tok_false()
    };
    let r4 = rest;
    let r3 = seq!['}'] + r4;
    let r2 = payload + r3;
    let r1 = seq![':'] + r2;
    let r0a = jstr(tag_https_enabled()) + r1;
    let r0 = seq!['{'] + r0a;
    assert(t =~= r0);
    lemma_tok(seq!['{'], r0a);
    assert(r0a[0] == '"');
    lemma_ws_noop(r0a);
    lemma_tag_round(tag_https_enabled(), r1);
    lemma_tok(seq![':'], r2);
    lemma_ws_noop(r2);
    if b {
        lemma_lit_prefix(tok_true(), r3);
    } else {
        assert(sp_lit(r2, tok_true()) is None) by {
            if sp_lit(r2, tok_true()) is Some {
                assert(r2.subrange(0, 4)[0] == 't');
            }
        }
        lemma_lit_prefix(tok_false(), r3);
    }
    lemma_tok(seq!['}'], r4);
}

/// Parsing the rendering of any response recovers it exactly.
pub proof fn lemma_response_round(v: ResponseView, rest: Seq<char>)
    ensures
        sp_response(jresponse(v) + rest) == Some((v, rest)),
{
    match v {
        ResponseView::Okay(m) => lemma_response_round_okay(m, rest),
        ResponseView::Port(p) => lemma_response_round_port(p, rest),
        ResponseView::Services(l) => lemma_response_round_services(l, rest),
        ResponseView::Error(e) => lemma_response_round_error(e, rest),
        ResponseView::HttpsEnabled(b) => lemma_response_round_https(b, rest),
    }
}

/// Parsing the rendering of any response, as a whole line, is
/// identity.
pub proof fn lemma_response_round_trip(v: ResponseView)
    ensures
        spec_parse_response(jresponse(v)) == Some(v),
{
    assert(jresponse(v) + Seq::<char>::empty() =~= jresponse(v));
    lemma_response_round(v, Seq::<char>::empty());
}

// ---------------------------------------------------------------------
// The registry snapshot
// ---------------------------------------------------------------------

/// The comma-separated `"domain": service` entries of a snapshot.
pub open spec fn jsnapshot_items(l: Seq<ServiceView>) -> Seq<char>
    decreases l.len(),
{
    if l.len() == 0 {
        Seq::empty()
    } else if l.len() == 1 {
        jstr(l[0].domain) + seq![':'] + jservice(l[0])
    } else {
        jstr(l[0].domain) + seq![':'] + jservice(l[0]) + seq![','] + jsnapshot_items(l.skip(1))
    }
}

/// The JSON object persisted as the registry snapshot: each service
/// keyed by its domain.
pub open spec fn jsnapshot(l: Seq<ServiceView>) -> Seq<char> {
    seq!['{'] + jsnapshot_items(l) + seq!['}']
}

/// Parse the entries of a non-empty snapshot object, closing brace
/// included. Keys repeat the domain field and are not kept.
pub open spec fn sp_snapshot_items(s: Seq<char>, fuel: nat) -> Option<
    (Seq<ServiceView>, Seq<char>),
>
    decreases fuel,
{
    match sp_string(sp_ws(s)) {
        None => None,
        Some((_key, s)) => match sp_tok(s, seq![':']) {
            None => None,
            Some(s) => match sp_service(s) {
                None => None,
                Some((v, s)) => {
                    let s2 = sp_ws(s);
                    if s2.len() > 0 && s2[0] == ',' {
                        if fuel == 0 {
                            None
                        } else {
                            match sp_snapshot_items(s2.skip(1), (fuel - 1) as nat) {
                                None => None,
                                Some((l, rest)) => Some((seq![v] + l, rest)),
                            }
                        }
                    } else if s2.len() > 0 && s2[0] == '}' {
                        Some((seq![v], s2.skip(1)))
                    } else {
                        None
                    }
                },
            },
        },
    }
}

/// Parse a snapshot object.
pub open spec fn sp_snapshot(s: Seq<char>) -> Option<(Seq<ServiceView>, Seq<char>)> {
    match sp_tok(s, seq!['{']) {
        None => None,
        Some(s1) => {
            let s2 = sp_ws(s1);
            if s2.len() > 0 && s2[0] == '}' {
                Some((Seq::empty(), s2.skip(1)))
            } else {
                sp_snapshot_items(s1, s1.len() as nat)
            }
        },
    }
}

/// A complete document holds exactly one snapshot, up to trailing
/// whitespace.
pub open spec fn spec_parse_snapshot(s: Seq<char>) -> Option<Seq<ServiceView>> {
    match sp_snapshot(s) {
        None => None,
        Some((l, rest)) => if sp_ws(rest).len() == 0 {
            Some(l)
        } else {
            None
        },
    }
}

/// A rendered entry list is at least as long as the list.
pub proof fn lemma_jsnapshot_items_len(l: Seq<ServiceView>)
    ensures
        l.len() > 0 ==> jsnapshot_items(l).len() >= l.len(),
        l.len() > 0 ==> jsnapshot_items(l)[0] == '"',
    decreases l.len(),
{
    if l.len() == 1 {
    } else if l.len() > 1 {
        lemma_jsnapshot_items_len(l.skip(1));
    }
}

/// Parsing the rendered entries of a non-empty snapshot recovers the
/// list.
#[verifier::rlimit(60)]
pub proof fn lemma_snapshot_items_round(l: Seq<ServiceView>, rest: Seq<char>, fuel: nat)
    requires
        l.len() >= 1,
        fuel >= l.len(),
    ensures
        sp_snapshot_items(jsnapshot_items(l) + (seq!['}'] + rest), fuel) == Some((l, rest)),
    decreases l.len(),
{
    let t = jsnapshot_items(l) + (seq!['}'] + rest);
    if l.len() == 1 {
        let r3 = seq!['}'] + rest;
        let r2 = jservice(l[0]) + r3;
        let r1 = seq![':'] + r2;
        let r0 = jstr(l[0].domain) + r1;
        assert(t =~= r0);
        assert(r0[0] == '"');
        lemma_ws_noop(r0);
        lemma_string_round(l[0].domain, r1);
        lemma_tok(seq![':'], r2);
        lemma_service_round(l[0], r3);
        lemma_ws_noop(r3);
        assert(r3[0] == '}');
        assert(r3.skip(1) =~= rest);
        assert(seq![l[0]] =~= l);
    } else {
        let tail = jsnapshot_items(l.skip(1)) + (seq!['}'] + rest);
        let r3 = seq![','] + tail;
        let r2 = jservice(l[0]) + r3;
        let r1 = seq![':'] + r2;
        let r0 = jstr(l[0].domain) + r1;
        assert(t =~= r0);
        assert(r0[0] == '"');
        lemma_ws_noop(r0);
        lemma_string_round(l[0].domain, r1);
        lemma_tok(seq![':'], r2);
        lemma_service_round(l[0], r3);
        lemma_ws_noop(r3);
        assert(r3[0] == ',');
        assert(r3.skip(1) =~= tail);
        lemma_snapshot_items_round(l.skip(1), rest, (fuel - 1) as nat);
        assert(seq![l[0]] + l.skip(1) =~= l);
    }
}

/// Parsing the rendering of a snapshot recovers the list exactly.
pub proof fn lemma_snapshot_round(l: Seq<ServiceView>, rest: Seq<char>)
    ensures
        sp_snapshot(jsnapshot(l) + rest) == Some((l, rest)),
{
    let inner = jsnapshot_items(l) + (seq!['}'] + rest);
    assert(jsnapshot(l) + rest =~= seq!['{'] + inner);
    lemma_tok(seq!['{'], inner);
    if l.len() == 0 {
        assert(inner =~= seq!['}'] + rest);
        lemma_ws_noop(inner);
        assert(inner[0] == '}');
        assert(inner.skip(1) =~= rest);
        assert(Seq::<ServiceView>::empty() =~= l);
    } else {
        lemma_jsnapshot_items_len(l);
        assert(inner[0] == '"');
        lemma_ws_noop(inner);
        assert(inner.len() >= l.len());
        lemma_snapshot_items_round(l, rest, inner.len() as nat);
    }
}

/// Parsing the rendering of a snapshot document is identity.
pub proof fn lemma_snapshot_round_trip(l: Seq<ServiceView>)
    ensures
        spec_parse_snapshot(jsnapshot(l)) == Some(l),
{
    assert(jsnapshot(l) + Seq::<char>::empty() =~= jsnapshot(l));
    lemma_snapshot_round(l, Seq::<char>::empty());
}

// ---------------------------------------------------------------------
// Executable token parsers
// ---------------------------------------------------------------------

/// Advance past insignificant whitespace.
fn skip_ws(v: &Vec<char>, i: usize) -> (j: usize)
    requires
        i <= v.len(),
    ensures
        i <= j <= v.len(),
        v@.skip(j as int) == sp_ws(v@.skip(i as int)),
{
    let mut j = i;
    while j < v.len() && (v[j] == ' ' || v[j] == '\t' || v[j] == '\n' || v[j] == '\r')
        invariant
            i <= j <= v.len(),
            sp_ws(v@.skip(j as int)) == sp_ws(v@.skip(i as int)),
        decreases v.len() - j,
    {
        proof {
            assert(v@.skip(j as int).skip(1) =~= v@.skip(j + 1));
        }
        j += 1;
    }
    proof {
        assert(sp_ws(v@.skip(j as int)) == v@.skip(j as int));
    }
    j
}

/// Consume the exact token `lit` at position `i`.
fn eat_lit(v: &Vec<char>, i: usize, lit: &Vec<char>) -> (r: Option<usize>)
    requires
        i <= v.len(),
    ensures
        match r {
            Some(j) => i <= j <= v.len() && sp_lit(v@.skip(i as int), lit@) == Some(
                v@.skip(j as int),
            ),
            None => sp_lit(v@.skip(i as int), lit@) is None,
        },
{
    let s = Ghost(v@.skip(i as int));
    if v.len() - i < lit.len() {
        return None;
    }
    let mut k: usize = 0;
    while k < lit.len()
        invariant
            i <= v.len(),
            v.len() - i >= lit.len(),
            0 <= k <= lit.len(),
            forall|m: int| 0 <= m < k ==> v@.skip(i as int)[m] == lit@[m],
        decreases lit.len() - k,
    {
        if v[i + k] != lit[k] {
            proof {
                if sp_lit(s@, lit@) is Some {
                    assert(s@.subrange(0, lit@.len() as int)[k as int] == lit@[k as int]);
                }
            }
            return None;
        }
        k += 1;
    }
    proof {
        assert(s@.subrange(0, lit@.len() as int) =~= lit@);
        assert(s@.skip(lit@.len() as int) =~= v@.skip(i + lit@.len()));
    }
    Some(i + lit.len())
}

/// The character a JSON escape names.
fn unescape_char(c: char) -> (r: Option<char>)
    ensures
        r == unesc_char(c),
{
    if c == '"' {
        Some('"')
    } else if c == '\\' {
        Some('\\')
    } else if c == '/' {
        Some('/')
    } else if c == 'n' {
        Some('\n')
    } else if c == 'r' {
        Some('\r')
    } else if c == 't' {
        Some('\t')
    } else if c == 'b' {
        Some('\u{8}')
    } else if c == 'f' {
        Some('\u{c}')
    } else {
        None
    }
}

/// Parse a complete JSON string at position `i`; its decoded content
/// and the position after the closing quote.
fn parse_string_at(v: &Vec<char>, i: usize) -> (r: Option<(Vec<char>, usize)>)
    requires
        i <= v.len(),
    ensures
        match r {
            Some((body, j)) => i <= j <= v.len() && sp_string(v@.skip(i as int)) == Some(
                (body@, v@.skip(j as int)),
            ),
            None => sp_string(v@.skip(i as int)) is None,
        },
{
    if i >= v.len() || v[i] != '"' {
        return None;
    }
    proof {
        assert(v@.skip(i as int).skip(1) =~= v@.skip(i + 1));
    }
    let mut out: Vec<char> = Vec::new();
    let mut j = i + 1;
    loop
        invariant
            i + 1 <= j <= v.len(),
            sp_string(v@.skip(i as int)) == (match sp_str_body(v@.skip(j as int)) {
                Some((b, rest)) => Some::<(Seq<char>, Seq<char>)>((out@ + b, rest)),
                None => None::<(Seq<char>, Seq<char>)>,
            }),
        decreases v.len() - j,
    {
        if j >= v.len() {
            return None;
        }
        let c = v[j];
        if c == '"' {
            proof {
                assert(sp_str_body(v@.skip(j as int)) == Some(
                    (Seq::<char>::empty(), v@.skip(j as int).skip(1)),
                ));
                assert(out@ + Seq::<char>::empty() =~= out@);
                assert(v@.skip(j as int).skip(1) =~= v@.skip(j + 1));
            }
            return Some((out, j + 1));
        } else if c == '\\' {
            if j + 1 >= v.len() {
                return None;
            }
            let e = v[j + 1];
            match unescape_char(e) {
                None => {
                    return None;
                },
                Some(d) => {
                    proof {
                        assert(v@.skip(j as int).skip(2) =~= v@.skip(j + 2));
                        if sp_str_body(v@.skip(j + 2)) is Some {
                            let (b, _rest) = sp_str_body(v@.skip(j + 2)).unwrap();
                            assert(out@ + (seq![d] + b) =~= out@.push(d) + b);
                        }
                    }
                    out.push(d);
                    j += 2;
                },
            }
        } else {
            proof {
                assert(v@.skip(j as int).skip(1) =~= v@.skip(j + 1));
                if sp_str_body(v@.skip(j + 1)) is Some {
                    let (b, _rest) = sp_str_body(v@.skip(j + 1)).unwrap();
                    assert(out@ + (seq![c] + b) =~= out@.push(c) + b);
                }
            }
            out.push(c);
            j += 1;
        }
    }
}

/// Parse a decimal number of value at most `max` at position `i`.
fn parse_nat_at(v: &Vec<char>, i: usize, max: u64) -> (r: Option<(u64, usize)>)
    requires
        i <= v.len(),
    ensures
        match r {
            Some((n, j)) => i <= j <= v.len() && n <= max && sp_nat(
                v@.skip(i as int),
                max as nat,
            ) == Some((n as nat, v@.skip(j as int))),
            None => sp_nat(v@.skip(i as int), max as nat) is None,
        },
{
    if i >= v.len() {
        return None;
    }
    let c0 = v[i];
    if (c0 as u32) < 48 || (c0 as u32) > 57 {
        return None;
    }
    let mut acc: u64 = 0;
    let mut j = i;
    loop
        invariant
            i <= j <= v.len(),
            acc <= max,
            sp_nat_rec(v@.skip(i as int), 0) == sp_nat_rec(v@.skip(j as int), acc as nat),
            v@.skip(i as int).len() > 0 && is_digit(v@.skip(i as int)[0]),
        decreases v.len() - j,
    {
        if j >= v.len() {
            proof {
                assert(sp_nat_rec(v@.skip(j as int), acc as nat) == (acc as nat, v@.skip(
                    j as int,
                )));
            }
            return Some((acc, j));
        }
        let c = v[j];
        if (c as u32) < 48 || (c as u32) > 57 {
            proof {
                assert(sp_nat_rec(v@.skip(j as int), acc as nat) == (acc as nat, v@.skip(
                    j as int,
                )));
            }
            return Some((acc, j));
        }
        let d: u64 = ((c as u32) - 48) as u64;
        proof {
            assert(v@.skip(j as int).skip(1) =~= v@.skip(j + 1));
            assert(digit_val(c) == d as nat);
        }
        if d > max || acc > (max - d) / 10 {
            proof {
                let whole = sp_nat_rec(v@.skip(i as int), 0).0;
                assert(sp_nat_rec(v@.skip(j as int), acc as nat) == sp_nat_rec(
                    v@.skip(j + 1),
                    (acc as nat) * 10 + digit_val(c),
                ));
                lemma_sp_nat_rec_ge(v@.skip(j + 1), (acc as nat) * 10 + digit_val(c));
                assert((acc as nat) * 10 + (d as nat) > max as nat) by (nonlinear_arith)
                    requires
                        d > max || (d <= max && acc > (max - d) / 10),
                        d < 10,
                {
                    if d <= max {
                        vstd::arithmetic::div_mod::lemma_fundamental_div_mod((max - d) as int, 10);
                    }
                }
                assert(whole > max as nat);
            }
            return None;
        }
        proof {
            assert((acc as nat) * 10 + (d as nat) <= max as nat) by (nonlinear_arith)
                requires
                    acc <= (max - d) / 10,
                    d <= max,
                    d < 10,
            {
                vstd::arithmetic::div_mod::lemma_fundamental_div_mod((max - d) as int, 10);
            }
        }
        acc = acc * 10 + d;
        j += 1;
    }
}

// ---------------------------------------------------------------------
// Executable rendering
// ---------------------------------------------------------------------

/// Escaping distributes over appending one character.
pub proof fn lemma_esc_push(s: Seq<char>, c: char)
    ensures
        esc(s.push(c)) == esc(s) + esc_char(c),
    decreases s.len(),
{
    if s.len() == 0 {
        assert(s.push(c)[0] == c);
        assert(s.push(c).skip(1) =~= Seq::<char>::empty());
        assert(esc(s.push(c)) == esc_char(s.push(c)[0]) + esc(s.push(c).skip(1)));
        assert(esc(Seq::<char>::empty()) == Seq::<char>::empty());
        assert(esc(s.push(c)) =~= esc_char(c));
        assert(esc(s) + esc_char(c) =~= esc_char(c));
    } else {
        assert(s.push(c)[0] == s[0]);
        assert(s.push(c).skip(1) =~= s.skip(1).push(c));
        lemma_esc_push(s.skip(1), c);
        assert(esc_char(s[0]) + (esc(s.skip(1)) + esc_char(c)) =~= (esc_char(s[0]) + esc(
            s.skip(1),
        )) + esc_char(c));
    }
}

/// Append the characters of `s` to `out`.
pub(crate) fn append_str(out: &mut Vec<char>, s: &str)
    ensures
        final(out)@ == old(out)@ + s@,
{
    let mut v = string_to_chars(s);
    out.append(&mut v);
}

/// Append the decimal rendering of `n` to `out`.
pub(crate) fn append_num(out: &mut Vec<char>, n: u64)
    ensures
        final(out)@ == old(out)@ + dec_digits(n as nat),
{
    let mut v = u64_to_dec_chars(n);
    out.append(&mut v);
}

/// Append the JSON string rendering of `s` to `out`.
fn append_jstr(out: &mut Vec<char>, s: &str)
    ensures
        final(out)@ == old(out)@ + jstr(s@),
{
    let chars = string_to_chars(s);
    out.push('"');
    let ghost base = out@;
    let mut i: usize = 0;
    while i < chars.len()
        invariant
            0 <= i <= chars.len(),
            chars@ == s@,
            out@ == base + esc(chars@.take(i as int)),
        decreases chars.len() - i,
    {
        let c = chars[i];
        proof {
            assert(chars@.take(i + 1) =~= chars@.take(i as int).push(c));
            lemma_esc_push(chars@.take(i as int), c);
        }
        if c == '"' {
            out.push('\\');
            out.push('"');
            proof {
                assert(out@ =~= base + esc(chars@.take(i as int)) + esc_char(c));
            }
        } else if c == '\\' {
            out.push('\\');
            out.push('\\');
            proof {
                assert(out@ =~= base + esc(chars@.take(i as int)) + esc_char(c));
            }
        } else if c == '\n' {
            out.push('\\');
            out.push('n');
            proof {
                assert(out@ =~= base + esc(chars@.take(i as int)) + esc_char(c));
            }
        } else if c == '\r' {
            out.push('\\');
            out.push('r');
            proof {
                assert(out@ =~= base + esc(chars@.take(i as int)) + esc_char(c));
            }
        } else if c == '\t' {
            out.push('\\');
            out.push('t');
            proof {
                assert(out@ =~= base + esc(chars@.take(i as int)) + esc_char(c));
            }
        } else {
            out.push(c);
            proof {
                assert(esc_char(c) =~= seq![c]);
                assert(out@ =~= base + esc(chars@.take(i as int)) + esc_char(c));
            }
        }
        proof {
            assert(base + esc(chars@.take(i as int)) + esc_char(c) =~= base + (esc(
                chars@.take(i as int),
            ) + esc_char(c)));
        }
        i += 1;
    }
    proof {
        assert(chars@.take(chars@.len() as int) =~= s@);
    }
    out.push('"');
    proof {
        assert(out@ =~= old(out)@ + jstr(s@));
    }
}

/// Append the JSON rendering of a service to `out`.
fn append_service(out: &mut Vec<char>, s: &Service)
    ensures
        final(out)@ == old(out)@ + jservice(s@),
{
    append_str(out, "{\"domain\":");
    proof {
        reveal_strlit("{\"domain\":");
        assert("{\"domain\":"@ =~= seq!['{'] + key_domain() + seq![':']);
    }
    append_jstr(out, self_str(&s.domain));
    append_str(out, ",\"port\":");
    proof {
        reveal_strlit(",\"port\":");
        assert(",\"port\":"@ =~= seq![','] + key_port() + seq![':']);
    }
    append_num(out, s.port as u64);
    append_str(out, ",\"pid\":");
    proof {
        reveal_strlit(",\"pid\":");
        assert(",\"pid\":"@ =~= seq![','] + key_pid() + seq![':']);
    }
    append_num(out, s.pid as u64);
    append_str(out, ",\"directory\":");
    proof {
        reveal_strlit(",\"directory\":");
        assert(",\"directory\":"@ =~= seq![','] + key_directory() + seq![':']);
    }
    append_jstr(out, self_str(&s.directory));
    append_str(out, "}");
    proof {
        reveal_strlit("}");
        assert("}"@ =~= seq!['}']);
        assert(out@ =~= old(out)@ + jservice(s@));
    }
}

/// Borrow a `String` as a `&str`.
fn self_str(s: &String) -> (r: &str)
    ensures
        r@ == s@,
{
    s.as_str()
}

// ---------------------------------------------------------------------
// Executable service parsing
// ---------------------------------------------------------------------

/// Consume the token with the characters of `lit` after whitespace.
fn eat_tok(v: &Vec<char>, i: usize, lit: &str) -> (r: Option<usize>)
    requires
        i <= v.len(),
    ensures
        match r {
            Some(j) => i <= j <= v.len() && sp_tok(v@.skip(i as int), lit@) == Some(
                v@.skip(j as int),
            ),
            None => sp_tok(v@.skip(i as int), lit@) is None,
        },
{
    let litv = string_to_chars(lit);
    let j = skip_ws(v, i);
    eat_lit(v, j, &litv)
}

/// Parse one service object at position `i`.
fn parse_service_at(v: &Vec<char>, i: usize) -> (r: Option<(Service, usize)>)
    requires
        i <= v.len(),
    ensures
        match r {
            Some((s, j)) => i <= j <= v.len() && sp_service(v@.skip(i as int)) == Some(
                (s@, v@.skip(j as int)),
            ),
            None => sp_service(v@.skip(i as int)) is None,
        },
{
    proof {
        reveal_strlit("{");
        assert("{"@ =~= seq!['{']);
        reveal_strlit("\"domain\"");
        assert("\"domain\""@ =~= key_domain());
        reveal_strlit(":");
        assert(":"@ =~= seq![':']);
        reveal_strlit(",");
        assert(","@ =~= seq![',']);
        reveal_strlit("\"port\"");
        assert("\"port\""@ =~= key_port());
        reveal_strlit("\"pid\"");
        assert("\"pid\""@ =~= key_pid());
        reveal_strlit("\"directory\"");
        assert("\"directory\""@ =~= key_directory());
        reveal_strlit("}");
        assert("}"@ =~= seq!['}']);
    }
    let i = match eat_tok(v, i, "{") {
        None => { return None; },
        Some(j) => j,
    };
    let i = match eat_tok(v, i, "\"domain\"") {
        None => { return None; },
        Some(j) => j,
    };
    let i = match eat_tok(v, i, ":") {
        None => { return None; },
        Some(j) => j,
    };
    let i = skip_ws(v, i);
    let (domain, i) = match parse_string_at(v, i) {
        None => { return None; },
        Some(p) => p,
    };
    let i = match eat_tok(v, i, ",") {
        None => { return None; },
        Some(j) => j,
    };
    let i = match eat_tok(v, i, "\"port\"") {
        None => { return None; },
        Some(j) => j,
    };
    let i = match eat_tok(v, i, ":") {
        None => { return None; },
        Some(j) => j,
    };
    let i = skip_ws(v, i);
    let (port, i) = match parse_nat_at(v, i, 65535) {
        None => { return None; },
        Some(p) => p,
    };
    let i = match eat_tok(v, i, ",") {
        None => { return None; },
        Some(j) => j,
    };
    let i = match eat_tok(v, i, "\"pid\"") {
        None => { return None; },
        Some(j) => j,
    };
    let i = match eat_tok(v, i, ":") {
        None => { return None; },
        Some(j) => j,
    };
    let i = skip_ws(v, i);
    let (pid, i) = match parse_nat_at(v, i, 4294967295) {
        None => { return None; },
        Some(p) => p,
    };
    let i = match eat_tok(v, i, ",") {
        None => { return None; },
        Some(j) => j,
    };
    let i = match eat_tok(v, i, "\"directory\"") {
        None => { return None; },
        Some(j) => j,
    };
    let i = match eat_tok(v, i, ":") {
        None => { return None; },
        Some(j) => j,
    };
    let i = skip_ws(v, i);
    let (directory, i) = match parse_string_at(v, i) {
        None => { return None; },
        Some(p) => p,
    };
    let i = match eat_tok(v, i, "}") {
        None => { return None; },
        Some(j) => j,
    };
    let s = Service {
        domain: chars_to_string(&domain),
        port: port as u16,
        pid: pid as u32,
        directory: chars_to_string(&directory),
    };
    Some((s, i))
}

// ---------------------------------------------------------------------
// Executable rendering: requests, responses, snapshots
// ---------------------------------------------------------------------

/// Appending an item extends the rendered list by one entry.
pub proof fn lemma_jservices_items_push(l: Seq<ServiceView>, v: ServiceView)
    ensures
        jservices_items(l.push(v)) == if l.len() == 0 {
            jservice(v)
        } else {
            jservices_items(l) + seq![','] + jservice(v)
        },
    decreases l.len(),
{
    if l.len() == 0 {
        assert(l.push(v).len() == 1);
        assert(l.push(v)[0] == v);
    } else {
        assert(l.push(v)[0] == l[0]);
        assert(l.push(v).skip(1) =~= l.skip(1).push(v));
        lemma_jservices_items_push(l.skip(1), v);
        if l.len() == 1 {
            assert(l.skip(1).len() == 0);
            assert(jservices_items(l.push(v)) == jservice(l[0]) + seq![','] + jservices_items(
                l.skip(1).push(v),
            ));
            assert(jservices_items(l) == jservice(l[0]));
        } else {
            assert(jservices_items(l.push(v)) == jservice(l[0]) + seq![','] + jservices_items(
                l.skip(1).push(v),
            ));
            assert(jservice(l[0]) + seq![','] + (jservices_items(l.skip(1)) + seq![','] + jservice(
                v,
            )) =~= (jservice(l[0]) + seq![','] + jservices_items(l.skip(1))) + seq![','] + jservice(
                v,
            ));
        }
    }
}

/// Appending an entry extends the rendered snapshot by one entry.
pub proof fn lemma_jsnapshot_items_push(l: Seq<ServiceView>, v: ServiceView)
    ensures
        jsnapshot_items(l.push(v)) == if l.len() == 0 {
            jstr(v.domain) + seq![':'] + jservice(v)
        } else {
            jsnapshot_items(l) + seq![','] + (jstr(v.domain) + seq![':'] + jservice(v))
        },
    decreases l.len(),
{
    if l.len() == 0 {
        assert(l.push(v).len() == 1);
        assert(l.push(v)[0] == v);
    } else {
        assert(l.push(v)[0] == l[0]);
        assert(l.push(v).skip(1) =~= l.skip(1).push(v));
        lemma_jsnapshot_items_push(l.skip(1), v);
        let e0 = jstr(l[0].domain) + seq![':'] + jservice(l[0]);
        let ev = jstr(v.domain) + seq![':'] + jservice(v);
        if l.len() == 1 {
            assert(l.skip(1).len() == 0);
            assert(jsnapshot_items(l.push(v)) == e0 + seq![','] + jsnapshot_items(
                l.skip(1).push(v),
            ));
            assert(jsnapshot_items(l) == e0);
            assert(e0 + seq![','] + ev =~= jsnapshot_items(l) + seq![','] + ev);
        } else {
            assert(jsnapshot_items(l.push(v)) == e0 + seq![','] + jsnapshot_items(
                l.skip(1).push(v),
            ));
            assert(e0 + seq![','] + (jsnapshot_items(l.skip(1)) + seq![','] + ev) =~= (e0 + seq![
                ',',
            ] + jsnapshot_items(l.skip(1))) + seq![','] + ev);
        }
    }
}

/// The view of a vector of services, element by element.
pub open spec fn services_view(v: Seq<Service>) -> Seq<ServiceView> {
    Seq::new(v.len(), |i: int| v[i]@)
}

/// Render one control request as its wire line (without the newline).
pub fn render_request(req: &Request) -> (r: String)
    ensures
        r@ == jrequest(req@),
{
    let mut out: Vec<char> = Vec::new();
    match req {
        Request::GetPort => {
            append_str(&mut out, "\"GetPort\"");
            proof {
                reveal_strlit("\"GetPort\"");
                lemma_esc_id(tag_getport());
                assert("\"GetPort\""@ =~= jstr(tag_getport()));
            }
        },
        Request::List => {
            append_str(&mut out, "\"List\"");
            proof {
                reveal_strlit("\"List\"");
                lemma_esc_id(tag_list());
                assert("\"List\""@ =~= jstr(tag_list()));
            }
        },
        Request::Shutdown => {
            append_str(&mut out, "\"Shutdown\"");
            proof {
                reveal_strlit("\"Shutdown\"");
                lemma_esc_id(tag_shutdown());
                assert("\"Shutdown\""@ =~= jstr(tag_shutdown()));
            }
        },
        Request::HttpsStatus => {
            append_str(&mut out, "\"HttpsStatus\"");
            proof {
                reveal_strlit("\"HttpsStatus\"");
                lemma_esc_id(tag_https_status());
                assert("\"HttpsStatus\""@ =~= jstr(tag_https_status()));
            }
        },
        Request::Register { domain, port, pid, directory } => {
            append_str(&mut out, "{\"Register\":");
            proof {
                reveal_strlit("{\"Register\":");
                lemma_esc_id(tag_register());
                assert("{\"Register\":"@ =~= seq!['{'] + jstr(tag_register()) + seq![':']);
            }
            append_binding(&mut out, domain, *port, *pid, directory);
            append_str(&mut out, "}");
            proof {
                reveal_strlit("}");
                assert("}"@ =~= seq!['}']);
                assert(out@ =~= jrequest(req@));
            }
        },
        Request::Unregister { domain } => {
            append_str(&mut out, "{\"Unregister\":");
            proof {
                reveal_strlit("{\"Unregister\":");
                lemma_esc_id(tag_unregister());
                assert("{\"Unregister\":"@ =~= seq!['{'] + jstr(tag_unregister()) + seq![':']);
            }
            append_domain_payload(&mut out, domain);
            append_str(&mut out, "}");
            proof {
                reveal_strlit("}");
                assert("}"@ =~= seq!['}']);
                assert(out@ =~= jrequest(req@));
            }
        },
        Request::Stop { domain } => {
            append_str(&mut out, "{\"Stop\":");
            proof {
                reveal_strlit("{\"Stop\":");
                lemma_esc_id(tag_stop());
                assert("{\"Stop\":"@ =~= seq!['{'] + jstr(tag_stop()) + seq![':']);
            }
            append_domain_payload(&mut out, domain);
            append_str(&mut out, "}");
            proof {
                reveal_strlit("}");
                assert("}"@ =~= seq!['}']);
                assert(out@ =~= jrequest(req@));
            }
        },
    }
    chars_to_string(&out)
}

/// Append the rendering of a binding with the given fields.
fn append_binding(out: &mut Vec<char>, domain: &String, port: u16, pid: u32, directory: &String)
    ensures
        final(out)@ == old(out)@ + jservice(
            ServiceView { domain: domain@, port, pid, directory: directory@ },
        ),
{
    append_str(out, "{\"domain\":");
    proof {
        reveal_strlit("{\"domain\":");
        assert("{\"domain\":"@ =~= seq!['{'] + key_domain() + seq![':']);
    }
    append_jstr(out, self_str(domain));
    append_str(out, ",\"port\":");
    proof {
        reveal_strlit(",\"port\":");
        assert(",\"port\":"@ =~= seq![','] + key_port() + seq![':']);
    }
    append_num(out, port as u64);
    append_str(out, ",\"pid\":");
    proof {
        reveal_strlit(",\"pid\":");
        assert(",\"pid\":"@ =~= seq![','] + key_pid() + seq![':']);
    }
    append_num(out, pid as u64);
    append_str(out, ",\"directory\":");
    proof {
        reveal_strlit(",\"directory\":");
        assert(",\"directory\":"@ =~= seq![','] + key_directory() + seq![':']);
    }
    append_jstr(out, self_str(directory));
    append_str(out, "}");
    proof {
        reveal_strlit("}");
        assert("}"@ =~= seq!['}']);
        assert(out@ =~= old(out)@ + jservice(
            ServiceView { domain: domain@, port, pid, directory: directory@ },
        ));
    }
}

/// Append the rendering of a `{"domain": ...}` payload.
fn append_domain_payload(out: &mut Vec<char>, domain: &String)
    ensures
        final(out)@ == old(out)@ + jdomain_payload(domain@),
{
    append_str(out, "{\"domain\":");
    proof {
        reveal_strlit("{\"domain\":");
        assert("{\"domain\":"@ =~= seq!['{'] + key_domain() + seq![':']);
    }
    append_jstr(out, self_str(domain));
    append_str(out, "}");
    proof {
        reveal_strlit("}");
        assert("}"@ =~= seq!['}']);
        assert(out@ =~= old(out)@ + jdomain_payload(domain@));
    }
}

/// Render one control response as its wire line (without the newline).
#[verifier::rlimit(60)]
pub fn render_response(resp: &Response) -> (r: String)
    ensures
        r@ == jresponse(resp@),
{
    let mut out: Vec<char> = Vec::new();
    match resp {
        Response::Okay(m) => {
            append_str(&mut out, "{\"Ok\":");
            proof {
                reveal_strlit("{\"Ok\":");
                lemma_esc_id(tag_ok());
                assert("{\"Ok\":"@ =~= seq!['{'] + jstr(tag_ok()) + seq![':']);
            }
            match m {
                None => {
                    append_str(&mut out, "null");
                    proof {
                        reveal_strlit("null");
                        assert("null"@ =~= tok_null());
                    }
                },
                Some(msg) => {
                    append_jstr(&mut out, self_str(msg));
                },
            }
            append_str(&mut out, "}");
            proof {
                reveal_strlit("}");
                assert("}"@ =~= seq!['}']);
                assert(out@ =~= jresponse(resp@));
            }
        },
        Response::Port(p) => {
            append_str(&mut out, "{\"Port\":");
            proof {
                reveal_strlit("{\"Port\":");
                lemma_esc_id(tag_port());
                assert("{\"Port\":"@ =~= seq!['{'] + jstr(tag_port()) + seq![':']);
            }
            append_num(&mut out, *p as u64);
            append_str(&mut out, "}");
            proof {
                reveal_strlit("}");
                assert("}"@ =~= seq!['}']);
                assert(out@ =~= jresponse(resp@));
            }
        },
        Response::Services(list) => {
            append_str(&mut out, "{\"Services\":[");
            proof {
                reveal_strlit("{\"Services\":[");
                lemma_esc_id(tag_services());
                assert("{\"Services\":["@ =~= seq!['{'] + jstr(tag_services()) + seq![':'] + seq![
                    '[',
                ]);
            }
            let ghost views = services_view(list@);
            let ghost base = out@;
            let mut k: usize = 0;
            while k < list.len()
                invariant
                    0 <= k <= list.len(),
                    views == services_view(list@),
                    views.len() == list@.len(),
                    forall|i: int| 0 <= i < list@.len() ==> views[i] == list@[i]@,
                    out@ == base + jservices_items(views.take(k as int)),
                decreases list.len() - k,
            {
                proof {
                    assert(views.take(k + 1) =~= views.take(k as int).push(views[k as int]));
                    lemma_jservices_items_push(views.take(k as int), views[k as int]);
                }
                if k > 0 {
                    append_str(&mut out, ",");
                    proof {
                        reveal_strlit(",");
                        assert(","@ =~= seq![',']);
                    }
                }
                let s = &list[k];
                append_service(&mut out, s);
                proof {
                    if k == 0 {
                        assert(views.take(0int).len() == 0);
                        assert(out@ =~= base + jservices_items(views.take(k + 1)));
                    } else {
                        assert(out@ =~= base + jservices_items(views.take(k + 1)));
                    }
                }
                k += 1;
            }
            proof {
                assert(views.take(list@.len() as int) =~= views);
            }
            append_str(&mut out, "]}");
            proof {
                reveal_strlit("]}");
                assert("]}"@ =~= seq![']'] + seq!['}']);
                assert(out@ =~= jresponse(resp@));
            }
        },
        Response::Error(e) => {
            append_str(&mut out, "{\"Error\":");
            proof {
                reveal_strlit("{\"Error\":");
                lemma_esc_id(tag_error());
                assert("{\"Error\":"@ =~= seq!['{'] + jstr(tag_error()) + seq![':']);
            }
            append_jstr(&mut out, self_str(e));
            append_str(&mut out, "}");
            proof {
                reveal_strlit("}");
                assert("}"@ =~= seq!['}']);
                assert(out@ =~= jresponse(resp@));
            }
        },
        Response::HttpsEnabled(b) => {
            append_str(&mut out, "{\"HttpsEnabled\":");
            proof {
                reveal_strlit("{\"HttpsEnabled\":");
                lemma_esc_id(tag_https_enabled());
                assert("{\"HttpsEnabled\":"@ =~= seq!['{'] + jstr(tag_https_enabled()) + seq![
                    ':',
                ]);
            }
            if *b {
                append_str(&mut out, "true");
                proof {
                    reveal_strlit("true");
                    assert("true"@ =~= tok_true());
                }
            } else {
                append_str(&mut out, "false");
                proof {
                    reveal_strlit("false");
                    assert("false"@ =~= tok_false());
                }
            }
            append_str(&mut out, "}");
            proof {
                reveal_strlit("}");
                assert("}"@ =~= seq!['}']);
                assert(out@ =~= jresponse(resp@));
            }
        },
    }
    chars_to_string(&out)
}

/// Render the persisted snapshot of the given bindings.
pub fn render_snapshot(list: &Vec<Service>) -> (r: String)
    ensures
        r@ == jsnapshot(services_view(list@)),
{
    let mut out: Vec<char> = Vec::new();
    append_str(&mut out, "{");
    proof {
        reveal_strlit("{");
        assert("{"@ =~= seq!['{']);
    }
    let ghost views = services_view(list@);
    let ghost base = out@;
    let mut k: usize = 0;
    while k < list.len()
        invariant
            0 <= k <= list.len(),
            views == services_view(list@),
            views.len() == list@.len(),
            forall|i: int| 0 <= i < list@.len() ==> views[i] == list@[i]@,
            out@ == base + jsnapshot_items(views.take(k as int)),
        decreases list.len() - k,
    {
        proof {
            assert(views.take(k + 1) =~= views.take(k as int).push(views[k as int]));
            lemma_jsnapshot_items_push(views.take(k as int), views[k as int]);
        }
        if k > 0 {
            append_str(&mut out, ",");
            proof {
                reveal_strlit(",");
                assert(","@ =~= seq![',']);
            }
        }
        let s = &list[k];
        append_jstr(&mut out, self_str(&s.domain));
        append_str(&mut out, ":");
        proof {
            reveal_strlit(":");
            assert(":"@ =~= seq![':']);
        }
        append_service(&mut out, s);
        proof {
            assert(out@ =~= base + jsnapshot_items(views.take(k + 1)));
        }
        k += 1;
    }
    proof {
        assert(views.take(list@.len() as int) =~= views);
    }
    append_str(&mut out, "}");
    proof {
        reveal_strlit("}");
        assert("}"@ =~= seq!['}']);
        assert(out@ =~= jsnapshot(views));
    }
    chars_to_string(&out)
}

/// Render one service binding as JSON.
pub fn render_service(s: &Service) -> (r: String)
    ensures
        r@ == jservice(s@),
{
    let mut out: Vec<char> = Vec::new();
    append_service(&mut out, s);
    chars_to_string(&out)
}

/// Parse one service binding from a complete JSON document.
pub fn parse_service(s: &str) -> (r: Option<Service>)
    ensures
        match r {
            Some(svc) => (match sp_service(s@) {
                Some((v, rest)) => v == svc@ && sp_ws(rest).len() == 0,
                None => false,
            }),
            None => (match sp_service(s@) {
                Some((_, rest)) => sp_ws(rest).len() != 0,
                None => true,
            }),
        },
{
    let v = string_to_chars(s);
    proof {
        assert(v@.skip(0) =~= s@);
    }
    match parse_service_at(&v, 0) {
        None => None,
        Some((svc, j)) => {
            if skip_ws(&v, j) == v.len() {
                Some(svc)
            } else {
                None
            }
        },
    }
}

// ---------------------------------------------------------------------
// Executable parsing: requests, responses, snapshots
// ---------------------------------------------------------------------

/// True exactly when the two character vectors hold the same run.
fn chars_eq(a: &Vec<char>, b: &Vec<char>) -> (r: bool)
    ensures
        r == (a@ == b@),
{
    if a.len() != b.len() {
        proof {
            assert(a@ != b@);
        }
        return false;
    }
    let mut i: usize = 0;
    while i < a.len()
        invariant
            a@.len() == b@.len(),
            0 <= i <= a@.len(),
            forall|k: int| 0 <= k < i ==> a@[k] == b@[k],
        decreases a.len() - i,
    {
        if a[i] != b[i] {
            return false;
        }
        i += 1;
    }
    proof {
        assert(a@ =~= b@);
    }
    true
}

/// Parse a `{"domain": ...}` payload at position `i`.
fn parse_domain_payload_at(v: &Vec<char>, i: usize) -> (r: Option<(Vec<char>, usize)>)
    requires
        i <= v.len(),
    ensures
        match r {
            Some((domain, j)) => i <= j <= v.len() && sp_domain_payload(v@.skip(i as int))
                == Some((domain@, v@.skip(j as int))),
            None => sp_domain_payload(v@.skip(i as int)) is None,
        },
{
    proof {
        reveal_strlit("{");
        assert("{"@ =~= seq!['{']);
        reveal_strlit("\"domain\"");
        assert("\"domain\""@ =~= key_domain());
        reveal_strlit(":");
        assert(":"@ =~= seq![':']);
        reveal_strlit("}");
        assert("}"@ =~= seq!['}']);
    }
    let i = match eat_tok(v, i, "{") {
        None => { return None; },
        Some(j) => j,
    };
    let i = match eat_tok(v, i, "\"domain\"") {
        None => { return None; },
        Some(j) => j,
    };
    let i = match eat_tok(v, i, ":") {
        None => { return None; },
        Some(j) => j,
    };
    let i = skip_ws(v, i);
    let (domain, i) = match parse_string_at(v, i) {
        None => { return None; },
        Some(p) => p,
    };
    let i = match eat_tok(v, i, "}") {
        None => { return None; },
        Some(j) => j,
    };
    Some((domain, i))
}

/// Parse one control request from a complete wire line.
#[verifier::rlimit(100)]
pub fn parse_request(s: &str) -> (r: Option<Request>)
    ensures
        match r {
            Some(q) => spec_parse_request(s@) == Some(q@),
            None => spec_parse_request(s@) is None,
        },
{
    let v = string_to_chars(s);
    proof {
        assert(v@.skip(0) =~= s@);
    }
    let i0 = skip_ws(&v, 0);
    if i0 < v.len() && v[i0] == '"' {
        let (tag, i1) = match parse_string_at(&v, i0) {
            None => { return None; },
            Some(p) => p,
        };
        let rest_ok = skip_ws(&v, i1) == v.len();
        proof {
            reveal_strlit("GetPort");
            assert("GetPort"@ =~= tag_getport());
            reveal_strlit("List");
            assert("List"@ =~= tag_list());
            reveal_strlit("Shutdown");
            assert("Shutdown"@ =~= tag_shutdown());
            reveal_strlit("HttpsStatus");
            assert("HttpsStatus"@ =~= tag_https_status());
        }
        let req: Request = if chars_eq(&tag, &string_to_chars("GetPort")) {
            Request::GetPort
        } else if chars_eq(&tag, &string_to_chars("List")) {
            Request::List
        } else if chars_eq(&tag, &string_to_chars("Shutdown")) {
            Request::Shutdown
        } else if chars_eq(&tag, &string_to_chars("HttpsStatus")) {
            Request::HttpsStatus
        } else {
            return None;
        };
        if rest_ok {
            Some(req)
        } else {
            None
        }
    } else {
        proof {
            reveal_strlit("{");
            assert("{"@ =~= seq!['{']);
            reveal_strlit(":");
            assert(":"@ =~= seq![':']);
            reveal_strlit("}");
            assert("}"@ =~= seq!['}']);
            reveal_strlit("Register");
            assert("Register"@ =~= tag_register());
            reveal_strlit("Unregister");
            assert("Unregister"@ =~= tag_unregister());
            reveal_strlit("Stop");
            assert("Stop"@ =~= tag_stop());
        }
        let i1 = match eat_tok(&v, i0, "{") {
            None => { return None; },
            Some(j) => j,
        };
        let i2 = skip_ws(&v, i1);
        let (tag, i3) = match parse_string_at(&v, i2) {
            None => { return None; },
            Some(p) => p,
        };
        let i4 = match eat_tok(&v, i3, ":") {
            None => { return None; },
            Some(j) => j,
        };
        if chars_eq(&tag, &string_to_chars("Register")) {
            let (svc, i5) = match parse_service_at(&v, i4) {
                None => { return None; },
                Some(p) => p,
            };
            let i6 = match eat_tok(&v, i5, "}") {
                None => { return None; },
                Some(j) => j,
            };
            let Service { domain, port, pid, directory } = svc;
            let req = Request::Register { domain, port, pid, directory };
            if skip_ws(&v, i6) == v.len() {
                Some(req)
            } else {
                None
            }
        } else if chars_eq(&tag, &string_to_chars("Unregister")) {
            let (domain, i5) = match parse_domain_payload_at(&v, i4) {
                None => { return None; },
                Some(p) => p,
            };
            let i6 = match eat_tok(&v, i5, "}") {
                None => { return None; },
                Some(j) => j,
            };
            let req = Request::Unregister { domain: chars_to_string(&domain) };
            if skip_ws(&v, i6) == v.len() {
                Some(req)
            } else {
                None
            }
        } else if chars_eq(&tag, &string_to_chars("Stop")) {
            let (domain, i5) = match parse_domain_payload_at(&v, i4) {
                None => { return None; },
                Some(p) => p,
            };
            let i6 = match eat_tok(&v, i5, "}") {
                None => { return None; },
                Some(j) => j,
            };
            let req = Request::Stop { domain: chars_to_string(&domain) };
            if skip_ws(&v, i6) == v.len() {
                Some(req)
            } else {
                None
            }
        } else {
            None
        }
    }
}

/// Parse a JSON array of services at position `i`.
fn parse_services_at(v: &Vec<char>, i: usize) -> (r: Option<(Vec<Service>, usize)>)
    requires
        i <= v.len(),
    ensures
        match r {
            Some((list, j)) => i <= j <= v.len() && sp_services(v@.skip(i as int)) == Some(
                (services_view(list@), v@.skip(j as int)),
            ),
            None => sp_services(v@.skip(i as int)) is None,
        },
{
    proof {
        reveal_strlit("[");
        assert("["@ =~= seq!['[']);
    }
    let i1 = match eat_tok(v, i, "[") {
        None => { return None; },
        Some(j) => j,
    };
    let i2 = skip_ws(v, i1);
    if i2 < v.len() && v[i2] == ']' {
        proof {
            assert(v@.skip(i2 as int).skip(1) =~= v@.skip(i2 + 1));
            assert(services_view(Seq::<Service>::empty()) =~= Seq::<ServiceView>::empty());
        }
        let out: Vec<Service> = Vec::new();
        return Some((out, i2 + 1));
    }
    let ghost s1 = v@.skip(i1 as int);
    let mut fuel: usize = v.len() - i1;
    let mut out: Vec<Service> = Vec::new();
    let mut cur = i1;
    proof {
        assert(sp_services(v@.skip(i as int)) == sp_services_items(s1, s1.len() as nat));
        let items = sp_services_items(s1, s1.len() as nat);
        if items is Some {
            let (l, rest) = items.unwrap();
            assert(services_view(out@) + l =~= l);
        }
    }
    loop
        invariant
            i <= i1 <= cur <= v.len(),
            fuel <= v.len() - i1,
            sp_services(v@.skip(i as int)) == (match sp_services_items(
                v@.skip(cur as int),
                fuel as nat,
            ) {
                Some((l, rest)) => Some::<(Seq<ServiceView>, Seq<char>)>(
                    (services_view(out@) + l, rest),
                ),
                None => None::<(Seq<ServiceView>, Seq<char>)>,
            }),
        decreases fuel,
    {
        let (svc, j) = match parse_service_at(v, cur) {
            None => { return None; },
            Some(p) => p,
        };
        let j2 = skip_ws(v, j);
        if j2 < v.len() && v[j2] == ',' {
            if fuel == 0 {
                return None;
            }
            proof {
                assert(v@.skip(j2 as int).skip(1) =~= v@.skip(j2 + 1));
                let old_out = out@;
                assert(sp_services_items(v@.skip(cur as int), fuel as nat) == (
                match sp_services_items(v@.skip(j2 + 1), (fuel - 1) as nat) {
                    Some((l, rest)) => Some::<(Seq<ServiceView>, Seq<char>)>(
                        (seq![svc@] + l, rest),
                    ),
                    None => None::<(Seq<ServiceView>, Seq<char>)>,
                }));
                let tail = sp_services_items(v@.skip(j2 + 1), (fuel - 1) as nat);
                if tail is Some {
                    let (l, rest) = tail.unwrap();
                    assert(services_view(old_out.push(svc)) =~= services_view(old_out).push(
                        svc@,
                    ));
                    assert(services_view(old_out) + (seq![svc@] + l) =~= services_view(
                        old_out.push(svc),
                    ) + l);
                }
            }
            out.push(svc);
            fuel -= 1;
            cur = j2 + 1;
        } else if j2 < v.len() && v[j2] == ']' {
            proof {
                assert(v@.skip(j2 as int).skip(1) =~= v@.skip(j2 + 1));
                let old_out = out@;
                assert(sp_services_items(v@.skip(cur as int), fuel as nat) == Some(
                    (seq![svc@], v@.skip(j2 + 1)),
                ));
                assert(services_view(old_out) + seq![svc@] =~= services_view(old_out.push(svc)));
            }
            out.push(svc);
            proof {
                assert(sp_services(v@.skip(i as int)) == Some(
                    (services_view(out@), v@.skip(j2 + 1)),
                ));
            }
            return Some((out, j2 + 1));
        } else {
            return None;
        }
    }
}

/// Parse one control response from a complete wire line.
#[verifier::rlimit(100)]
pub fn parse_response(s: &str) -> (r: Option<Response>)
    ensures
        match r {
            Some(q) => spec_parse_response(s@) == Some(q@),
            None => spec_parse_response(s@) is None,
        },
{
    let v = string_to_chars(s);
    proof {
        assert(v@.skip(0) =~= s@);
        reveal_strlit("{");
        assert("{"@ =~= seq!['{']);
        reveal_strlit(":");
        assert(":"@ =~= seq![':']);
        reveal_strlit("}");
        assert("}"@ =~= seq!['}']);
        reveal_strlit("Ok");
        assert("Ok"@ =~= tag_ok());
        reveal_strlit("Port");
        assert("Port"@ =~= tag_port());
        reveal_strlit("Services");
        assert("Services"@ =~= tag_services());
        reveal_strlit("Error");
        assert("Error"@ =~= tag_error());
        reveal_strlit("HttpsEnabled");
        assert("HttpsEnabled"@ =~= tag_https_enabled());
        reveal_strlit("null");
        assert("null"@ =~= tok_null());
        reveal_strlit("true");
        assert("true"@ =~= tok_true());
        reveal_strlit("false");
        assert("false"@ =~= tok_false());
    }
    let i1 = match eat_tok(&v, 0, "{") {
        None => { return None; },
        Some(j) => j,
    };
    let i2 = skip_ws(&v, i1);
    let (tag, i3) = match parse_string_at(&v, i2) {
        None => { return None; },
        Some(p) => p,
    };
    let i4 = match eat_tok(&v, i3, ":") {
        None => { return None; },
        Some(j) => j,
    };
    let (resp, i5): (Response, usize) = if chars_eq(&tag, &string_to_chars("Ok")) {
        let i4b = skip_ws(&v, i4);
        let null_tok = string_to_chars("null");
        match eat_lit(&v, i4b, &null_tok) {
            Some(j) => (Response::Okay(None), j),
            None => {
                match parse_string_at(&v, i4b) {
                    None => { return None; },
                    Some((msg, j)) => (Response::Okay(Some(chars_to_string(&msg))), j),
                }
            },
        }
    } else if chars_eq(&tag, &string_to_chars("Port")) {
        let i4b = skip_ws(&v, i4);
        match parse_nat_at(&v, i4b, 65535) {
            None => { return None; },
            Some((p, j)) => (Response::Port(p as u16), j),
        }
    } else if chars_eq(&tag, &string_to_chars("Services")) {
        match parse_services_at(&v, i4) {
            None => { return None; },
            Some((list, j)) => (Response::Services(list), j),
        }
    } else if chars_eq(&tag, &string_to_chars("Error")) {
        let i4b = skip_ws(&v, i4);
        match parse_string_at(&v, i4b) {
            None => { return None; },
            Some((e, j)) => (Response::Error(chars_to_string(&e)), j),
        }
    } else if chars_eq(&tag, &string_to_chars("HttpsEnabled")) {
        let i4b = skip_ws(&v, i4);
        let true_tok = string_to_chars("true");
        match eat_lit(&v, i4b, &true_tok) {
            Some(j) => (Response::HttpsEnabled(true), j),
            None => {
                let false_tok = string_to_chars("false");
                match eat_lit(&v, i4b, &false_tok) {
                    Some(j) => (Response::HttpsEnabled(false), j),
                    None => { return None; },
                }
            },
        }
    } else {
        return None;
    };
    let i6 = match eat_tok(&v, i5, "}") {
        None => { return None; },
        Some(j) => j,
    };
    if skip_ws(&v, i6) == v.len() {
        Some(resp)
    } else {
        None
    }
}

/// Parse a persisted registry snapshot document.
#[verifier::rlimit(100)]
pub fn parse_snapshot(s: &str) -> (r: Option<Vec<Service>>)
    ensures
        match r {
            Some(list) => spec_parse_snapshot(s@) == Some(services_view(list@)),
            None => spec_parse_snapshot(s@) is None,
        },
{
    let v = string_to_chars(s);
    proof {
        assert(v@.skip(0) =~= s@);
        reveal_strlit("{");
        assert("{"@ =~= seq!['{']);
        reveal_strlit(":");
        assert(":"@ =~= seq![':']);
    }
    let i1 = match eat_tok(&v, 0, "{") {
        None => { return None; },
        Some(j) => j,
    };
    let i2 = skip_ws(&v, i1);
    if i2 < v.len() && v[i2] == '}' {
        proof {
            assert(v@.skip(i2 as int).skip(1) =~= v@.skip(i2 + 1));
            assert(services_view(Seq::<Service>::empty()) =~= Seq::<ServiceView>::empty());
        }
        let out: Vec<Service> = Vec::new();
        if skip_ws(&v, i2 + 1) == v.len() {
            return Some(out);
        } else {
            return None;
        }
    }
    let ghost s1 = v@.skip(i1 as int);
    let mut fuel: usize = v.len() - i1;
    let mut out: Vec<Service> = Vec::new();
    let mut cur = i1;
    proof {
        assert(sp_snapshot(v@.skip(0)) == sp_snapshot_items(s1, s1.len() as nat));
        let items = sp_snapshot_items(s1, s1.len() as nat);
        if items is Some {
            let (l, rest) = items.unwrap();
            assert(services_view(out@) + l =~= l);
        }
    }
    loop
        invariant
            i1 <= cur <= v.len(),
            fuel <= v.len() - i1,
            v@ == s@,
            sp_snapshot(s@) == (match sp_snapshot_items(v@.skip(cur as int), fuel as nat) {
                Some((l, rest)) => Some::<(Seq<ServiceView>, Seq<char>)>(
                    (services_view(out@) + l, rest),
                ),
                None => None::<(Seq<ServiceView>, Seq<char>)>,
            }),
        decreases fuel,
    {
        proof {
            reveal_strlit(":");
            assert(":"@ =~= seq![':']);
        }
        let k = skip_ws(&v, cur);
        let (_key, j0) = match parse_string_at(&v, k) {
            None => { return None; },
            Some(p) => p,
        };
        let j1 = match eat_tok(&v, j0, ":") {
            None => { return None; },
            Some(j) => j,
        };
        let (svc, j) = match parse_service_at(&v, j1) {
            None => { return None; },
            Some(p) => p,
        };
        let j2 = skip_ws(&v, j);
        if j2 < v.len() && v[j2] == ',' {
            if fuel == 0 {
                return None;
            }
            proof {
                assert(v@.skip(j2 as int).skip(1) =~= v@.skip(j2 + 1));
                let old_out = out@;
                assert(sp_snapshot_items(v@.skip(cur as int), fuel as nat) == (
                match sp_snapshot_items(v@.skip(j2 + 1), (fuel - 1) as nat) {
                    Some((l, rest)) => Some::<(Seq<ServiceView>, Seq<char>)>(
                        (seq![svc@] + l, rest),
                    ),
                    None => None::<(Seq<ServiceView>, Seq<char>)>,
                }));
                let tail = sp_snapshot_items(v@.skip(j2 + 1), (fuel - 1) as nat);
                if tail is Some {
                    let (l, rest) = tail.unwrap();
                    assert(services_view(old_out.push(svc)) =~= services_view(old_out).push(
                        svc@,
                    ));
                    assert(services_view(old_out) + (seq![svc@] + l) =~= services_view(
                        old_out.push(svc),
                    ) + l);
                }
            }
            out.push(svc);
            fuel -= 1;
            cur = j2 + 1;
        } else if j2 < v.len() && v[j2] == '}' {
            proof {
                assert(v@.skip(j2 as int).skip(1) =~= v@.skip(j2 + 1));
                let old_out = out@;
                assert(sp_snapshot_items(v@.skip(cur as int), fuel as nat) == Some(
                    (seq![svc@], v@.skip(j2 + 1)),
                ));
                assert(services_view(old_out) + seq![svc@] =~= services_view(old_out.push(svc)));
            }
            out.push(svc);
            proof {
                assert(sp_snapshot(s@) == Some((services_view(out@), v@.skip(j2 + 1))));
            }
            if skip_ws(&v, j2 + 1) == v.len() {
                return Some(out);
            } else {
                return None;
            }
        } else {
            return None;
        }
    }
}

} // verus!
