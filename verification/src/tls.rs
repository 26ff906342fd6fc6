//! TLS material planning: where the CA and leaf files live, what
//! names the leaf certificate must carry, and what the trust-store
//! verbs do.

use vstd::prelude::*;

use crate::types::unport_dir_spec;

verus! {

/// Path of the CA private key.
pub fn ca_key_path(home: &str) -> (r: String)
    ensures
        r@ == unport_dir_spec(home@) + "/ca.key"@,
{
    let mut s = crate::types::unport_dir(home);
    s.append("/ca.key");
    s
}

/// Path of the CA certificate.
pub fn ca_cert_path(home: &str) -> (r: String)
    ensures
        r@ == unport_dir_spec(home@) + "/ca.crt"@,
{
    let mut s = crate::types::unport_dir(home);
    s.append("/ca.crt");
    s
}

/// Path of the leaf-certificate directory.
pub fn certs_dir(home: &str) -> (r: String)
    ensures
        r@ == unport_dir_spec(home@) + "/certs"@,
{
    let mut s = crate::types::unport_dir(home);
    s.append("/certs");
    s
}

/// Path of the leaf private key.
pub fn localhost_key_path(home: &str) -> (r: String)
    ensures
        r@ == unport_dir_spec(home@) + "/certs/localhost.key"@,
{
    let mut s = crate::types::unport_dir(home);
    s.append("/certs/localhost.key");
    s
}

/// Path of the leaf certificate.
pub fn localhost_cert_path(home: &str) -> (r: String)
    ensures
        r@ == unport_dir_spec(home@) + "/certs/localhost.crt"@,
{
    let mut s = crate::types::unport_dir(home);
    s.append("/certs/localhost.crt");
    s
}

/// One entry of a certificate's subject-alternative-name list.
#[derive(Debug)]
pub enum SanEntry {
    Dns(String),
    Ip(u8, u8, u8, u8),
}

/// Mathematical image of a `SanEntry`.
pub enum SanEntryView {
    Dns(Seq<char>),
    Ip(u8, u8, u8, u8),
}

impl View for SanEntry {
    type V = SanEntryView;

    open spec fn view(&self) -> SanEntryView {
        match self {
            SanEntry::Dns(d) => SanEntryView::Dns(d@),
            SanEntry::Ip(a, b, c, d) => SanEntryView::Ip(*a, *b, *c, *d),
        }
    }
}

/// The views of a SAN list.
pub open spec fn sans_view(v: Seq<SanEntry>) -> Seq<SanEntryView> {
    Seq::new(v.len(), |i: int| v[i]@)
}

/// The SAN list the leaf certificate carries for the registered
/// domains: `localhost`, the loopback address, and then each domain
/// spelled out — never a wildcard in their place.
pub open spec fn san_list_matches(l: Seq<SanEntryView>, domains: Seq<Seq<char>>) -> bool {
    &&& l.len() == domains.len() + 2
    &&& l[0] == SanEntryView::Dns("localhost"@)
    &&& l[1] == SanEntryView::Ip(127, 0, 0, 1)
    &&& forall|i: int| 0 <= i < domains.len() ==> l[i + 2] == SanEntryView::Dns(domains[i])
}

/// Build the SAN list for the given registered domains.
pub fn build_san_list(domains: &Vec<String>) -> (r: Vec<SanEntry>)
    ensures
        san_list_matches(sans_view(r@), crate::process::strings_view(domains@)),
{
    let mut out: Vec<SanEntry> = Vec::new();
    out.push(SanEntry::Dns("localhost".to_owned()));
    out.push(SanEntry::Ip(127, 0, 0, 1));
    let mut i: usize = 0;
    while i < domains.len()
        invariant
            0 <= i <= domains.len(),
            out@.len() == i + 2,
            out@[0]@ == SanEntryView::Dns("localhost"@),
            out@[1]@ == SanEntryView::Ip(127, 0, 0, 1),
            forall|k: int| 0 <= k < i ==> out@[k + 2]@ == SanEntryView::Dns(domains@[k]@),
        decreases domains.len() - i,
    {
        out.push(SanEntry::Dns(domains[i].clone()));
        i += 1;
    }
    out
}

/// The SAN list always carries `localhost` and the loopback address,
/// and every DNS name it carries beside them is one of the
/// registered domains: in particular it never relies on a
/// `*.localhost` wildcard in their stead.
pub proof fn lemma_san_list_sound(l: Seq<SanEntryView>, domains: Seq<Seq<char>>)
    requires
        san_list_matches(l, domains),
    ensures
        exists|i: int| 0 <= i < l.len() && l[i] == SanEntryView::Dns("localhost"@),
        exists|i: int| 0 <= i < l.len() && l[i] == SanEntryView::Ip(127, 0, 0, 1),
        forall|i: int|
            0 <= i < l.len() ==> match #[trigger] l[i] {
                SanEntryView::Dns(d) => d == "localhost"@ || exists|j: int|
                    0 <= j < domains.len() && domains[j] == d,
                SanEntryView::Ip(_, _, _, _) => true,
            },
{
    assert(l[0] == SanEntryView::Dns("localhost"@));
    assert(l[1] == SanEntryView::Ip(127, 0, 0, 1));
    assert forall|i: int| 0 <= i < l.len() implies match #[trigger] l[i] {
        SanEntryView::Dns(d) => d == "localhost"@ || exists|j: int|
            0 <= j < domains.len() && domains[j] == d,
        SanEntryView::Ip(_, _, _, _) => true,
    } by {
        if i >= 2 {
            assert(l[i] == SanEntryView::Dns(domains[i - 2]));
        }
    }
}

/// What the CA certificate is created with: its subject, that it is
/// a certificate authority, and the key usages that let it sign leaf
/// certificates and revocation lists.
#[derive(Debug)]
pub struct CaCertPlan {
    pub common_name: String,
    pub organization: String,
    pub is_ca: bool,
    pub key_cert_sign: bool,
    pub crl_sign: bool,
}

/// The plan for a fresh local CA.
pub fn ca_cert_plan() -> (r: CaCertPlan)
    ensures
        r.common_name@ == "unport Local CA"@,
        r.organization@ == "unport"@,
        r.is_ca,
        r.key_cert_sign,
        r.crl_sign,
{
    CaCertPlan {
        common_name: "unport Local CA".to_owned(),
        organization: "unport".to_owned(),
        is_ca: true,
        key_cert_sign: true,
        crl_sign: true,
    }
}

/// What the leaf certificate is created with: its subject and its
/// SAN list.
#[derive(Debug)]
pub struct LeafCertPlan {
    pub common_name: String,
    pub organization: String,
    pub sans: Vec<SanEntry>,
}

/// The plan for a leaf certificate covering the given domains.
pub fn leaf_cert_plan(domains: &Vec<String>) -> (r: LeafCertPlan)
    ensures
        r.common_name@ == "localhost"@,
        r.organization@ == "unport"@,
        san_list_matches(sans_view(r.sans@), crate::process::strings_view(domains@)),
{
    LeafCertPlan {
        common_name: "localhost".to_owned(),
        organization: "unport".to_owned(),
        sans: build_san_list(domains),
    }
}

/// True exactly when certificate material must be generated: one of
/// its two files is missing.
pub fn ensure_cert(key_exists: bool, cert_exists: bool) -> (r: bool)
    ensures
        r == !(key_exists && cert_exists),
{
    !(key_exists && cert_exists)
}

/// A trust-store verb.
#[derive(Debug)]
pub enum TrustAction {
    Install,
    Remove,
}

/// Errors of the TLS verbs.
#[derive(Debug)]
pub enum TlsError {
    /// The CA certificate is not on disk yet.
    CaMissing,
}

impl TlsError {
    /// The message shown for this error.
    pub fn message(&self) -> (r: String)
        ensures
            r@ == "CA certificate not found. Start the daemon with --https first."@,
    {
        "CA certificate not found. Start the daemon with --https first.".to_owned()
    }
}

/// Decide the trust-store verb: fails exactly when the CA
/// certificate does not exist; otherwise removes when asked to and
/// installs otherwise.
pub fn trust_ca(ca_exists: bool, remove: bool) -> (r: Result<TrustAction, TlsError>)
    ensures
        match r {
            Ok(a) => ca_exists && a == if remove {
                TrustAction::Remove
            } else {
                TrustAction::Install
            },
            Err(e) => !ca_exists && e is CaMissing,
        },
{
    if !ca_exists {
        Err(TlsError::CaMissing)
    } else if remove {
        Ok(TrustAction::Remove)
    } else {
        Ok(TrustAction::Install)
    }
}

} // verus!
