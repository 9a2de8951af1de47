//! What a worker makes of one candidate, and the wildcard pre-flight check.
use vstd::prelude::*;
use rand::Rng;

verus! {

#[derive(Debug)]
/// One positive lookup: the full domain, what the HTTP probe found, and the
/// addresses and CNAME records it resolved to.
pub struct ResolveResult {
    pub domain: String,
    pub title: Option<String>,
    pub code: Option<u16>,
    pub ip: Vec<String>,
    pub cname: Vec<String>,
}

/// The full domain of a candidate under the target: `candidate.target`.
pub open spec fn domain_of(candidate: Seq<char>, target: Seq<char>) -> Seq<char> {
    candidate + seq!['.'] + target
}

pub fn candidate_domain(candidate: &str, target: &str) -> (r: String)
    ensures
        r@ == domain_of(candidate@, target@),
{
    proof {
        reveal_strlit(".");
    }
    String::from_str(candidate).concat(".").concat(target)
}

/// Whether a worker probes the domain over HTTP: only when it has addresses
/// and probing is on.
pub fn should_probe(ip: &Vec<String>, fetch_title: bool) -> (r: bool)
    ensures
        r == (ip@.len() > 0 && fetch_title),
{
    ip.len() > 0 && fetch_title
}

/// The text that the first match of `<title.*?>(?P<title>.+?)</title>` in a
/// page captures as `title`, if it matches.
pub uninterp spec fn title_in(html: Seq<char>) -> Option<Seq<char>>;

pub open spec fn opt_view(s: Option<String>) -> Option<Seq<char>> {
    match s {
        Some(t) => Some(t@),
        None => None,
    }
}

/// Relies on `regex::Regex::captures`: the group `title` of the first match
/// of the title pattern in the page.
#[verifier::external_body]
fn page_title(html: &str) -> (r: Option<String>)
    ensures
        opt_view(r) == title_in(html@),
{
    let re = regex::Regex::new(r"<title.*?>(?P<title>.+?)</title>").unwrap();
    re.captures(html).map(|caps| caps.name("title").map_or("", |m| m.as_str()).to_owned())
}

/// What an HTTP probe records: for a response, its status and the page's
/// title if it has one; for a failed request, nothing.
pub fn http_outcome(response: Option<(u16, String)>) -> (r: (Option<u16>, Option<String>))
    ensures
        match response {
            Some((status, body)) => r.0 == Some(status) && opt_view(r.1) == title_in(body@),
            None => r.0 is None && r.1 is None,
        },
{
    match response {
        Some((status, body)) => (Some(status), page_title(body.as_str())),
        None => (None, None),
    }
}

/// The record of one lookup: present exactly when it found an address or a
/// CNAME record.
pub fn build_result(
    domain: String,
    cname: Vec<String>,
    ip: Vec<String>,
    code: Option<u16>,
    title: Option<String>,
) -> (r: Option<ResolveResult>)
    ensures
        r is Some <==> (cname@.len() > 0 || ip@.len() > 0),
        r matches Some(res) ==> res.domain == domain && res.cname == cname && res.ip == ip
            && res.code == code && res.title == title,
{
    if cname.len() > 0 || ip.len() > 0 {
        Some(ResolveResult { domain, title, code, ip, cname })
    } else {
        None
    }
}

pub open spec fn is_ascii_alphanumeric(c: char) -> bool {
    ('a' <= c && c <= 'z') || ('A' <= c && c <= 'Z') || ('0' <= c && c <= '9')
}

/// Relies on rand's `Alphanumeric` distribution sampled five times with the
/// thread-local generator: five ASCII letters or digits, drawn at random.
#[verifier::external_body]
fn random_label() -> (r: String)
    ensures
        r@.len() == 5,
        forall|i: int| 0 <= i < 5 ==> is_ascii_alphanumeric(#[trigger] r@[i]),
{
    rand::thread_rng().sample_iter(&rand::distributions::Alphanumeric).take(5).map(char::from).collect()
}

/// A label that is not expected to exist anywhere.
pub open spec fn absent_label() -> Seq<char> {
    "thisdomainneverexist"@
}

/// The labels that the wildcard check resolves under the target: a fixed
/// one that should not exist, then a random one of five letters or digits.
pub fn wildcard_labels() -> (r: Vec<String>)
    ensures
        r@.len() == 2,
        r@[0]@ == absent_label(),
        r@[1]@.len() == 5,
        forall|i: int| 0 <= i < 5 ==> is_ascii_alphanumeric(#[trigger] r@[1]@[i]),
{
    let mut r: Vec<String> = Vec::new();
    r.push(String::from_str("thisdomainneverexist"));
    r.push(random_label());
    r
}

/// The wildcard verdict on the addresses that each probe label resolved to
/// (empty for a failed lookup): the first non-empty list is an error, and
/// with none the target passes.
pub fn wildcard_verdict(lookups: Vec<Vec<String>>) -> (r: Result<(), Vec<String>>)
    ensures
        r is Ok <==> forall|i: int| 0 <= i < lookups@.len() ==> (#[trigger] lookups@[i])@.len() == 0,
        r matches Err(ips) ==> exists|i: int|
            0 <= i < lookups@.len() && ips == lookups@[i] && ips@.len() > 0 && forall|j: int|
                0 <= j < i ==> (#[trigger] lookups@[j])@.len() == 0,
{
    let mut i: usize = 0;
    while i < lookups.len()
        invariant
            i <= lookups@.len(),
            forall|j: int| 0 <= j < i ==> (#[trigger] lookups@[j])@.len() == 0,
        decreases lookups@.len() - i,
    {
        if lookups[i].len() > 0 {
            let mut lookups = lookups;
            return Err(lookups.remove(i));
        }
        i = i + 1;
    }
    Ok(())
}

} // verus!
