//! The page fetcher's mailbox and redirect handling. One fetch is in flight
//! at a time: the desktop posts a URL, the network worker takes it, runs it
//! and leaves the result, and the desktop collects it.
use crate::browser::{starts_ci, starts_with_ci};
use crate::bytes::push_all;
use vstd::prelude::*;
use vstd::string::StringSliceAdditionalSpecFns;

verus! {

/// Longest URL the mailbox holds; longer ones are cut.
pub const URL_CAP: usize = 512;

/// The absolute URL a redirect's `Location` value names, relative to the
/// host that sent it: absolute URLs stay, `//host/...` gets `https:`, a
/// path gets `https://host`, anything else `https://host/`.
pub open spec fn redirect_spec(host: Seq<u8>, loc: Seq<u8>) -> Seq<u8> {
    if starts_ci(loc, "http://".spec_bytes()) || starts_ci(loc, "https://".spec_bytes()) {
        loc
    } else if loc.len() >= 2 && loc[0] == 0x2F && loc[1] == 0x2F {
        "https:".spec_bytes() + loc
    } else if loc.len() >= 1 && loc[0] == 0x2F {
        "https://".spec_bytes() + host + loc
    } else {
        "https://".spec_bytes() + host + seq![0x2Fu8] + loc
    }
}

pub fn resolve_redirect(host: &[u8], loc: &[u8]) -> (out: Vec<u8>)
    ensures
        out@ == redirect_spec(host@, loc@),
{
    let mut out: Vec<u8> = Vec::new();
    if starts_with_ci(loc, "http://".as_bytes()) || starts_with_ci(loc, "https://".as_bytes()) {
        push_all(&mut out, loc);
    } else if loc.len() >= 2 && loc[0] == 0x2F && loc[1] == 0x2F {
        push_all(&mut out, "https:".as_bytes());
        push_all(&mut out, loc);
    } else if loc.len() >= 1 && loc[0] == 0x2F {
        push_all(&mut out, "https://".as_bytes());
        push_all(&mut out, host);
        push_all(&mut out, loc);
    } else {
        push_all(&mut out, "https://".as_bytes());
        push_all(&mut out, host);
        out.push(0x2F);
        push_all(&mut out, loc);
    }
    assert(out@ =~= redirect_spec(host@, loc@));
    out
}

/// Where a fetch stands.
#[derive(Clone, Copy, PartialEq, Eq, Debug, Structural)]
pub enum FetchState {
    /// Nothing in flight; a URL may be posted.
    Idle,
    /// A URL waits for the worker.
    Requested,
    /// The worker is fetching.
    Running,
    /// A result waits to be collected.
    Done,
}

/// The mailbox between the desktop and the network worker.
pub struct Fetcher {
    state: FetchState,
    url: Vec<u8>,
    result: Option<Vec<u8>>,
}

/// The mailbox as values: its state, the posted URL and the waiting result
/// (`None` inside for a failed fetch).
pub struct FetchView {
    pub state: FetchState,
    pub url: Seq<u8>,
    pub result: Option<Seq<u8>>,
}

/// `s` cut to [`URL_CAP`] bytes.
pub open spec fn url_cap(s: Seq<u8>) -> Seq<u8> {
    if s.len() <= URL_CAP { s } else { s.subrange(0, URL_CAP as int) }
}

impl View for Fetcher {
    type V = FetchView;

    closed spec fn view(&self) -> FetchView {
        FetchView {
            state: self.state,
            url: self.url@,
            result: match self.result {
                Some(r) => Some(r@),
                None => None,
            },
        }
    }
}

impl Fetcher {
    pub fn new() -> (f: Self)
        ensures
            f@.state == FetchState::Idle,
            f@.url == Seq::<u8>::empty(),
            f@.result is None,
    {
        Fetcher { state: FetchState::Idle, url: Vec::new(), result: None }
    }

    /// Nothing is in flight.
    pub fn is_idle(&self) -> (b: bool)
        ensures
            b == (self@.state == FetchState::Idle),
    {
        match self.state {
            FetchState::Idle => true,
            _ => false,
        }
    }

    /// Post `url` (cut to [`URL_CAP`] bytes) when idle; `false`, changing
    /// nothing, while another fetch is in flight.
    pub fn try_post(&mut self, url: &[u8]) -> (ok: bool)
        ensures
            ok == (old(self)@.state == FetchState::Idle),
            ok ==> final(self)@.state == FetchState::Requested && final(self)@.url == url_cap(url@)
                && final(self)@.result == old(self)@.result,
            !ok ==> final(self)@ == old(self)@,
    {
        if !self.is_idle() {
            return false;
        }
        let n = if url.len() < URL_CAP { url.len() } else { URL_CAP };
        let mut v: Vec<u8> = Vec::new();
        push_all(&mut v, &url[0..n]);
        assert(v@ =~= url_cap(url@));
        self.url = v;
        self.state = FetchState::Requested;
        true
    }

    /// The worker takes a posted URL: the state moves to running. `None`,
    /// changing nothing, when no URL waits.
    pub fn begin(&mut self) -> (r: Option<Vec<u8>>)
        ensures
            old(self)@.state == FetchState::Requested ==> r is Some && r.unwrap()@ == old(self)@.url
                && final(self)@ == (FetchView { state: FetchState::Running, ..old(self)@ }),
            old(self)@.state != FetchState::Requested ==> r is None && final(self)@ == old(self)@,
    {
        match self.state {
            FetchState::Requested => {
                self.state = FetchState::Running;
                let mut v: Vec<u8> = Vec::new();
                push_all(&mut v, self.url.as_slice());
                assert(v@ =~= self.url@);
                Some(v)
            },
            _ => None,
        }
    }

    /// The worker leaves the outcome of the running fetch.
    pub fn finish(&mut self, result: Option<Vec<u8>>)
        requires
            old(self)@.state == FetchState::Running,
        ensures
            final(self)@ == (FetchView {
                state: FetchState::Done,
                result: match result {
                    Some(r) => Some(r@),
                    None => None,
                },
                ..old(self)@
            }),
    {
        self.result = result;
        self.state = FetchState::Done;
    }

    /// Collect a finished fetch: `Some` of its outcome, and the mailbox is
    /// idle again; `None`, changing nothing, while none is finished.
    pub fn take_result(&mut self) -> (r: Option<Option<Vec<u8>>>)
        ensures
            old(self)@.state == FetchState::Done ==> final(self)@.state == FetchState::Idle && final(self)@.result
                is None && final(self)@.url == old(self)@.url && r is Some && match r.unwrap() {
                Some(v) => old(self)@.result == Some(v@),
                None => old(self)@.result is None,
            },
            old(self)@.state != FetchState::Done ==> r is None && final(self)@ == old(self)@,
    {
        match self.state {
            FetchState::Done => {
                let r = self.result.take();
                self.state = FetchState::Idle;
                Some(r)
            },
            _ => None,
        }
    }
}

/// A fetch hands back what its worker left: posting a URL on an idle
/// mailbox, the worker beginning and finishing with `result`, and the
/// desktop collecting, gives `result`, the posted URL being what the worker
/// got, and leaves the mailbox idle.
pub proof fn lemma_fetch_round_trip(s0: FetchView, s1: FetchView, s2: FetchView, s3: FetchView, s4: FetchView,
    url: Seq<u8>, got: Seq<u8>, result: Option<Seq<u8>>, taken: Option<Seq<u8>>)
    requires
        s0.state == FetchState::Idle,
        s1.state == FetchState::Requested && s1.url == url_cap(url),
        s2 == (FetchView { state: FetchState::Running, ..s1 }),
        got == s1.url,
        s3 == (FetchView { state: FetchState::Done, result, ..s2 }),
        s4.state == FetchState::Idle,
        s3.state == FetchState::Done ==> taken == s3.result,
    ensures
        taken == result,
        got == url_cap(url),
        s4.state == FetchState::Idle,
{
}

/// The HTTP/1.0 request for `path` on `host`, asking the server to close
/// the connection when done.
pub open spec fn request_spec(host: Seq<u8>, path: Seq<u8>) -> Seq<u8> {
    "GET ".spec_bytes() + path + " HTTP/1.0\r\nHost: ".spec_bytes() + host
        + "\r\nConnection: close\r\n\r\n".spec_bytes()
}

pub fn http_request(host: &[u8], path: &[u8]) -> (req: Vec<u8>)
    ensures
        req@ == request_spec(host@, path@),
{
    let mut req: Vec<u8> = Vec::new();
    push_all(&mut req, "GET ".as_bytes());
    push_all(&mut req, path);
    push_all(&mut req, " HTTP/1.0\r\nHost: ".as_bytes());
    push_all(&mut req, host);
    push_all(&mut req, "\r\nConnection: close\r\n\r\n".as_bytes());
    req
}

/// The local TCP port for a connection made at timer tick `ticks`: the low
/// 14 bits of the tick count above 49152, always an ephemeral port.
pub fn local_port(ticks: u64) -> (p: u16)
    ensures
        p == 49152 + ((ticks as u16) & 0x3FFFu16),
        49152 <= p,
{
    let low = (ticks as u16) & 0x3FFFu16;
    assert(low <= 0x3FFFu16) by (bit_vector)
        requires
            low == (ticks as u16) & 0x3FFFu16,
    ;
    49152 + low
}

} // verus!
