//! Which requests are served, and by what.

use crate::text::{chars_of, is_digit, same, strip_prefix, strip_suffix, text_of};
use vstd::prelude::*;
use vstd::string::*;

verus! {

/// Whether `c` may stand in the name of a host.
pub open spec fn host_char(c: char) -> bool {
    'a' <= c <= 'z' || 'A' <= c <= 'Z' || is_digit(c) || c == '_' || c == '.' || c == '-'
}

/// The local machine, at any port.
pub open spec fn local_host(host: Seq<char>) -> bool {
    host == "localhost"@ || exists|port: Seq<char>|
        {
            &&& #[trigger] ("localhost:"@ + port) == host
            &&& port.len() > 0
            &&& forall|i: int| 0 <= i < port.len() ==> is_digit(#[trigger] port[i])
        }
}

/// A host whose name ends in that of the makers.
pub open spec fn home_host(host: Seq<char>) -> bool {
    exists|prefix: Seq<char>|
        {
            &&& #[trigger] (prefix + "nonolithlabs.com"@) == host
            &&& forall|i: int| 0 <= i < prefix.len() ==> host_char(#[trigger] prefix[i])
        }
}

/// Whether `origin` is a host of the web, by either protocol.
pub open spec fn of_host(origin: Seq<char>, host: Seq<char>) -> bool {
    origin == "http://"@ + host || origin == "https://"@ + host
}

/// Whether pages of `origin` may use the server: those without an origin, and
/// those of the local machine and of the makers.
pub open spec fn trusted(origin: Seq<char>) -> bool {
    ||| origin.len() == 0
    ||| origin == "null"@
    ||| exists|host: Seq<char>| #[trigger]
        of_host(origin, host) && (local_host(host) || home_host(host))
}

fn all_digits(s: &str) -> (r: bool)
    ensures
        r == (forall|i: int| 0 <= i < s@.len() ==> is_digit(#[trigger] s@[i])),
{
    let chars = chars_of(s);
    let mut i: usize = 0;
    while i < chars.len()
        invariant
            i <= chars.len(),
            chars@ == s@,
            forall|j: int| 0 <= j < i ==> is_digit(#[trigger] s@[j]),
        decreases chars.len() - i,
    {
        let c = chars[i];
        if !('0' <= c && c <= '9') {
            assert(!is_digit(s@[i as int]));
            return false;
        }
        i += 1;
    }
    true
}

fn all_host_chars(s: &str) -> (r: bool)
    ensures
        r == (forall|i: int| 0 <= i < s@.len() ==> host_char(#[trigger] s@[i])),
{
    let chars = chars_of(s);
    let mut i: usize = 0;
    while i < chars.len()
        invariant
            i <= chars.len(),
            chars@ == s@,
            forall|j: int| 0 <= j < i ==> host_char(#[trigger] s@[j]),
        decreases chars.len() - i,
    {
        let c = chars[i];
        if !(('a' <= c && c <= 'z') || ('A' <= c && c <= 'Z') || ('0' <= c && c <= '9') || c == '_'
            || c == '.' || c == '-') {
            assert(!host_char(s@[i as int]));
            return false;
        }
        i += 1;
    }
    true
}

fn host_trusted(host: &str) -> (r: bool)
    ensures
        r == (local_host(host@) || home_host(host@)),
{
    if same(host, "localhost") {
        return true;
    }
    match strip_prefix(host, "localhost:") {
        Some(p) => {
            if !p.as_str().is_empty() && all_digits(p.as_str()) {
                assert("localhost:"@ + p@ == host@);
                return true;
            }
            assert forall|port: Seq<char>| #[trigger] ("localhost:"@ + port) == host@ implies port
                == p@ by {
                lemma_same_rest("localhost:"@, port, p@);
            }
        },
        None => {
            assert forall|port: Seq<char>| #[trigger] ("localhost:"@ + port) == host@ implies false by {
                assert(host@.subrange(0, "localhost:"@.len() as int) =~= "localhost:"@);
            }
        },
    }
    assert(!local_host(host@));
    match strip_suffix(host, "nonolithlabs.com") {
        Some(prefix) => {
            if all_host_chars(prefix.as_str()) {
                assert(prefix@ + "nonolithlabs.com"@ == host@);
                return true;
            }
            assert forall|q: Seq<char>| #[trigger] (q + "nonolithlabs.com"@) == host@ implies q
                == prefix@ by {
                lemma_same_start(q, prefix@, "nonolithlabs.com"@);
            }
        },
        None => {
            assert forall|q: Seq<char>| #[trigger] (q + "nonolithlabs.com"@) == host@ implies false by {
                assert(host@.subrange(q.len() as int, host@.len() as int) =~= "nonolithlabs.com"@);
            }
        },
    }
    false
}

proof fn lemma_same_rest(a: Seq<char>, x: Seq<char>, y: Seq<char>)
    requires
        a + x == a + y,
    ensures
        x == y,
{
    assert((a + x).skip(a.len() as int) =~= x);
    assert((a + y).skip(a.len() as int) =~= y);
}

proof fn lemma_same_start(x: Seq<char>, y: Seq<char>, a: Seq<char>)
    requires
        x + a == y + a,
    ensures
        x == y,
{
    assert((x + a).len() == x.len() + a.len());
    assert((y + a).len() == y.len() + a.len());
    assert((x + a).take(x.len() as int) =~= x);
    assert((y + a).take(x.len() as int) =~= y);
}

/// The host of an origin decides alone.
proof fn lemma_host(origin: Seq<char>, host: Seq<char>)
    requires
        of_host(origin, host),
        origin != "null"@,
    ensures
        trusted(origin) == (local_host(host) || home_host(host)),
{
    reveal_strlit("http://");
    reveal_strlit("https://");
    assert(origin.len() > 0);
    assert forall|h: Seq<char>| #[trigger] of_host(origin, h) implies h == host by {
        assert(origin[4] == ':' || origin[4] == 's');
        if "http://"@ + h == origin {
            assert(("http://"@ + h)[4] == ':');
            if origin == "https://"@ + host {
                assert(("https://"@ + host)[4] == 's');
            }
            lemma_same_rest("http://"@, h, host);
        } else {
            assert(("https://"@ + h)[4] == 's');
            if origin == "http://"@ + host {
                assert(("http://"@ + host)[4] == ':');
            }
            lemma_same_rest("https://"@, h, host);
        }
    }
}

pub fn origin_allowed(origin: &str) -> (r: bool)
    ensures
        r == trusted(origin@),
{
    if origin.is_empty() || same(origin, "null") {
        return true;
    }
    if let Some(host) = strip_prefix(origin, "http://") {
        proof {
            lemma_host(origin@, host@);
        }
        return host_trusted(host.as_str());
    }
    if let Some(host) = strip_prefix(origin, "https://") {
        proof {
            lemma_host(origin@, host@);
        }
        return host_trusted(host.as_str());
    }
    assert forall|h: Seq<char>| #[trigger] of_host(origin@, h) implies false by {
        if "http://"@ + h == origin@ {
            assert(origin@.subrange(0, "http://"@.len() as int) =~= "http://"@);
        } else {
            assert(origin@.subrange(0, "https://"@.len() as int) =~= "https://"@);
        }
    }
    false
}

// ---- routing ----

/// Where those are sent that ask for no object.
pub const REDIR_URL: &'static str =
    "http://www.nonolithlabs.com/connect/?utm_source=connect&utm_medium=app&utm_campaign=server-redir";

/// A target without the slashes that it starts with.
pub open spec fn without_slashes(target: Seq<char>) -> Seq<char>
    decreases target.len(),
{
    if target.len() > 0 && target[0] == '/' {
        without_slashes(target.drop_first())
    } else {
        target
    }
}

/// The text before the first slash or question mark.
pub open spec fn before_mark(s: Seq<char>) -> Seq<char>
    decreases s.len(),
{
    if s.len() == 0 || s[0] == '/' || s[0] == '?' {
        Seq::empty()
    } else {
        seq![s[0]] + before_mark(s.drop_first())
    }
}

/// The first part of the path of a target that is not empty.
pub open spec fn first_segment(target: Seq<char>) -> Seq<char> {
    before_mark(without_slashes(target))
}

proof fn lemma_slashes(s: Seq<char>, i: int)
    requires
        0 <= i <= s.len(),
        forall|j: int| 0 <= j < i ==> #[trigger] s[j] == '/',
        i == s.len() || s[i] != '/',
    ensures
        without_slashes(s) == s.skip(i),
    decreases s.len(),
{
    if i > 0 {
        let t = s.drop_first();
        assert(s[0] == '/');
        assert forall|j: int| 0 <= j < i - 1 implies #[trigger] t[j] == '/' by {
            assert(t[j] == s[j + 1]);
        }
        lemma_slashes(t, i - 1);
        assert(t.skip(i - 1) =~= s.skip(i));
    } else {
        assert(s.skip(0) =~= s);
    }
}

proof fn lemma_before_mark(s: Seq<char>, i: int)
    requires
        0 <= i <= s.len(),
        forall|j: int| 0 <= j < i ==> #[trigger] s[j] != '/' && s[j] != '?',
        i == s.len() || s[i] == '/' || s[i] == '?',
    ensures
        before_mark(s) == s.take(i),
    decreases s.len(),
{
    if i > 0 {
        let t = s.drop_first();
        assert(s[0] != '/' && s[0] != '?');
        assert forall|j: int| 0 <= j < i - 1 implies #[trigger] t[j] != '/' && t[j] != '?' by {
            assert(t[j] == s[j + 1]);
        }
        lemma_before_mark(t, i - 1);
        assert(seq![s[0]] + t.take(i - 1) =~= s.take(i));
    } else {
        assert(s.take(0) =~= Seq::empty());
    }
}

fn read_first_segment(target: &str) -> (r: String)
    ensures
        r@ == first_segment(target@),
{
    let chars = chars_of(target);
    let mut i: usize = 0;
    while i < chars.len() && chars[i] == '/'
        invariant
            i <= chars.len(),
            forall|j: int| 0 <= j < i ==> #[trigger] chars@[j] == '/',
        decreases chars.len() - i,
    {
        i += 1;
    }
    proof {
        lemma_slashes(chars@, i as int);
    }
    let ghost rest = chars@.skip(i as int);
    let mut k: usize = i;
    while k < chars.len() && chars[k] != '/' && chars[k] != '?'
        invariant
            i <= k <= chars.len(),
            rest == chars@.skip(i as int),
            forall|j: int| 0 <= j < k - i ==> #[trigger] rest[j] != '/' && rest[j] != '?',
        decreases chars.len() - k,
    {
        k += 1;
    }
    proof {
        lemma_before_mark(rest, k - i);
        assert(rest.take(k - i) =~= chars@.subrange(i as int, k as int));
    }
    text_of(&chars, i, k)
}

/// Whether a client that asks for a socket at this target gets one.
pub fn wants_socket(target: &str) -> (r: bool)
    ensures
        r == (first_segment(target@) == "ws"@),
{
    same(read_first_segment(target).as_str(), "ws")
}

/// What a request over plain HTTP gets.
#[derive(Clone, Copy, Debug, PartialEq, Eq, Structural)]
pub enum Service {
    /// Its origin is not trusted.
    Refuse,
    /// The makers' pages.
    Redirect,
    /// The object that it asks for.
    Rest,
    NotFound,
}

/// What a request over plain HTTP gets. Its origin counts first.
pub open spec fn service_of(allow_any_origin: bool, origin: Seq<char>, target: Seq<char>) -> Service {
    if !allow_any_origin && !trusted(origin) {
        Service::Refuse
    } else if first_segment(target).len() == 0 {
        Service::Redirect
    } else if first_segment(target) == "rest"@ {
        Service::Rest
    } else {
        Service::NotFound
    }
}

pub fn serve(allow_any_origin: bool, origin: &str, target: &str) -> (r: Service)
    ensures
        r == service_of(allow_any_origin, origin@, target@),
{
    if !allow_any_origin && !origin_allowed(origin) {
        return Service::Refuse;
    }
    let segment = read_first_segment(target);
    if segment.as_str().is_empty() {
        Service::Redirect
    } else if same(segment.as_str(), "rest") {
        Service::Rest
    } else {
        Service::NotFound
    }
}

/// Nobody whose origin is not trusted gets anything but a refusal, unless any
/// origin is allowed.
pub proof fn law_strangers_are_refused(origin: Seq<char>, target: Seq<char>)
    ensures
        service_of(false, origin, target) == Service::Refuse <==> !trusted(origin),
{
}

} // verus!
