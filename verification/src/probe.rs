//! What a probe sends and how it reads the reply: the request for a title, the title in
//! a response, and the cache of titles already read. Opening connections is left to the
//! application.
use crate::numeral;
use crate::platform::PortBinding;
use crate::text;
use std::collections::HashMap;
use vstd::prelude::*;

verus! {

broadcast use vstd::std_specs::hash::group_hash_axioms;

/// How long a connection may take to open, in milliseconds.
pub const LIVENESS_TIMEOUT_MILLIS: u64 = 500;

/// How long one read or write of a title request may take, in seconds.
pub const TITLE_TIMEOUT_SECONDS: u64 = 2;

/// How many bytes of a response are read at most. A peer that never stops sending must
/// not be read without end.
pub const MAX_TITLE_RESPONSE_BYTES: usize = 65_536;

/// The request whose response holds the title of the page on `port`.
pub fn title_request(port: u16) -> (r: String)
    ensures
        r@ == "GET / HTTP/1.1\r\nHost: localhost:"@ + numeral::decimal(port as nat)
            + "\r\nConnection: close\r\n\r\n"@,
{
    let mut r = "GET / HTTP/1.1\r\nHost: localhost:".to_owned();
    r.append(numeral::to_decimal(port as u128).as_str());
    r.append("\r\nConnection: close\r\n\r\n");
    r
}

/// Whether a Server answers: whether one of its bindings does. A Server with a binding
/// that is filtered and another that works does answer.
pub fn any_live<F: Fn(&PortBinding) -> bool>(bindings: &Vec<PortBinding>, is_live: F) -> (r: bool)
    requires
        forall|b: &PortBinding| #[trigger] call_requires(is_live, (b,)),
    ensures
        r ==> exists|i: int|
            0 <= i < bindings@.len() && call_ensures(is_live, (&#[trigger] bindings@[i],), true),
        !r ==> forall|i: int|
            0 <= i < bindings@.len() ==> call_ensures(
                is_live,
                (&#[trigger] bindings@[i],),
                false,
            ),
{
    let mut i: usize = 0;
    while i < bindings.len()
        invariant
            0 <= i <= bindings@.len(),
            forall|b: &PortBinding| #[trigger] call_requires(is_live, (b,)),
            forall|k: int|
                0 <= k < i ==> call_ensures(is_live, (&#[trigger] bindings@[k],), false),
        decreases bindings@.len() - i,
    {
        let b = &bindings[i];
        if is_live(b) {
            proof {
                assert(call_ensures(is_live, (&bindings@[i as int],), true));
            }
            return true;
        }
        i = i + 1;
    }
    false
}

// ---------------------------------------------------------------------------------
// Reading a title.
// ---------------------------------------------------------------------------------

/// Where the text of the first title element of a response starts and ends, before
/// spaces are taken off. The tag may be in any case and may have attributes.
pub open spec fn title_span(response: Seq<char>) -> Option<(int, int)> {
    let s = text::lower_of(response);
    match text::find_from(s, "<title"@, 0) {
        Some(open) => {
            let close = text::first_where(s, text::is_char('>'), open);
            if close < s.len() {
                match text::find_from(s, "</title>"@, close + 1) {
                    Some(end) => Some((close + 1, end)),
                    None => None,
                }
            } else {
                None
            }
        },
        None => None,
    }
}

/// A title's text with the five common entities decoded, one after the other.
pub open spec fn decoded(s: Seq<char>) -> Seq<char> {
    let s = text::replaced(s, "&amp;"@, "&"@);
    let s = text::replaced(s, "&lt;"@, "<"@);
    let s = text::replaced(s, "&gt;"@, ">"@);
    let s = text::replaced(s, "&quot;"@, "\""@);
    text::replaced(s, "&#39;"@, "'"@)
}

/// The title that a response holds, where it holds one that is not blank.
pub open spec fn title_of(response: Seq<char>) -> Option<Seq<char>> {
    match title_span(response) {
        Some((from, to)) => {
            let raw = text::trim_of(response.subrange(from, to));
            if raw.len() == 0 {
                None
            } else {
                Some(decoded(raw))
            }
        },
        None => None,
    }
}

/// Decode the entities that a title is likely to hold.
pub fn decode_basic_entities(input: &str) -> (r: String)
    ensures
        r@ == decoded(input@),
{
    proof {
        reveal_strlit("&amp;");
        reveal_strlit("&lt;");
        reveal_strlit("&gt;");
        reveal_strlit("&quot;");
        reveal_strlit("&#39;");
    }
    let s = text::replace(input, "&amp;", "&");
    let s = text::replace(s.as_str(), "&lt;", "<");
    let s = text::replace(s.as_str(), "&gt;", ">");
    let s = text::replace(s.as_str(), "&quot;", "\"");
    text::replace(s.as_str(), "&#39;", "'")
}

/// Read the title out of a response. No response, however odd, makes this fail.
pub fn extract_title(response: &str) -> (r: Option<String>)
    ensures
        r.deep_view() == title_of(response@),
{
    let v = text::to_chars(response);
    let lower = text::to_lower(&v);
    let open: usize = match text::find(&lower, &text::to_chars("<title"), 0) {
        Some(i) => i,
        None => return None,
    };
    let close: usize = text::position_char(&lower, '>', open);
    if close >= lower.len() {
        return None;
    }
    let end: usize = match text::find(&lower, &text::to_chars("</title>"), close + 1) {
        Some(i) => i,
        None => return None,
    };
    let raw = text::trim(text::from_chars(&v, close + 1, end).as_str());
    if text::to_chars(raw.as_str()).len() == 0 {
        None
    } else {
        Some(decode_basic_entities(raw.as_str()))
    }
}

// ---------------------------------------------------------------------------------
// The cache.
// ---------------------------------------------------------------------------------

/// The number that stands for a process and a port.
spec fn key_of(pid: u32, port: u16) -> u64 {
    (pid * 0x1_0000 + port) as u64
}

/// The number that stands for a process and a port.
fn key(pid: u32, port: u16) -> (r: u64)
    ensures
        r == key_of(pid, port),
{
    (pid as u64) * 0x1_0000 + (port as u64)
}

/// Different processes or ports have different numbers.
proof fn lemma_key_injective(pid1: u32, port1: u16, pid2: u32, port2: u16)
    requires
        key_of(pid1, port1) == key_of(pid2, port2),
    ensures
        pid1 == pid2 && port1 == port2,
{
}

/// The titles already asked for, by process and port. An entry without a title means
/// that the Server was asked and had none: without it such a Server would be asked
/// again at every scan.
pub struct TitleCache {
    by_key: HashMap<u64, Option<String>>,
}

impl View for TitleCache {
    type V = Map<(u32, u16), Option<Seq<char>>>;

    closed spec fn view(&self) -> Map<(u32, u16), Option<Seq<char>>> {
        Map::new(
            |k: (u32, u16)| self.by_key@.contains_key(key_of(k.0, k.1)),
            |k: (u32, u16)| self.by_key@[key_of(k.0, k.1)].deep_view(),
        )
    }
}

impl TitleCache {
    /// A cache that holds nothing.
    pub fn new() -> (r: TitleCache)
        ensures
            r@ == Map::<(u32, u16), Option<Seq<char>>>::empty(),
    {
        let r = TitleCache { by_key: HashMap::new() };
        proof {
            assert(r@ =~= Map::<(u32, u16), Option<Seq<char>>>::empty());
        }
        r
    }

    /// What is remembered for a process and port: nothing, that it has no title, or its
    /// title.
    pub fn get(&self, pid: u32, port: u16) -> (r: Option<Option<String>>)
        ensures
            match r {
                Some(t) => self@.contains_key((pid, port)) && t.deep_view() == self@[(pid, port)],
                None => !self@.contains_key((pid, port)),
            },
    {
        let k: u64 = key(pid, port);
        match self.by_key.get(&k) {
            Some(t) => Some(text::copy_option(t)),
            None => None,
        }
    }

    /// Whether anything is remembered for a process and port.
    pub fn contains(&self, pid: u32, port: u16) -> (r: bool)
        ensures
            r == self@.contains_key((pid, port)),
    {
        let k: u64 = key(pid, port);
        self.by_key.contains_key(&k)
    }

    /// Remember what a process and port was found to show.
    pub fn insert(&mut self, pid: u32, port: u16, title: Option<String>)
        ensures
            final(self)@ == old(self)@.insert((pid, port), title.deep_view()),
    {
        let k: u64 = key(pid, port);
        let ghost t = title.deep_view();
        self.by_key.insert(k, title);
        proof {
            assert forall|p: u32, q: u16| key_of(p, q) == k implies p == pid && q == port by {
                lemma_key_injective(p, q, pid, port);
            }
            assert(self@ =~= old(self)@.insert((pid, port), t));
        }
    }

    /// Forget what is remembered for a process and port.
    pub fn remove(&mut self, pid: u32, port: u16)
        ensures
            final(self)@ == old(self)@.remove((pid, port)),
    {
        let k: u64 = key(pid, port);
        self.by_key.remove(&k);
        proof {
            assert forall|p: u32, q: u16| key_of(p, q) == k implies p == pid && q == port by {
                lemma_key_injective(p, q, pid, port);
            }
            assert(self@ =~= old(self)@.remove((pid, port)));
        }
    }

    /// Forget everything.
    pub fn clear(&mut self)
        ensures
            final(self)@ == Map::<(u32, u16), Option<Seq<char>>>::empty(),
    {
        self.by_key.clear();
        proof {
            assert(self@ =~= Map::<(u32, u16), Option<Seq<char>>>::empty());
        }
    }
}

} // verus!
