//! Which titles are remembered, which are asked for again.
//!
//! A title is remembered for as long as its Server answers. One that stopped answering
//! may be another when it answers again, so its title is forgotten.
use crate::domain::model::Health;
use crate::platform::PortBinding;
use crate::probe::TitleCache;
use vstd::prelude::*;

verus! {

/// Titles by process and first port.
pub type Titles = Map<(u32, u16), Option<Seq<char>>>;

/// What is to be done about a Server's title.
#[verifier::ext_equal]
pub struct TitleLookup {
    /// What is remembered afterwards.
    pub titles: Titles,
    /// The title to show for now.
    pub title: Option<Seq<char>>,
    /// Whether the Server has to be asked.
    pub needs_fetch: bool,
}

/// What is to be done about the title of a process with these ports and this health.
///
/// A Server that does not answer has no title, and what was remembered of it is
/// forgotten. One that answers is asked only where nothing is remembered, not even that
/// it has no title.
pub open spec fn lookup(titles: Titles, pid: u32, ports: Seq<PortBinding>, health: Health) -> TitleLookup {
    if ports.len() == 0 {
        TitleLookup { titles, title: None, needs_fetch: false }
    } else {
        let key = (pid, ports[0].port);
        if health != Health::Responding {
            TitleLookup { titles: titles.remove(key), title: None, needs_fetch: false }
        } else if titles.contains_key(key) {
            TitleLookup { titles, title: titles[key], needs_fetch: false }
        } else {
            TitleLookup { titles, title: None, needs_fetch: true }
        }
    }
}

/// Decide about a Server's title without asking the Server.
pub fn title_cache_lookup(
    pid: u32,
    ports: &Vec<PortBinding>,
    health: Health,
    cache: &mut TitleCache,
) -> (r: (Option<String>, bool))
    ensures
        lookup(old(cache)@, pid, ports@, health) == (TitleLookup {
            titles: final(cache)@,
            title: r.0.deep_view(),
            needs_fetch: r.1,
        }),
        r.1 ==> ports@.len() > 0,
{
    if ports.len() == 0 {
        return (None, false);
    }
    let first: u16 = ports[0].port;
    if health != Health::Responding {
        cache.remove(pid, first);
        return (None, false);
    }
    match cache.get(pid, first) {
        Some(title) => (title, false),
        None => (None, true),
    }
}

/// Whether what a Server was found to show came from asking it through `fetch`.
pub open spec fn came_from<F: Fn(&PortBinding) -> Option<String>>(
    fetch: F,
    binding: PortBinding,
    found: Option<Seq<char>>,
) -> bool {
    exists|t: Option<String>| #[trigger]
        call_ensures(fetch, (&binding,), t) && t.deep_view() == found
}

/// A Server's title, once it has been asked for where that was needed.
pub open spec fn answered(
    titles: Titles,
    pid: u32,
    ports: Seq<PortBinding>,
    health: Health,
    found: Option<Seq<char>>,
) -> (Titles, Option<Seq<char>>) {
    let l = lookup(titles, pid, ports, health);
    if l.needs_fetch {
        (l.titles.insert((pid, ports[0].port), found), found)
    } else {
        (l.titles, l.title)
    }
}

/// The title of a development server, remembered or asked for.
pub fn title_for<F: Fn(&PortBinding) -> Option<String>>(
    pid: u32,
    ports: &Vec<PortBinding>,
    health: Health,
    cache: &mut TitleCache,
    fetch: &F,
) -> (r: Option<String>)
    requires
        forall|b: &PortBinding| #[trigger] call_requires(*fetch, (b,)),
    ensures
        lookup(old(cache)@, pid, ports@, health).needs_fetch ==> came_from(
            *fetch,
            ports@[0],
            r.deep_view(),
        ),
        answered(old(cache)@, pid, ports@, health, r.deep_view()) == (
            final(cache)@,
            r.deep_view(),
        ),
{
    let (title, needs_fetch) = title_cache_lookup(pid, ports, health, cache);
    if !needs_fetch {
        return title;
    }
    let found = fetch(&ports[0]);
    cache.insert(pid, ports[0].port, crate::text::copy_option(&found));
    found
}

/// Forget every title, so that every Server is asked again.
pub fn invalidate_all_titles(cache: &mut TitleCache)
    ensures
        final(cache)@ == Titles::empty(),
{
    cache.clear();
}

/// What is remembered once a process's title is forgotten.
pub open spec fn forgotten(titles: Titles, pid: u32, ports: Seq<PortBinding>) -> Titles {
    if ports.len() > 0 {
        titles.remove((pid, ports[0].port))
    } else {
        titles
    }
}

/// Forget one Server's title: another process has taken its place.
pub fn forget_title(pid: u32, ports: &Vec<PortBinding>, cache: &mut TitleCache)
    ensures
        final(cache)@ == forgotten(old(cache)@, pid, ports@),
{
    if ports.len() > 0 {
        cache.remove(pid, ports[0].port);
    }
}

// ---------------------------------------------------------------------------------
// What the cache keeps.
// ---------------------------------------------------------------------------------

/// A Server that was asked and goes on answering is not asked again, whether it had a
/// title or not.
pub proof fn lemma_asked_once(
    titles: Titles,
    pid: u32,
    ports: Seq<PortBinding>,
    found: Option<Seq<char>>,
)
    requires
        ports.len() > 0,
    ensures
        ({
            let after = answered(titles, pid, ports, Health::Responding, found);
            let again = lookup(after.0, pid, ports, Health::Responding);
            !again.needs_fetch && again.title == after.1 && again.titles == after.0
        }),
{
}

/// A Server that stops answering loses its title, and is asked again once it answers.
pub proof fn lemma_renewed_after_silence(
    titles: Titles,
    pid: u32,
    ports: Seq<PortBinding>,
    health: Health,
)
    requires
        ports.len() > 0,
        health != Health::Responding,
    ensures
        ({
            let silent = lookup(titles, pid, ports, health);
            &&& !silent.needs_fetch
            &&& silent.title is None
            &&& lookup(silent.titles, pid, ports, Health::Responding).needs_fetch
        }),
{
}

/// What is done about one Server's title leaves those of the others alone.
pub proof fn lemma_titles_are_independent(
    titles: Titles,
    pid: u32,
    ports: Seq<PortBinding>,
    health: Health,
    found: Option<Seq<char>>,
    other: (u32, u16),
)
    requires
        ports.len() > 0 ==> other != (pid, ports[0].port),
    ensures
        ({
            let after = answered(titles, pid, ports, health, found).0;
            after.contains_key(other) == titles.contains_key(other) && (titles.contains_key(other)
                ==> after[other] == titles[other])
        }),
{
}

} // verus!
