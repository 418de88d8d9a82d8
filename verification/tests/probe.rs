//! Titles and liveness, on what came back over the wire.

use portside::platform::{AddressFamily, PortBinding, Reachability};
use portside::probe::{
    any_live, extract_title, title_request, TitleCache, LIVENESS_TIMEOUT_MILLIS, MAX_TITLE_RESPONSE_BYTES,
    TITLE_TIMEOUT_SECONDS,
};

fn binding(port: u16) -> PortBinding {
    PortBinding { port, family: AddressFamily::V4, reachability: Reachability::LocalhostOnly }
}

#[test]
fn extract_title_finds_simple_title() {
    let response = "HTTP/1.1 200 OK\r\n\r\n<html><head><title>Vite App</title></head></html>";
    assert_eq!(extract_title(response), Some("Vite App".to_string()));
}

#[test]
fn extract_title_tolerates_attributes_and_case() {
    let response = "<HTML><HEAD><TITLE data-x=\"1\">My Dev Server</TITLE></HEAD></HTML>";
    assert_eq!(extract_title(response), Some("My Dev Server".to_string()));
}

#[test]
fn extract_title_decodes_basic_entities() {
    let response = "<title>Vite &amp; React</title>";
    assert_eq!(extract_title(response), Some("Vite & React".to_string()));
}

#[test]
fn extract_title_none_when_missing() {
    assert_eq!(extract_title("<html><body>no title here</body></html>"), None);
}

#[test]
fn extract_title_none_when_empty() {
    assert_eq!(extract_title("<title></title>"), None);
}

/// Every entity that is decoded, in the order in which they are.
#[test]
fn extract_title_decodes_each_entity() {
    assert_eq!(
        extract_title("<title>&lt;a&gt; &quot;b&quot; &#39;c&#39; &amp;</title>"),
        Some("<a> \"b\" 'c' &".to_string())
    );
    // The ampersand is decoded first, so what it makes up is decoded in turn.
    assert_eq!(extract_title("<title>&amp;lt;</title>"), Some("<".to_string()));
    assert_eq!(extract_title("<title>&nbsp;</title>"), Some("&nbsp;".to_string()));
}

/// The edges of the search: no closing tag, no end of the opening one, only space.
#[test]
fn extract_title_wants_both_tags() {
    assert_eq!(extract_title("<title>Half"), None);
    assert_eq!(extract_title("<title"), None);
    assert_eq!(extract_title("</title><title>"), None);
    assert_eq!(extract_title("<title>  \n\t </title>"), None);
    assert_eq!(extract_title("<title>\n  My App \n</title>"), Some("My App".to_string()));
    assert_eq!(extract_title("<title>A</title><title>B</title>"), Some("A".to_string()));
    assert_eq!(extract_title("<title>Zoë — Ünïcode</title>"), Some("Zoë — Ünïcode".to_string()));
    assert_eq!(extract_title(""), None);
}

/// One live binding makes the server live, and none that follows it is asked.
#[test]
fn any_live_stops_at_the_first_live_binding() {
    let asked = std::cell::Cell::new(0);
    let only_second = |b: &PortBinding| {
        asked.set(asked.get() + 1);
        b.port == 2
    };
    assert!(any_live(&vec![binding(1), binding(2), binding(3)], only_second));
    assert_eq!(asked.get(), 2);
    assert!(!any_live(&vec![], |_: &PortBinding| true));
    assert!(!any_live(&vec![binding(1)], |_: &PortBinding| false));
}

#[test]
fn title_request_is_one_plain_get() {
    assert_eq!(
        title_request(4321),
        "GET / HTTP/1.1\r\nHost: localhost:4321\r\nConnection: close\r\n\r\n"
    );
    assert_eq!(LIVENESS_TIMEOUT_MILLIS, 500);
    assert_eq!(TITLE_TIMEOUT_SECONDS, 2);
    assert_eq!(MAX_TITLE_RESPONSE_BYTES, 64 * 1024);
}

/// A title that was looked for in vain is remembered as such.
#[test]
fn the_cache_tells_absent_from_untitled() {
    let mut cache = TitleCache::new();
    assert_eq!(cache.get(1, 80), None);
    cache.insert(1, 80, None);
    cache.insert(1, 81, Some("A".to_string()));
    assert_eq!(cache.get(1, 80), Some(None));
    assert_eq!(cache.get(1, 81), Some(Some("A".to_string())));
    assert!(cache.contains(1, 80));
    assert!(!cache.contains(80, 1));
    cache.remove(1, 80);
    assert_eq!(cache.get(1, 80), None);
    // A pid and a port that would run together if they were only written one after
    // the other.
    cache.insert(0x0001_0000, 0, Some("B".to_string()));
    assert_eq!(cache.get(1, 0), None);
    cache.clear();
    assert!(!cache.contains(1, 81));
}
