use api_docs::cli::{apply, ActionError, ConfigAction};
use api_docs::html::{page_html, PAGE_HEAD};
use api_docs::keys::key_less;
use api_docs::svc::{Config, DocSection, DocSectionLink, Entry};

fn entry(id: &str, title: &str, description: &str) -> Entry {
    Entry::new(id.to_string(), title.to_string(), description.to_string())
}

fn section(name: &str, title: &str, url: Option<&str>) -> DocSection {
    DocSection {
        section: name.to_string(),
        title: title.to_string(),
        link: DocSectionLink::from_url_opt(&url.map(|u| u.to_string())),
    }
}

fn ids(c: &Config) -> Vec<String> {
    c.entries.iter().map(|e| e.id.clone()).collect()
}

fn scenario_a() -> Config {
    let mut c = Config::new();
    c.add(entry("svc1", "Svc One", "d"));
    assert!(c.get("svc1").unwrap().docs.is_empty());
    c.get_mut("svc1").unwrap().add_section(section("guide", "Guide", None));
    c
}

#[test]
fn scenario_local_section() {
    let c = scenario_a();
    let e = c.get("svc1").unwrap();
    assert_eq!(e.title, "Svc One");
    assert_eq!(e.description, "d");
    assert_eq!(e.get_section("guide").unwrap().link, DocSectionLink::Local);
    let html = c.into_html();
    assert!(html.contains(r#"<a href="/guide">Guide</a>"#));
}

#[test]
fn scenario_external_section() {
    let mut c = Config::new();
    c.add(entry("svc1", "Svc One", "d"));
    c.get_mut("svc1")
        .unwrap()
        .add_section(section("guide", "Guide", Some("https://ext.example/doc")));
    let link = &c.get("svc1").unwrap().get_section("guide").unwrap().link;
    assert_eq!(
        *link,
        DocSectionLink::External { url: "https://ext.example/doc".to_string() }
    );
    let html = c.into_html();
    assert!(html.contains(
        r#"<a href="https://ext.example/doc" target="_blank" rel="noreferer noopener">Guide</a>"#
    ));
}

#[test]
fn scenario_remove_entry() {
    let mut c = scenario_a();
    c.remove("svc1");
    assert!(c.entries.is_empty());
    assert!(c.get("svc1").is_none());
}

#[test]
fn html_exact() {
    let c = scenario_a();
    assert_eq!(
        c.into_html(),
        r#"<div class="entry" id="svc1"><h2>Svc One</h2><p>d</p><div class="doc"><a href="/guide">Guide</a></div></div>"#
    );
}

#[test]
fn html_empty_config() {
    assert_eq!(Config::new().into_html(), "");
}

#[test]
fn html_escapes_user_text() {
    let mut c = Config::new();
    c.add(entry("a\"b", "<T&'>", "x>y"));
    c.get_mut("a\"b").unwrap().add_section(section("s", "t", Some("u?a=1&b=\"2\"")));
    assert_eq!(
        c.into_html(),
        [
            r#"<div class="entry" id="a&quot;b"><h2>&lt;T&amp;&#39;&gt;</h2><p>x&gt;y</p>"#,
            r#"<div class="doc"><a href="u?a=1&amp;b=&quot;2&quot;" target="_blank" rel="noreferer noopener">t</a></div></div>"#,
        ]
        .join("")
    );
}

#[test]
fn html_orders_entries_and_sections_by_key() {
    let mut c = Config::new();
    c.add(entry("b", "B", ""));
    c.add(entry("a", "A", ""));
    let e = c.get_mut("a").unwrap();
    e.add_section(section("z", "Z", None));
    e.add_section(section("m", "M", None));
    let html = c.into_html();
    let pa = html.find(r#"id="a""#).unwrap();
    let pb = html.find(r#"id="b""#).unwrap();
    let pm = html.find(r#"href="/m""#).unwrap();
    let pz = html.find(r#"href="/z""#).unwrap();
    assert!(pa < pm && pm < pz && pz < pb);
}

#[test]
fn add_twice_same_state() {
    let mut once = Config::new();
    once.add(entry("x", "X", "first"));
    let mut twice = once.clone();
    once.add(entry("svc", "T", "d"));
    twice.add(entry("svc", "T", "d"));
    twice.add(entry("svc", "T", "d"));
    assert_eq!(once, twice);
}

#[test]
fn remove_twice_is_noop_second_time() {
    let mut c = Config::new();
    c.add(entry("a", "A", ""));
    c.add(entry("b", "B", ""));
    c.remove("a");
    let after_one = c.clone();
    c.remove("a");
    assert_eq!(c, after_one);
    assert_eq!(ids(&c), vec!["b".to_string()]);
}

#[test]
fn remove_absent_is_noop() {
    let mut c = Config::new();
    c.add(entry("a", "A", ""));
    let before = c.clone();
    c.remove("zzz");
    assert_eq!(c, before);
}

#[test]
fn add_overwrites_same_id() {
    let mut c = Config::new();
    c.add(entry("a", "old", "1"));
    c.get_mut("a").unwrap().add_section(section("s", "S", None));
    c.add(entry("a", "new", "2"));
    let e = c.get("a").unwrap();
    assert_eq!(e.title, "new");
    assert!(e.docs.is_empty());
    assert_eq!(c.entries.len(), 1);
}

#[test]
fn keys_match_ids_after_mutations() {
    let mut c = Config::new();
    for id in ["m", "c", "x", "a", "c", "é", "z"] {
        c.add(entry(id, "t", "d"));
    }
    c.remove("x");
    c.remove("nope");
    assert_eq!(ids(&c), vec!["a", "c", "m", "z", "é"]);
    for e in &c.entries {
        assert_eq!(&c.get(&e.id).unwrap().id, &e.id);
    }
}

#[test]
fn section_keys_match_names_after_mutations() {
    let mut e = entry("svc", "t", "d");
    e.add_section(section("b", "B", None));
    e.add_section(section("a", "A", None));
    e.add_section(section("b", "B2", Some("https://b")));
    e.remove_section("a");
    e.remove_section("missing");
    assert_eq!(e.docs.len(), 1);
    let d = e.get_section("b").unwrap();
    assert_eq!(d.section, "b");
    assert_eq!(d.title, "B2");
    assert!(e.get_section("a").is_none());
}

#[test]
fn link_from_some_url_is_external() {
    let l = DocSectionLink::from_url_opt(&Some("https://x".to_string()));
    assert_eq!(l, DocSectionLink::External { url: "https://x".to_string() });
}

#[test]
fn link_from_none_is_local() {
    assert_eq!(DocSectionLink::from_url_opt(&None), DocSectionLink::Local);
}

#[test]
fn load_fallback_is_empty() {
    let c = Config::or_empty(None);
    assert!(c.entries.is_empty());
    let loaded = scenario_a();
    assert_eq!(Config::or_empty(Some(loaded.clone())), loaded);
}

#[test]
fn default_config_is_empty() {
    assert!(Config::default().entries.is_empty());
}

#[test]
fn rebuild_from_stored_order_is_unchanged() {
    let mut c = scenario_a();
    c.add(entry("abc", "A", "B"));
    let docs = c.get("svc1").unwrap().docs.clone();
    let rebuilt_entry = Entry::with_sections(
        "svc1".to_string(),
        "Svc One".to_string(),
        "d".to_string(),
        docs,
    );
    assert_eq!(&rebuilt_entry, c.get("svc1").unwrap());
    assert_eq!(Config::from_entries(c.entries.clone()), c);
}

#[test]
fn from_entries_last_wins() {
    let c = Config::from_entries(vec![entry("b", "1", ""), entry("a", "2", ""), entry("b", "3", "")]);
    assert_eq!(ids(&c), vec!["a", "b"]);
    assert_eq!(c.get("b").unwrap().title, "3");
}

#[test]
fn key_order_is_byte_order() {
    assert!(key_less("a", "b"));
    assert!(key_less("ab", "b"));
    assert!(key_less("", "a"));
    assert!(key_less("a", "ab"));
    assert!(!key_less("a", "a"));
    assert!(!key_less("b", "ab"));
    assert!(key_less("z", "é"));
    assert!(key_less("Z", "a"));
}

#[test]
fn apply_add_then_sections() {
    let mut c = Config::new();
    let r = apply(
        &mut c,
        ConfigAction::Add {
            id: "svc1".to_string(),
            title: "Svc One".to_string(),
            description: "d".to_string(),
        },
    );
    assert_eq!(r, Ok(true));
    let r = apply(
        &mut c,
        ConfigAction::AddSection {
            id: "svc1".to_string(),
            section: "guide".to_string(),
            title: "Guide".to_string(),
            url: None,
        },
    );
    assert_eq!(r, Ok(true));
    assert_eq!(c, scenario_a());
    let r = apply(
        &mut c,
        ConfigAction::RemoveSection { id: "svc1".to_string(), section: "guide".to_string() },
    );
    assert_eq!(r, Ok(true));
    assert!(c.get("svc1").unwrap().docs.is_empty());
    assert_eq!(apply(&mut c, ConfigAction::Remove { id: "svc1".to_string() }), Ok(true));
    assert!(c.entries.is_empty());
}

#[test]
fn apply_reads_change_nothing() {
    let mut c = scenario_a();
    let before = c.clone();
    assert_eq!(apply(&mut c, ConfigAction::List), Ok(false));
    assert_eq!(apply(&mut c, ConfigAction::Show { id: "svc1".to_string() }), Ok(false));
    assert_eq!(c, before);
}

#[test]
fn apply_unknown_id_is_not_found() {
    let mut c = scenario_a();
    let before = c.clone();
    let missing = || ActionError::NotFound { id: "nope".to_string() };
    assert_eq!(apply(&mut c, ConfigAction::Show { id: "nope".to_string() }), Err(missing()));
    assert_eq!(
        apply(
            &mut c,
            ConfigAction::AddSection {
                id: "nope".to_string(),
                section: "s".to_string(),
                title: "t".to_string(),
                url: Some("https://u".to_string()),
            },
        ),
        Err(missing())
    );
    assert_eq!(
        apply(
            &mut c,
            ConfigAction::RemoveSection { id: "nope".to_string(), section: "s".to_string() },
        ),
        Err(missing())
    );
    assert_eq!(c, before);
    assert_eq!(missing().message(), "service not found: nope");
}

#[test]
fn page_wraps_fragment_with_header_and_footer() {
    let page = page_html("API DOCS", "(c) 2023", "<div>x</div>");
    assert!(page.starts_with("<!DOCTYPE html>"));
    assert_eq!(
        page,
        format!("{}API DOCS</h1><div>x</div><footer>(c) 2023</footer></body></html>", PAGE_HEAD)
    );
    assert!(PAGE_HEAD.ends_with("<body>\n<h1>"));
}
