use pyro::settings::{add_recent_url, default_language, Settings, RECENT_URLS_MAX};

fn with_urls(urls: &[&str]) -> Settings {
    let mut s = Settings::default();
    s.recent_urls = urls.iter().map(|u| u.to_string()).collect();
    s
}

#[test]
fn default_settings() {
    let s = Settings::default();
    assert!(s.validate);
    assert!(s.notifications);
    assert_eq!(s.language, "en");
    assert!(s.recent_urls.is_empty());
    assert_eq!(default_language(), "en");
}

#[test]
fn recent_url_moves_to_front_once() {
    let mut s = with_urls(&["https://a/x.img", "https://b/y.img", "https://c/z.img"]);
    assert!(add_recent_url(&mut s, "  https://b/y.img \n"));
    assert_eq!(s.recent_urls, vec!["https://b/y.img", "https://a/x.img", "https://c/z.img"]);
}

#[test]
fn recent_urls_are_capped() {
    let mut s = Settings::default();
    for i in 0..12 {
        assert!(add_recent_url(&mut s, &format!("https://h/{i}.img")));
    }
    assert_eq!(s.recent_urls.len(), RECENT_URLS_MAX);
    assert_eq!(s.recent_urls[0], "https://h/11.img");
    assert_eq!(s.recent_urls[7], "https://h/4.img");
}

#[test]
fn blank_url_changes_nothing() {
    let mut s = with_urls(&["https://a/x.img"]);
    assert!(!add_recent_url(&mut s, " \t "));
    assert_eq!(s.recent_urls, vec!["https://a/x.img"]);
}

#[test]
fn adding_twice_is_adding_once() {
    let mut once = with_urls(&["u1", "u2", "u3"]);
    add_recent_url(&mut once, "u2");
    let mut twice = with_urls(&["u1", "u2", "u3"]);
    add_recent_url(&mut twice, "u2");
    add_recent_url(&mut twice, "u2");
    assert_eq!(once.recent_urls, twice.recent_urls);
}
