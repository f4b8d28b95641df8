use chilled_crates::address::WebUrl;
use chilled_crates::config::{
    env_flag, listen_address, normalize_log_level, parse_overrides, resolve_log_level,
    version_banner, Config, ListenAddress,
};
use chilled_crates::time::Duration;

fn config(cooldown: u64, overrides: &str) -> Config {
    Config::new(
        WebUrl::parse("https://index.crates.io/").unwrap(),
        WebUrl::parse("https://crates.io/").unwrap(),
        WebUrl::parse("http://localhost:3080/").unwrap(),
        "/var/cache/chilled-crates",
        Duration::from_secs(3600),
        Duration::from_secs(cooldown),
        parse_overrides(overrides),
        true,
    )
}

#[test]
fn log_level_normalizes() {
    // Known levels pass through, lower-cased and trimmed.
    assert_eq!(normalize_log_level(Some("debug".into())), "debug");
    assert_eq!(normalize_log_level(Some("  WARN ".into())), "warn");
    assert_eq!(normalize_log_level(Some("Off".into())), "off");
    // Unknown value and absent value both fall back to `info`.
    assert_eq!(normalize_log_level(Some("verbose".into())), "info");
    assert_eq!(normalize_log_level(Some(String::new())), "info");
    assert_eq!(normalize_log_level(None), "info");
}

#[test]
fn every_log_level_is_known() {
    for level in ["error", "warn", "info", "debug", "trace", "off"] {
        assert_eq!(normalize_log_level(Some(level.to_uppercase())), level);
    }
}

#[test]
fn verbosity_wins() {
    assert_eq!(resolve_log_level(0, Some("warn".into())), "warn");
    assert_eq!(resolve_log_level(0, None), "info");
    assert_eq!(resolve_log_level(1, Some("warn".into())), "debug");
    assert_eq!(resolve_log_level(2, Some("warn".into())), "trace");
    assert_eq!(resolve_log_level(255, None), "trace");
}

#[test]
fn helpers_overrides_parse_lowercased() {
    let set = parse_overrides("Serde, tokio ,,FOO\nbar");
    assert!(set.contains("serde"));
    assert!(set.contains("tokio"));
    assert!(set.contains("foo"));
    assert!(set.contains("bar"));
    assert_eq!(set.len(), 4);
    assert!(parse_overrides("").is_empty());
}

#[test]
fn main_overrides_parse_lowercased() {
    let set = parse_overrides("Serde, tokio ,,FOO\nbar");
    assert!(set.contains("serde"));
    assert!(set.contains("tokio"));
    assert!(set.contains("foo"));
    assert!(set.contains("bar"));
    assert_eq!(set.len(), 4);
    assert!(parse_overrides("").is_empty());
}

#[test]
fn overrides_are_trimmed() {
    let set = parse_overrides("\ta\r,\u{a0}b,a A");
    assert!(set.contains("a"));
    assert!(set.contains("b"));
    assert_eq!(set.len(), 2);
    assert!(parse_overrides(" ,\t\n").is_empty());
}

#[test]
fn env_flags() {
    for on in ["1", "true", "YES", " On "] {
        assert!(env_flag(on), "{on}");
    }
    for off in ["", "0", "false", "no", "off", "2", "yes please"] {
        assert!(!env_flag(off), "{off}");
    }
}

#[test]
fn socket_paths_win() {
    assert_eq!(
        listen_address(Some("/run/x.sock".into()), "0.0.0.0:1".into()),
        ListenAddress::UnixPath("/run/x.sock".into())
    );
    assert_eq!(
        listen_address(None, "0.0.0.0:1".into()),
        ListenAddress::SocketAddr("0.0.0.0:1".into())
    );
}

#[test]
fn version_banners() {
    assert_eq!(version_banner("1.2.3", None, None, None), "chilled-crates 1.2.3");
    assert_eq!(
        version_banner("1.2.3", Some("7"), Some("abc"), Some("main")),
        "chilled-crates 1.2.3+7.gabc.main"
    );
    // Build details are shown only if all of them are known.
    assert_eq!(
        version_banner("1.2.3", Some("7"), None, Some("main")),
        "chilled-crates 1.2.3"
    );
}

#[test]
fn cache_directories() {
    let c = config(0, "");
    assert_eq!(c.index_dir(), "/var/cache/chilled-crates/index");
    assert_eq!(c.crates_dir(), "/var/cache/chilled-crates/crates");
    assert_eq!(c.cache_ttl(), Duration::from_secs(3600));
    assert_eq!(c.cooldown(), Duration::from_secs(0));
    assert!(c.restrict_downloads());
    assert_eq!(c.override_count(), 0);
    let url = || WebUrl::parse("http://x/").unwrap();
    let ttl = Duration::from_secs(1);
    let root = Config::new(url(), url(), url(), "/", ttl, ttl, parse_overrides(""), false);
    assert_eq!(root.index_dir(), "/index");
    let here = Config::new(url(), url(), url(), "", ttl, ttl, parse_overrides(""), false);
    assert_eq!(here.crates_dir(), "crates");
    assert!(!here.restrict_downloads());
}

#[test]
fn urls_are_normalized() {
    let url = WebUrl::parse("HTTP://Example.COM:80/a/../b").unwrap();
    assert_eq!(url.as_str(), "http://example.com/b");
    assert_eq!(WebUrl::parse("not a url"), None);
    assert_eq!(url.clone(), url);
    let base = WebUrl::parse("https://index.crates.io/").unwrap();
    assert_eq!(
        base.join("se/rd/serde").unwrap().as_str(),
        "https://index.crates.io/se/rd/serde"
    );
    assert_eq!(
        base.join("/api/v1/crates/").unwrap().as_str(),
        "https://index.crates.io/api/v1/crates/"
    );
    let mail = WebUrl::parse("mailto:someone@example.com").unwrap();
    assert_eq!(mail.join("/api/v1/crates/"), None);
}

#[test]
fn cutoffs() {
    let c = config(100, "My-App");
    assert_eq!(c.cutoff_at("serde", Some(1000)), Some(900));
    assert_eq!(c.cutoff_at("serde", Some(50)), Some(0));
    // A clock before 1970 gives no cutoff.
    assert_eq!(c.cutoff_at("serde", None), None);
    // Overrides are exempt, in any letter case; `-` and `_` are not the same.
    assert_eq!(c.cutoff_at("my-app", Some(1000)), None);
    assert_eq!(c.cutoff_at("MY-APP", Some(1000)), None);
    assert_eq!(c.cutoff_at("my_app", Some(1000)), Some(900));
    assert_eq!(c.cutoff_for("my-app"), None);
    assert_eq!(c.window(Some(900)), Some(100));
    assert_eq!(c.window(None), None);
    // No window, no cutoff.
    assert_eq!(config(0, "").cutoff_at("serde", Some(1000)), None);
    assert_eq!(config(0, "").cutoff_for("serde"), None);
}

#[test]
fn cutoff_follows_the_clock() {
    let now = std::time::SystemTime::now()
        .duration_since(std::time::UNIX_EPOCH)
        .unwrap()
        .as_secs();
    let cutoff = config(100, "").cutoff_for("serde").unwrap();
    assert!(cutoff + 100 >= now);
    assert!(cutoff + 100 <= now + 60);
}
