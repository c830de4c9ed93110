use agm_core::nxm::{is_supported_scheme, nxm_link, parse_nxm_url, parse_u64, NxmLink, UrlMessage};

fn segs(v: &[&str]) -> Vec<String> {
    v.iter().map(|s| s.to_string()).collect()
}

#[test]
fn decimal_numbers() {
    assert_eq!(parse_u64("0"), Some(0));
    assert_eq!(parse_u64("1234"), Some(1234));
    assert_eq!(parse_u64("+7"), Some(7));
    assert_eq!(parse_u64("18446744073709551615"), Some(u64::MAX));
    assert_eq!(parse_u64("18446744073709551616"), None);
    assert_eq!(parse_u64("99999999999999999999"), None);
    assert_eq!(parse_u64(""), None);
    assert_eq!(parse_u64("+"), None);
    assert_eq!(parse_u64("-1"), None);
    assert_eq!(parse_u64("12a"), None);
    for s in ["0", "42", "+42", "18446744073709551615", "18446744073709551616", "", "+", "x1"] {
        assert_eq!(parse_u64(s), s.parse::<u64>().ok(), "{}", s);
    }
}

#[test]
fn supported_schemes() {
    assert!(is_supported_scheme("nxm"));
    assert!(is_supported_scheme("nexusmods"));
    assert!(!is_supported_scheme("http"));
    assert!(!is_supported_scheme(""));
}

#[test]
fn links_to_mod_files() {
    let link = nxm_link("nxm", Some("skyrimspecialedition".to_string()), &segs(&["mods", "12", "files", "345"]));
    assert_eq!(
        link,
        Some(NxmLink { game: "skyrimspecialedition".to_string(), mod_id: 12, file_id: 345 })
    );
    assert_eq!(nxm_link("nxm", None, &segs(&["mods", "1", "files", "2"])).unwrap().game, "");
    assert_eq!(nxm_link("http", None, &segs(&["mods", "1", "files", "2"])), None);
    assert_eq!(nxm_link("nxm", None, &segs(&["mods", "0", "files", "2"])), None);
    assert_eq!(nxm_link("nxm", None, &segs(&["mods", "x", "files", "2"])), None);
    assert_eq!(nxm_link("nxm", None, &segs(&["mod", "1", "files", "2"])), None);
    assert_eq!(nxm_link("nxm", None, &segs(&["mods", "1", "file", "2"])), None);
    assert_eq!(nxm_link("nxm", None, &segs(&["mods", "1", "files"])), None);
}

#[test]
fn parses_nxm_urls() {
    assert_eq!(
        parse_nxm_url("nxm://fallout4/mods/100/files/200?key=abc&expires=1"),
        Some(NxmLink { game: "fallout4".to_string(), mod_id: 100, file_id: 200 })
    );
    assert_eq!(parse_nxm_url("https://fallout4/mods/100/files/200"), None);
    assert_eq!(parse_nxm_url("not a url"), None);
    assert_eq!(parse_nxm_url("nxm://fallout4/mods/100"), None);
}

#[test]
fn url_message_fields() {
    let m = UrlMessage { url: "nxm://g/mods/1/files/2".to_string(), scheme: "nxm".to_string(), timestamp: 5 };
    assert_eq!(m.scheme, "nxm");
    assert_eq!(m.timestamp, 5);
}
