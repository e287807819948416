use tribble::report::{decode_trailer, flatten_history, interpolate, join_tags, render_report};
use tribble::session::HistoryEntry;

fn entry(location: &str, tags: &[&str]) -> HistoryEntry {
    HistoryEntry {
        location: location.to_string(),
        tags: tags.iter().map(|t| t.to_string()).collect(),
    }
}

fn form(pairs: &[(&str, &str)]) -> Vec<(String, String)> {
    pairs.iter().map(|(k, v)| (k.to_string(), v.to_string())).collect()
}

#[test]
fn interpolation_replaces_known_ids() {
    let f = form(&[("name", "Bob"), ("os", "Linux")]);
    assert_eq!(interpolate("Hi ${name} on ${os}!", &f), "Hi Bob on Linux!");
}

#[test]
fn interpolation_of_unknown_id_is_empty() {
    let f = form(&[("name", "Bob")]);
    assert_eq!(interpolate("Hi ${nope}.", &f), "Hi .");
}

#[test]
fn interpolation_is_id_boundary_aware() {
    let f = form(&[("name", "X"), ("name2", "Y")]);
    assert_eq!(interpolate("${name} ${name2} ${name}2", &f), "X Y X2");
}

#[test]
fn unterminated_placeholder_stays_literal() {
    let f = form(&[("name", "Bob")]);
    assert_eq!(interpolate("Hi ${name", &f), "Hi ${name");
}

#[test]
fn empty_template_renders_empty() {
    assert_eq!(interpolate("", &form(&[])), "");
}

#[test]
fn flatten_keeps_order_and_duplicates() {
    let h = vec![entry("a", &["t1", "t2"]), entry("b", &["t1"]), entry("c", &[])];
    let flat = flatten_history(&h);
    assert_eq!(flat, vec!["t1".to_string(), "t2".to_string(), "t1".to_string()]);
}

#[test]
fn join_with_commas() {
    let tags = vec!["a".to_string(), "b".to_string(), "c".to_string()];
    assert_eq!(join_tags(&tags), "a,b,c");
    assert_eq!(join_tags(&vec![]), "");
    assert_eq!(join_tags(&vec!["solo".to_string()]), "solo");
}

#[test]
fn rendered_report_carries_encoded_trailer() {
    let f = form(&[("name", "Bob")]);
    let h = vec![entry("start", &["a"]), entry("endpoint:end", &["b"])];
    let rendered = render_report("Report for ${name}.", &f, &h).unwrap();
    let expected = format!(
        "Report for Bob.\n\n<section>\n<details>Tribble internal data</details>\n\n{}\n\n</section>",
        base64::encode("a,b")
    );
    assert_eq!(rendered, expected);
}

#[test]
fn trailer_encoding_is_not_the_plain_text() {
    // The trailer must be carried through the binary-to-text encoding, not
    // copied verbatim.
    let h = vec![entry("start", &["a", "b"])];
    let rendered = render_report("r", &form(&[]), &h).unwrap();
    assert!(rendered.contains(&base64::encode("a,b")));
    assert_eq!(base64::encode("a,b"), "YSxi");
    assert!(!rendered.contains("\n\na,b\n\n"));
}

#[test]
fn trailer_round_trip() {
    // Encoding then decoding the trailer reproduces the comma-joined tag
    // list exactly.
    let joined = join_tags(&vec!["t1".to_string(), "t2".to_string(), "t1".to_string()]);
    assert_eq!(joined, "t1,t2,t1");
    let encoded = base64::encode(&joined);
    assert_eq!(decode_trailer(&encoded), Some("t1,t2,t1".to_string()));
}

#[test]
fn trailer_round_trip_with_unicode_tags() {
    let joined = join_tags(&vec!["grüß".to_string(), "日本".to_string()]);
    let encoded = base64::encode(&joined);
    assert_eq!(decode_trailer(&encoded), Some("grüß,日本".to_string()));
}

#[test]
fn decode_trailer_rejects_junk() {
    assert_eq!(decode_trailer("not base64 at all!"), None);
}

#[test]
fn duplicate_tags_across_sections_stay_in_trailer() {
    let h = vec![entry("a", &["same"]), entry("b", &["same"])];
    let rendered = render_report("r", &form(&[]), &h).unwrap();
    assert!(rendered.contains(&base64::encode("same,same")));
}
