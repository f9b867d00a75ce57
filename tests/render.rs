use event_monitor::render::{placeholder, render_page, render_record};

fn rec(fields: &[(&str, &str)]) -> Vec<(String, String)> {
    fields.iter().map(|(k, v)| (k.to_string(), v.to_string())).collect()
}

#[test]
fn placeholder_wraps_key_in_braces() {
    assert_eq!(placeholder(&"id".to_string()), "{id}");
}

#[test]
fn render_replaces_every_placeholder() {
    let t = "{who} sent {amount} to {who}".to_string();
    let r = rec(&[("amount", "5"), ("who", "alice")]);
    assert_eq!(render_record(&t, &r), "alice sent 5 to alice");
}

#[test]
fn render_keeps_unknown_placeholders_and_plain_text() {
    let t = "x={x} y={y}".to_string();
    assert_eq!(render_record(&t, &rec(&[("x", "1")])), "x=1 y={y}");
    assert_eq!(render_record(&"plain".to_string(), &rec(&[("x", "1")])), "plain");
    assert_eq!(render_record(&"{x}".to_string(), &rec(&[])), "{x}");
}

#[test]
fn render_page_keeps_order() {
    let t = "id={id}".to_string();
    let page = vec![rec(&[("id", "2")]), rec(&[("id", "1")])];
    assert_eq!(render_page(&t, &page), vec!["id=2".to_string(), "id=1".to_string()]);
    assert!(render_page(&t, &vec![]).is_empty());
}
