use tmux_bridge::layout::equalization_targets;
use tmux_bridge::refs::pane_id_line;
use tmux_bridge::scan::extract_surface_ref;
use tmux_bridge::text::replace_str;
use tmux_bridge::refs::{
    extract_workspace_ref, parse_percentage, parse_surface_from_response, strip_pane_prefix,
};

#[test]
fn test_parse_surface_from_response() {
    assert_eq!(
        parse_surface_from_response("OK surface:11 workspace:2"),
        Some("surface:11".to_string())
    );
    assert_eq!(
        parse_surface_from_response("surface:99"),
        Some("surface:99".to_string())
    );
    assert_eq!(parse_surface_from_response("OK"), None);
    assert_eq!(parse_surface_from_response(""), None);
}

#[test]
fn test_extract_workspace_ref() {
    assert_eq!(
        extract_workspace_ref("window:1:workspace:2"),
        Some("workspace:2".to_string())
    );
    assert_eq!(
        extract_workspace_ref("workspace:5"),
        Some("workspace:5".to_string())
    );
    assert_eq!(extract_workspace_ref("window:1"), None);
    assert_eq!(extract_workspace_ref(""), None);
}

#[test]
fn test_strip_pane_prefix() {
    assert_eq!(strip_pane_prefix("%surface:5"), "surface:5");
    assert_eq!(strip_pane_prefix("surface:5"), "surface:5");
    assert_eq!(strip_pane_prefix("%"), "");
    assert_eq!(strip_pane_prefix(""), "");
}

#[test]
fn test_parse_percentage() {
    assert_eq!(parse_percentage("30%"), Some(30));
    assert_eq!(parse_percentage("50"), None);
    assert_eq!(parse_percentage("70%"), Some(70));
    assert_eq!(parse_percentage(""), None);
    assert_eq!(parse_percentage("%"), None);
}

fn targets_as_fractions(n: usize) -> Vec<f64> {
    equalization_targets(n)
        .iter()
        .map(|&(num, den)| num as f64 / den as f64)
        .collect()
}

#[test]
fn test_equalization_targets() {
    let n = 3;
    let targets: Vec<f64> = targets_as_fractions(n);
    assert_eq!(targets.len(), 1);
    assert!((targets[0] - 2.0 / 3.0).abs() < 1e-9);

    let n = 4;
    let targets: Vec<f64> = targets_as_fractions(n);
    assert_eq!(targets.len(), 2);
    assert!((targets[0] - 2.0 / 3.0).abs() < 1e-9);
    assert!((targets[1] - 0.75).abs() < 1e-9);
}

#[test]
fn pane_ids_round_trip() {
    let id = pane_id_line("surface:8");
    assert_eq!(id, "%surface:8");
    assert_eq!(strip_pane_prefix(&id), "surface:8");
    assert_eq!(strip_pane_prefix("%%x"), "%x");
}

#[test]
fn surface_and_workspace_refs_read_back() {
    let s = parse_surface_from_response("ok\tsurface:5\u{3000}surface:6").unwrap();
    assert_eq!(s, "surface:5");
    assert_eq!(parse_surface_from_response(&s), Some(s.clone()));
    assert_eq!(parse_surface_from_response("xsurface:1 surface:"), Some("surface:".to_string()));
    let w = extract_workspace_ref("a:workspace:b:c").unwrap();
    assert_eq!(w, "workspace:b");
    assert_eq!(extract_workspace_ref(&w), Some(w.clone()));
    assert_eq!(extract_workspace_ref("workspace:"), Some("workspace:".to_string()));
    assert_eq!(extract_workspace_ref("workspace"), None);
}

#[test]
fn percentages_follow_integer_parsing() {
    assert_eq!(parse_percentage("+5%"), Some(5));
    assert_eq!(parse_percentage("-5%"), None);
    assert_eq!(parse_percentage("4294967295%"), Some(4294967295));
    assert_eq!(parse_percentage("4294967296%"), None);
    assert_eq!(parse_percentage("007%"), Some(7));
    assert_eq!(parse_percentage("5 %"), None);
}

#[test]
fn surface_refs_in_lines() {
    assert_eq!(extract_surface_ref("pane surface:12, next"), Some("surface:12"));
    assert_eq!(extract_surface_ref("{surface:3}"), Some("surface:3"));
    assert_eq!(extract_surface_ref("surface:"), None);
    assert_eq!(extract_surface_ref("nothing"), None);
}

#[test]
fn replacing_text() {
    assert_eq!(replace_str("a-b-c", "-", "+"), "a+b+c");
    assert_eq!(replace_str("aaa", "aa", "b"), "ba");
    assert_eq!(replace_str("none", "x", "y"), "none");
}

#[test]
fn percentages_read_back_for_every_width() {
    for n in [0u32, 7, 30, 100, 150, 65536, u32::MAX] {
        assert_eq!(parse_percentage(&format!("{}%", n)), Some(n));
        assert_eq!(parse_percentage(&n.to_string()), None);
    }
    assert_eq!(parse_percentage("150%"), Some(150));
    assert_eq!(parse_percentage("-5%"), None);
    assert_eq!(parse_percentage("4294967296%"), None);
}
