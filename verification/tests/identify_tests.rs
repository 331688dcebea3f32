use tmux_bridge::bridge::{
    pane_ref_from_identify, ref_from_identify, surface_ref, IdentifyResponse, SurfaceInfo,
};
use tmux_bridge::scan::{extract_ref, find_matching_brace, json_str};

fn info(surface: Option<&str>, window: Option<&str>, workspace: Option<&str>) -> SurfaceInfo {
    SurfaceInfo {
        surface_ref: surface.map(|s| s.to_string()),
        window_ref: window.map(|s| s.to_string()),
        workspace_ref: workspace.map(|s| s.to_string()),
        pane_ref: None,
    }
}

#[test]
fn test_identify_caller_priority() {
    let json = r#"{
            "caller": {"surface_ref": "surface:1", "window_ref": "window:10", "workspace_ref": "workspace:100"},
            "focused": {"surface_ref": "surface:2", "window_ref": "window:20", "workspace_ref": "workspace:200"}
        }"#;
    assert_eq!(extract_ref(json, "surface_ref"), "surface:1");
    assert_eq!(extract_ref(json, "window_ref"), "window:10");
    assert_eq!(extract_ref(json, "workspace_ref"), "workspace:100");

    let resp = IdentifyResponse {
        caller: Some(info(Some("surface:1"), Some("window:10"), Some("workspace:100"))),
        focused: Some(info(Some("surface:2"), Some("window:20"), Some("workspace:200"))),
    };
    assert_eq!(ref_from_identify(&resp, "surface_ref"), "surface:1");
    assert_eq!(ref_from_identify(&resp, "window_ref"), "window:10");
    assert_eq!(ref_from_identify(&resp, "workspace_ref"), "workspace:100");
}

#[test]
fn test_identify_focused_fallback() {
    let json = r#"{
            "caller": null,
            "focused": {"surface_ref": "surface:5", "window_ref": "window:50", "workspace_ref": "workspace:500"}
        }"#;
    assert_eq!(extract_ref(json, "surface_ref"), "surface:5");
    assert_eq!(extract_ref(json, "window_ref"), "window:50");
    assert_eq!(extract_ref(json, "workspace_ref"), "workspace:500");

    let resp = IdentifyResponse {
        caller: None,
        focused: Some(info(Some("surface:5"), Some("window:50"), Some("workspace:500"))),
    };
    assert_eq!(ref_from_identify(&resp, "surface_ref"), "surface:5");
    assert_eq!(ref_from_identify(&resp, "window_ref"), "window:50");
    assert_eq!(ref_from_identify(&resp, "workspace_ref"), "workspace:500");
}

#[test]
fn test_identify_missing_fields() {
    let json = r#"{"caller": {"surface_ref": null}, "focused": null}"#;
    assert_eq!(extract_ref(json, "surface_ref"), "");
    assert_eq!(extract_ref(json, "window_ref"), "");

    assert_eq!(extract_ref("{}", "surface_ref"), "");
    assert_eq!(extract_ref("", "surface_ref"), "");
    assert_eq!(extract_ref("not json", "surface_ref"), "");

    let resp = IdentifyResponse { caller: Some(info(None, None, None)), focused: None };
    assert_eq!(ref_from_identify(&resp, "surface_ref"), "");
    assert_eq!(ref_from_identify(&resp, "window_ref"), "");
    let empty = IdentifyResponse { caller: None, focused: None };
    assert_eq!(ref_from_identify(&empty, "surface_ref"), "");
}

#[test]
fn identify_caller_without_field_falls_back_to_focused() {
    let json = r#"{"caller": {"window_ref": "window:1"}, "focused": {"surface_ref": "surface:9"}}"#;
    assert_eq!(extract_ref(json, "surface_ref"), "surface:9");
    let resp = IdentifyResponse {
        caller: Some(info(None, Some("window:1"), None)),
        focused: Some(info(Some("surface:9"), None, None)),
    };
    assert_eq!(surface_ref(&resp), "surface:9");
}

#[test]
fn identify_unknown_field_is_empty() {
    let resp = IdentifyResponse {
        caller: Some(info(Some("surface:1"), None, None)),
        focused: None,
    };
    assert_eq!(ref_from_identify(&resp, "pane_ref"), "");
}

#[test]
fn identify_pane_ref_prefers_caller() {
    let mut caller = info(None, None, None);
    caller.pane_ref = Some("pane:3".to_string());
    let mut focused = info(None, None, None);
    focused.pane_ref = Some("pane:4".to_string());
    let both = IdentifyResponse { caller: Some(caller), focused: Some(focused) };
    assert_eq!(pane_ref_from_identify(&both), Some("pane:3".to_string()));
    let mut focused = info(None, None, None);
    focused.pane_ref = Some("pane:4".to_string());
    let only_focused = IdentifyResponse { caller: Some(info(None, None, None)), focused: Some(focused) };
    assert_eq!(pane_ref_from_identify(&only_focused), Some("pane:4".to_string()));
    let none = IdentifyResponse { caller: None, focused: None };
    assert_eq!(pane_ref_from_identify(&none), None);
}

#[test]
fn json_str_reads_string_values() {
    assert_eq!(json_str(r#"{"a" : "x y"}"#, "a"), Some("x y"));
    assert_eq!(json_str(r#"{"a":null}"#, "a"), None);
    assert_eq!(json_str(r#"{"a": 5}"#, "a"), None);
    assert_eq!(json_str(r#"{"a" "x"}"#, "a"), None);
    assert_eq!(json_str(r#"{"b": "x"}"#, "a"), None);
    assert_eq!(json_str(r#"{"a": "unterminated"#, "a"), None);
    assert_eq!(json_str("{\"a\":\n\t\"é\"}", "a"), Some("é"));
}

#[test]
fn matching_brace_counts_bytes() {
    assert_eq!(find_matching_brace("{}"), Some(1));
    assert_eq!(find_matching_brace("{a{b}c}d"), Some(6));
    assert_eq!(find_matching_brace("{é}"), Some(3));
    assert_eq!(find_matching_brace("{{}"), None);
    assert_eq!(find_matching_brace("}{}"), None);
    assert_eq!(find_matching_brace(""), None);
}

#[test]
fn extract_ref_uses_object_after_label() {
    let json = r#"{"caller": {"inner": {"surface_ref": "surface:7"}}, "focused": null}"#;
    assert_eq!(extract_ref(json, "surface_ref"), "surface:7");
}

#[test]
fn nested_objects_are_read_whole() {
    let json = r#"{"caller": {"a": {"b": 1}, "surface_ref": "surface:1"}, "focused": {"surface_ref": "surface:2"}}"#;
    assert_eq!(extract_ref(json, "surface_ref"), "surface:1");
    let json = r#"{"caller": {"a": {"b": 1}}, "focused": {"surface_ref": "surface:2"}}"#;
    assert_eq!(extract_ref(json, "surface_ref"), "surface:2");
}

#[test]
fn keys_are_found_where_they_stand_as_keys() {
    assert_eq!(json_str(r#"{"x": "surface_ref", "surface_ref": "s:1"}"#, "surface_ref"), Some("s:1"));
    assert_eq!(json_str(r#"{"x": "a", "a" : null, "a": "late"}"#, "a"), None);
    assert_eq!(json_str(r#"["a", "a"]"#, "a"), None);
}

#[test]
fn null_caller_falls_back_to_focused() {
    let json = r#"{"caller": null, "other": {"surface_ref": "surface:9"}, "focused": {"surface_ref": "surface:2"}}"#;
    assert_eq!(extract_ref(json, "surface_ref"), "surface:2");
    let json = r#"{"note": "caller", "caller": {"surface_ref": "surface:3"}}"#;
    assert_eq!(extract_ref(json, "surface_ref"), "surface:3");
    let json = r#"{"caller": "x", "focused": null}"#;
    assert_eq!(extract_ref(json, "surface_ref"), "");
}
