use tmux_bridge::bridge::{absolute_moves, cmd_select_layout, list_panes_output, split_divider_move};
use tmux_bridge::layout::{
    apply_main_vertical_layout, equalization_targets, equalize_moves, focus_call, list_call,
    selected_surfaces, sort_by_surface_number, surface_number_of, DividerMove,
    ListPanesResponse, PaneInfo,
};

fn v(items: &[&str]) -> Vec<String> {
    items.iter().map(|s| s.to_string()).collect()
}

fn pane(r: &str, selected: Option<&str>, refs: &[&str], ids: &[&str]) -> PaneInfo {
    PaneInfo {
        pane_ref: r.to_string(),
        selected_surface_ref: selected.map(|s| s.to_string()),
        surface_refs: Some(v(refs)),
        surface_ids: if ids.is_empty() { None } else { Some(v(ids)) },
    }
}

fn describe(m: &DividerMove) -> String {
    format!(
        "{} {} {} {} {}/{}",
        m.fwd_pane, m.fwd_dir, m.bwd_pane, m.bwd_dir, m.numerator, m.denominator
    )
}

#[test]
fn test_consolidation_order() {
    let resp = ListPanesResponse {
        panes: vec![
            pane("pane:1", Some("surface:10"), &["surface:10"], &[]),
            pane("pane:2", Some("surface:20"), &["surface:20"], &[]),
            pane("pane:3", Some("surface:30"), &["surface:30"], &[]),
            pane("pane:4", Some("surface:40"), &["surface:40"], &[]),
        ],
        workspace_ref: "workspace:1".to_string(),
    };
    let surface_refs = selected_surfaces(&resp.panes, 1);
    assert_eq!(surface_refs, vec!["surface:20", "surface:30", "surface:40"]);
    assert_eq!(resp.panes[1].pane_ref, "pane:2");
}

#[test]
fn surfaces_sort_by_number_stably() {
    assert_eq!(surface_number_of(&"surface:42".to_string()), 42);
    assert_eq!(surface_number_of(&"surface:+7".to_string()), 7);
    assert_eq!(surface_number_of(&"surface:x".to_string()), 0);
    assert_eq!(surface_number_of(&"pane:3".to_string()), 0);
    assert_eq!(surface_number_of(&"surface:99999999999999999999".to_string()), 0);
    let sorted = sort_by_surface_number(&v(&["surface:30", "a", "surface:4", "b", "surface:10"]));
    assert_eq!(sorted, v(&["a", "b", "surface:4", "surface:10", "surface:30"]));
}

#[test]
fn main_vertical_plan() {
    let resp = ListPanesResponse {
        panes: vec![
            pane("pane:1", Some("surface:1"), &["surface:1"], &["U1"]),
            pane("pane:2", Some("surface:30"), &["surface:30"], &["U30"]),
            pane("pane:3", Some("surface:10"), &["surface:10"], &["U10"]),
            pane("pane:4", Some("surface:20"), &["surface:20"], &[]),
        ],
        workspace_ref: "workspace:7".to_string(),
    };
    let plan = apply_main_vertical_layout(&resp).expect("a plan");
    assert_eq!(plan.teammates, 3);
    assert_eq!(
        plan.calls,
        vec![
            v(&["move-surface", "--surface", "surface:20", "--pane", "pane:2", "--no-focus"]),
            v(&["move-surface", "--surface", "surface:30", "--pane", "pane:2", "--no-focus"]),
            v(&["select-workspace", "--workspace", "workspace:7"]),
            v(&["drag-surface-to-split", "--surface", "U30", "down"]),
        ]
    );
    let small = ListPanesResponse { panes: vec![pane("pane:1", None, &[], &[]), pane("pane:2", None, &[], &[])], workspace_ref: String::new() };
    assert!(apply_main_vertical_layout(&small).is_none());
    let missing = ListPanesResponse {
        panes: vec![
            pane("pane:1", Some("surface:1"), &[], &[]),
            pane("pane:2", None, &[], &[]),
            pane("pane:3", Some("surface:3"), &[], &[]),
        ],
        workspace_ref: String::new(),
    };
    assert!(apply_main_vertical_layout(&missing).is_none());
}

#[test]
fn later_id_wins() {
    let resp = ListPanesResponse {
        panes: vec![
            pane("pane:1", Some("surface:1"), &["surface:3"], &["OLD"]),
            pane("pane:2", Some("surface:2"), &["surface:2"], &["U2"]),
            pane("pane:3", Some("surface:3"), &["surface:3", "surface:9"], &["NEW"]),
        ],
        workspace_ref: "workspace:1".to_string(),
    };
    let plan = apply_main_vertical_layout(&resp).expect("a plan");
    assert_eq!(
        plan.calls,
        vec![
            v(&["move-surface", "--surface", "surface:3", "--pane", "pane:2", "--no-focus"]),
            v(&["select-workspace", "--workspace", "workspace:1"]),
            v(&["drag-surface-to-split", "--surface", "NEW", "down"]),
        ]
    );
}

#[test]
fn equalization_evens_heights() {
    assert_eq!(equalization_targets(5), vec![(2, 3), (3, 4), (4, 5)]);
    assert!(equalization_targets(1).is_empty());
    // With dividers at k/(k+1), the first m of n teammates keep m/n of the height.
    let n = 5u64;
    for m in 2..=n {
        let (mut num, mut den) = (1u64, 1u64);
        for (a, b) in equalization_targets(n as usize).iter().skip((m - 2) as usize) {
            num *= a;
            den *= b;
        }
        assert_eq!(num * n, den * m);
    }
    let fresh = ListPanesResponse {
        panes: vec![
            pane("pane:0", None, &[], &[]),
            pane("pane:1", None, &[], &[]),
            pane("pane:2", None, &[], &[]),
            pane("pane:3", None, &[], &[]),
            pane("pane:4", None, &[], &[]),
        ],
        workspace_ref: String::new(),
    };
    let moves: Vec<String> = equalize_moves(&fresh, 4).iter().map(describe).collect();
    assert_eq!(moves, vec!["pane:2 -D pane:3 -U 2/3", "pane:3 -D pane:4 -U 3/4"]);
    let fewer: Vec<String> = equalize_moves(&fresh, 3).iter().map(describe).collect();
    assert_eq!(fewer, vec!["pane:2 -D pane:3 -U 2/3"]);
    assert_eq!(focus_call(&fresh), Some(v(&["focus-pane", "--pane", "pane:0"])));
    let empty = ListPanesResponse { panes: vec![], workspace_ref: String::new() };
    assert_eq!(focus_call(&empty), None);
    assert!(equalize_moves(&empty, 4).is_empty());
}

#[test]
fn absolute_sizes_move_dividers() {
    let panes = vec![
        pane("pane:1", Some("surface:1"), &[], &[]),
        pane("pane:2", Some("surface:2"), &[], &[]),
        pane("pane:3", None, &[], &[]),
    ];
    let moves: Vec<String> =
        absolute_moves(&panes, &"pane:2".to_string(), &"40%".to_string(), &"25%".to_string())
            .iter()
            .map(describe)
            .collect();
    assert_eq!(moves, vec!["pane:2 -R pane:3 -L 40/100", "pane:2 -D pane:3 -U 25/100"]);
    assert!(absolute_moves(&panes, &"pane:3".to_string(), &"40%".to_string(), &String::new()).is_empty());
    assert!(absolute_moves(&panes, &"pane:1".to_string(), &"40".to_string(), &String::new()).is_empty());
    assert_eq!(
        describe(&split_divider_move(false, 30, &"pane:1".to_string(), &"pane:2".to_string())),
        "pane:1 -R pane:2 -L 70/100"
    );
    assert_eq!(
        describe(&split_divider_move(true, 100, &"pane:1".to_string(), &"pane:2".to_string())),
        "pane:1 -D pane:2 -U 0/100"
    );
    assert_eq!(list_panes_output(&panes), v(&["%surface:1", "%surface:2"]));
}

#[test]
fn select_layout_recognises_main_vertical() {
    assert!(cmd_select_layout(&v(&["-t", "x", "main-vertical"])));
    assert!(!cmd_select_layout(&v(&["tiled"])));
    assert!(!cmd_select_layout(&v(&["-t", "main-vertical"])));
    assert!(cmd_select_layout(&v(&["main-vertical", "-E"])));
}

#[test]
fn ascending_refs_stay_put() {
    let refs = v(&["x", "surface:2", "surface:2", "surface:9"]);
    assert_eq!(sort_by_surface_number(&refs), refs);
}

#[test]
fn list_calls_ask_for_json() {
    assert_eq!(list_call(false), v(&["--json", "list-panes"]));
    assert_eq!(list_call(true), v(&["--json", "--id-format", "both", "list-panes"]));
}

#[test]
fn listed_ids_read_back_as_surfaces() {
    let panes = vec![
        pane("pane:1", Some("surface:1"), &["surface:1"], &[]),
        pane("pane:2", None, &[], &[]),
        pane("pane:3", Some("surface:7"), &["surface:7"], &[]),
    ];
    let lines = list_panes_output(&panes);
    let back: Vec<String> = lines
        .iter()
        .map(|l| tmux_bridge::refs::strip_pane_prefix(l))
        .collect();
    assert_eq!(back, selected_surfaces(&panes, 0));
    assert_eq!(back, v(&["surface:1", "surface:7"]));
}
