//! The bridge that reads cmux's JSON through typed replies and can size panes and arrange
//! layouts: the subcommands whose handling is its own. For `kill-pane`, `kill-session`,
//! `kill-window` and `capture-pane`, where a target is given twice, the first `-t` counts.

use vstd::prelude::*;
use crate::cli::{first_target, parse_target_flag, parse_target_flag_raw};
use crate::commands::{
    call_views, contains, contains_str, is_flag, is_named_key, key_call, lit, list_panes_workspace,
    parse_resize_pane, parse_send_keys, push_call, push_str, resize_call, send_key_call, spec_keys, spec_list_workspace, spec_resize_call, spec_resize_options,
    surface_args, verb_call, with_workspace, flag_like,
};
use crate::layout::{move_view, move_views, push_move, DividerMove, MoveView, PaneInfo};
use crate::refs::{parse_percentage, pane_id, pane_id_line, spec_parse_percentage, spec_strip_pane_prefix};
use crate::standalone::{close_workspace, close_workspace_call};
use crate::text::{opt_view, replace_all, replace_str, same, views};

verus! {

/// What the multiplexer reports of one surface.
pub struct SurfaceInfo {
    pub surface_ref: Option<String>,
    pub window_ref: Option<String>,
    pub workspace_ref: Option<String>,
    pub pane_ref: Option<String>,
}

/// The reply to `identify`: the caller's surface and the focused one, either possibly
/// missing. A reply that cannot be read counts as both missing.
pub struct IdentifyResponse {
    pub caller: Option<SurfaceInfo>,
    pub focused: Option<SurfaceInfo>,
}

/// The ref of a surface that `field` names (`surface_ref`, `window_ref` or
/// `workspace_ref`); none for any other field.
pub open spec fn pick_field(info: SurfaceInfo, field: Seq<char>) -> Option<Seq<char>> {
    if field == "surface_ref"@ {
        opt_view(info.surface_ref)
    } else if field == "window_ref"@ {
        opt_view(info.window_ref)
    } else if field == "workspace_ref"@ {
        opt_view(info.workspace_ref)
    } else {
        None
    }
}

pub open spec fn pick_from(info: Option<SurfaceInfo>, field: Seq<char>) -> Option<Seq<char>> {
    match info {
        Some(i) => pick_field(i, field),
        None => None,
    }
}

/// The ref named `field`: the caller's when it has one, else the focused surface's, else
/// empty.
pub open spec fn spec_ref_from_identify(resp: IdentifyResponse, field: Seq<char>) -> Seq<char> {
    match pick_from(resp.caller, field) {
        Some(v) => v,
        None => match pick_from(resp.focused, field) {
            Some(v) => v,
            None => Seq::empty(),
        },
    }
}

fn pick(info: &Option<SurfaceInfo>, field: &String) -> (r: Option<String>)
    ensures
        opt_view(r) == pick_from(*info, field@),
{
    match info {
        Some(i) => {
            if same(field, "surface_ref") {
                i.surface_ref.clone()
            } else if same(field, "window_ref") {
                i.window_ref.clone()
            } else if same(field, "workspace_ref") {
                i.workspace_ref.clone()
            } else {
                None
            }
        },
        None => None,
    }
}

/// The ref named `field` in an identify reply, the caller's first.
pub fn ref_from_identify(resp: &IdentifyResponse, field: &str) -> (r: String)
    ensures
        r@ == spec_ref_from_identify(*resp, field@),
{
    let f = lit(field);
    match pick(&resp.caller, &f) {
        Some(v) => v,
        None => match pick(&resp.focused, &f) {
            Some(v) => v,
            None => String::new(),
        },
    }
}

/// The caller's surface ref.
pub fn surface_ref(resp: &IdentifyResponse) -> (r: String)
    ensures
        r@ == spec_ref_from_identify(*resp, "surface_ref"@),
{
    ref_from_identify(resp, "surface_ref")
}

/// The caller's window ref.
pub fn window_ref(resp: &IdentifyResponse) -> (r: String)
    ensures
        r@ == spec_ref_from_identify(*resp, "window_ref"@),
{
    ref_from_identify(resp, "window_ref")
}

/// The caller's workspace ref.
pub fn workspace_ref(resp: &IdentifyResponse) -> (r: String)
    ensures
        r@ == spec_ref_from_identify(*resp, "workspace_ref"@),
{
    ref_from_identify(resp, "workspace_ref")
}

pub open spec fn pane_of(info: Option<SurfaceInfo>) -> Option<Seq<char>> {
    match info {
        Some(i) => opt_view(i.pane_ref),
        None => None,
    }
}

/// The pane of an identified surface: the caller's pane ref, else the focused one's.
pub open spec fn spec_pane_ref(resp: IdentifyResponse) -> Option<Seq<char>> {
    match pane_of(resp.caller) {
        Some(p) => Some(p),
        None => pane_of(resp.focused),
    }
}

pub fn pane_ref_from_identify(resp: &IdentifyResponse) -> (r: Option<String>)
    ensures
        opt_view(r) == spec_pane_ref(*resp),
{
    let c = match &resp.caller {
        Some(i) => i.pane_ref.clone(),
        None => None,
    };
    match c {
        Some(p) => Some(p),
        None => match &resp.focused {
            Some(i) => i.pane_ref.clone(),
            None => None,
        },
    }
}

/// The call that identifies a given surface.
pub fn identify_surface_call(surface: &str) -> (r: Vec<String>)
    ensures
        views(r@) == seq!["--json"@, "identify"@, "--surface"@, surface@],
{
    let mut c: Vec<String> = Vec::new();
    push_str(&mut c, lit("--json"));
    push_str(&mut c, lit("identify"));
    push_str(&mut c, lit("--surface"));
    push_str(&mut c, surface.to_owned());
    assert(views(c@) =~= seq!["--json"@, "identify"@, "--surface"@, surface@]);
    c
}

// ---------------------------------------------------------------------------------------
// send-keys

pub open spec fn env_before() -> Seq<char> {
    "env CLAUDECODE=1"@
}

pub open spec fn env_after() -> Seq<char> {
    "env DISABLE_INSTALLATION_CHECKS=1 CLAUDECODE=1"@
}

/// The text is a launch command that holds the marker.
pub open spec fn is_marked(key: Seq<char>, marker: Option<Seq<char>>) -> bool {
    match marker {
        Some(m) => !is_named_key(key) && contains(key, m),
        None => false,
    }
}

/// The calls for one key. Text that holds the launch marker is preceded by Ctrl+E Ctrl+U,
/// which clears the input line, and is sent with its environment prefix widened.
pub open spec fn bridge_key_calls(key: Seq<char>, target: Seq<char>, marker: Option<Seq<char>>) -> Seq<
    Seq<Seq<char>>,
> {
    if is_marked(key, marker) {
        seq![
            seq!["send"@] + surface_args(target) + seq!["\x05\x15"@],
            seq!["send"@] + surface_args(target) + seq![replace_all(key, env_before(), env_after())],
        ]
    } else {
        seq![key_call(key, target)]
    }
}

/// The calls for a list of keys, in order.
pub open spec fn bridge_calls(
    keys: Seq<Seq<char>>,
    target: Seq<char>,
    marker: Option<Seq<char>>,
) -> Seq<Seq<Seq<char>>>
    decreases keys.len(),
{
    if keys.len() == 0 {
        Seq::empty()
    } else {
        bridge_calls(keys.drop_last(), target, marker) + bridge_key_calls(
            keys.last(),
            target,
            marker,
        )
    }
}

pub open spec fn opt_str_view(o: Option<&str>) -> Option<Seq<char>> {
    match o {
        Some(s) => Some(s@),
        None => None,
    }
}

/// `send-keys`: the calls for each key, in order, to the `-t` target. A `-t` that ends
/// the line is dropped. `launch_marker` is the text that marks a launch command, if any.
pub fn cmd_send_keys(args: &Vec<String>, launch_marker: Option<&str>) -> (r: Vec<Vec<String>>)
    ensures
        ({
            let (target, keys) = spec_keys(views(args@), false);
            call_views(r@) == bridge_calls(keys, target, opt_str_view(launch_marker))
        }),
{
    let (target, keys) = parse_send_keys(args, false);
    let ghost ks = views(keys@);
    let mut calls: Vec<Vec<String>> = Vec::new();
    let mut j: usize = 0;
    assert(ks.take(0) =~= Seq::<Seq<char>>::empty());
    assert(call_views(calls@) =~= Seq::<Seq<Seq<char>>>::empty());
    while j < keys.len()
        invariant
            j <= keys@.len(),
            ks == views(keys@),
            call_views(calls@) == bridge_calls(
                ks.take(j as int),
                target@,
                opt_str_view(launch_marker),
            ),
        decreases keys.len() - j,
    {
        let key = &keys[j];
        let ghost before = call_views(calls@);
        let plain = send_key_call(key, &target);
        let has_marker = match launch_marker {
            Some(m) => contains_str(key.as_str(), m),
            None => false,
        };
        let named = same(key, "Enter") || same(key, "enter") || same(key, "Escape") || same(
            key,
            "escape",
        ) || same(key, "C-c") || same(key, "C-d") || same(key, "Space") || same(key, "Tab")
            || same(key, "BSpace");
        assert(named == is_named_key(key@));
        assert((!named && has_marker) == is_marked(key@, opt_str_view(launch_marker)));
        if !named && has_marker {
            proof {
                reveal_strlit("env CLAUDECODE=1");
            }
            push_call(&mut calls, verb_call("send", &target, "\x05\x15"));
            let patched = replace_str(
                key.as_str(),
                "env CLAUDECODE=1",
                "env DISABLE_INSTALLATION_CHECKS=1 CLAUDECODE=1",
            );
            push_call(&mut calls, verb_call("send", &target, patched.as_str()));
        } else {
            push_call(&mut calls, plain);
        }
        assert(call_views(calls@) =~= before + bridge_key_calls(
            key@,
            target@,
            opt_str_view(launch_marker),
        ));
        assert(ks.take(j + 1).drop_last() =~= ks.take(j as int));
        assert(ks.take(j + 1).last() == key@);
        j += 1;
    }
    assert(ks.take(keys@.len() as int) =~= ks);
    calls
}

// ---------------------------------------------------------------------------------------
// targets

/// `kill-pane`: closes the target surface, or the focused one without a target.
pub fn cmd_kill_pane(args: &Vec<String>) -> (r: Vec<String>)
    ensures
        views(r@) == seq!["close-surface"@] + surface_args(
            spec_strip_pane_prefix(first_target(views(args@))),
        ),
{
    let target = parse_target_flag(args);
    let mut c: Vec<String> = Vec::new();
    push_str(&mut c, lit("close-surface"));
    if target.as_str().unicode_len() > 0 {
        push_str(&mut c, lit("--surface"));
        push_str(&mut c, target);
    }
    assert(views(c@) =~= seq!["close-surface"@] + surface_args(
        spec_strip_pane_prefix(first_target(views(args@))),
    ));
    c
}

/// `kill-session`: closes the workspace its `-t` names.
pub fn cmd_kill_session(args: &Vec<String>) -> (r: Option<Vec<String>>)
    ensures
        match close_workspace(first_target(views(args@))) {
            Some(c) => r is Some && views(r->0@) == c,
            None => r is None,
        },
{
    close_workspace_call(parse_target_flag_raw(args))
}

/// `kill-window`: closes the workspace its `-t` names, as `kill-session` does.
pub fn cmd_kill_window(args: &Vec<String>) -> (r: Option<Vec<String>>)
    ensures
        match close_workspace(first_target(views(args@))) {
            Some(c) => r is Some && views(r->0@) == c,
            None => r is None,
        },
{
    close_workspace_call(parse_target_flag_raw(args))
}

/// `capture-pane`: reads the screen of the target surface, or the focused one.
pub fn cmd_capture_pane(args: &Vec<String>) -> (r: Vec<String>)
    ensures
        views(r@) == seq!["read-screen"@] + surface_args(
            spec_strip_pane_prefix(first_target(views(args@))),
        ),
{
    let target = parse_target_flag(args);
    let mut c: Vec<String> = Vec::new();
    push_str(&mut c, lit("read-screen"));
    if target.as_str().unicode_len() > 0 {
        push_str(&mut c, lit("--surface"));
        push_str(&mut c, target);
    }
    assert(views(c@) =~= seq!["read-screen"@] + surface_args(
        spec_strip_pane_prefix(first_target(views(args@))),
    ));
    c
}

// ---------------------------------------------------------------------------------------
// list-panes

/// `list-panes`: the panes of the workspace that the target names, as JSON.
pub fn cmd_list_panes(args: &Vec<String>) -> (r: Vec<String>)
    ensures
        views(r@) == with_workspace(seq!["--json"@, "list-panes"@], spec_list_workspace(views(args@))),
{
    let ws = list_panes_workspace(args);
    let mut c: Vec<String> = Vec::new();
    push_str(&mut c, lit("--json"));
    push_str(&mut c, lit("list-panes"));
    if ws.as_str().unicode_len() > 0 {
        push_str(&mut c, lit("--workspace"));
        push_str(&mut c, ws);
    }
    assert(views(c@) =~= with_workspace(
        seq!["--json"@, "list-panes"@],
        spec_list_workspace(views(args@)),
    ));
    c
}

/// The pane ids of the surfaces the panes show, in pane order.
pub open spec fn shown_ids(panes: Seq<PaneInfo>) -> Seq<Seq<char>>
    decreases panes.len(),
{
    if panes.len() == 0 {
        Seq::empty()
    } else {
        shown_ids(panes.drop_last()) + match panes.last().selected_surface_ref {
            Some(s) => seq![pane_id(s@)],
            None => Seq::empty(),
        }
    }
}

/// The lines that `list-panes` prints: the pane id of each pane's shown surface.
pub fn list_panes_output(panes: &Vec<PaneInfo>) -> (r: Vec<String>)
    ensures
        views(r@) == shown_ids(panes@),
{
    let mut out: Vec<String> = Vec::new();
    let mut i: usize = 0;
    assert(panes@.take(0) =~= Seq::<PaneInfo>::empty());
    assert(views(out@) =~= Seq::<Seq<char>>::empty());
    while i < panes.len()
        invariant
            i <= panes@.len(),
            views(out@) == shown_ids(panes@.take(i as int)),
        decreases panes.len() - i,
    {
        let ghost before = views(out@);
        match &panes[i].selected_surface_ref {
            Some(s) => {
                push_str(&mut out, pane_id_line(s.as_str()));
            },
            None => {},
        }
        assert(panes@.take(i + 1).drop_last() =~= panes@.take(i as int));
        assert(panes@.take(i + 1).last() == panes@[i as int]);
        assert(views(out@) =~= shown_ids(panes@.take(i + 1)));
        i += 1;
    }
    assert(panes@.take(panes@.len() as int) =~= panes@);
    out
}

// ---------------------------------------------------------------------------------------
// sizes

/// The divider move that gives a new split the size asked for in percent: the pane that
/// was split keeps `100 - percent` of the space.
pub open spec fn spec_split_move(down: bool, percent: nat, source: Seq<char>, new: Seq<char>) -> MoveView {
    MoveView {
        fwd_pane: source,
        fwd_dir: if down { "-D"@ } else { "-R"@ },
        bwd_pane: new,
        bwd_dir: if down { "-U"@ } else { "-L"@ },
        numerator: (100 - percent) as nat,
        denominator: 100,
    }
}

pub fn split_divider_move(down: bool, percent: u32, source: &String, new: &String) -> (r: DividerMove)
    requires
        percent <= 100,
    ensures
        move_view(r) == spec_split_move(down, percent as nat, source@, new@),
{
    DividerMove {
        fwd_pane: source.clone(),
        fwd_dir: if down { lit("-D") } else { lit("-R") },
        bwd_pane: new.clone(),
        bwd_dir: if down { lit("-U") } else { lit("-L") },
        numerator: (100 - percent) as u64,
        denominator: 100,
    }
}

/// What `resize-pane` does.
pub enum ResizePlan {
    /// `-x` or `-y` was given: move the dividers of the target's pane to the positions
    /// asked for (the caller's surface when the target is empty).
    Absolute { target: String, width: String, height: String },
    /// Otherwise: make this relative move, if any.
    Relative(Option<Vec<String>>),
}

/// `resize-pane`: absolute sizes when `-x` or `-y` is given, else a relative move.
pub fn cmd_resize_pane(args: &Vec<String>) -> (r: ResizePlan)
    ensures
        ({
            let req = spec_resize_options(views(args@));
            if req.width.len() > 0 || req.height.len() > 0 {
                r matches ResizePlan::Absolute { target, width, height } && target@ == req.target
                    && width@ == req.width && height@ == req.height
            } else {
                r matches ResizePlan::Relative(c) && match spec_resize_call(req) {
                    Some(v) => c is Some && views(c->0@) == v,
                    None => c is None,
                }
            }
        }),
{
    let o = parse_resize_pane(args);
    if o.width.as_str().unicode_len() > 0 || o.height.as_str().unicode_len() > 0 {
        ResizePlan::Absolute { target: o.target, width: o.width, height: o.height }
    } else {
        ResizePlan::Relative(resize_call(&o))
    }
}

/// The first position from `i` on whose pane ref is `r`.
pub open spec fn pane_index_from(panes: Seq<PaneInfo>, r: Seq<char>, i: int) -> Option<int>
    decreases panes.len() - i,
{
    if i < 0 || i >= panes.len() {
        None
    } else if panes[i].pane_ref@ == r {
        Some(i)
    } else {
        pane_index_from(panes, r, i + 1)
    }
}

/// The move for one absolute size: the divider after the target's pane, towards the next
/// listed pane, goes to the percentage asked for; none when the size is not a percentage
/// or the target's pane is missing or last.
pub open spec fn absolute_move(
    panes: Seq<PaneInfo>,
    target: Seq<char>,
    size: Seq<char>,
    fwd: Seq<char>,
    bwd: Seq<char>,
) -> Seq<MoveView> {
    match (spec_parse_percentage(size), pane_index_from(panes, target, 0)) {
        (Some(p), Some(i)) => if i + 1 < panes.len() {
            seq![
                MoveView {
                    fwd_pane: target,
                    fwd_dir: fwd,
                    bwd_pane: panes[i + 1].pane_ref@,
                    bwd_dir: bwd,
                    numerator: p,
                    denominator: 100,
                },
            ]
        } else {
            Seq::empty()
        },
        _ => Seq::empty(),
    }
}

/// The moves for `-x` (a divider to the right) and then `-y` (a divider below).
pub open spec fn spec_absolute_moves(
    panes: Seq<PaneInfo>,
    target: Seq<char>,
    width: Seq<char>,
    height: Seq<char>,
) -> Seq<MoveView> {
    absolute_move(panes, target, width, "-R"@, "-L"@) + absolute_move(
        panes,
        target,
        height,
        "-D"@,
        "-U"@,
    )
}

fn pane_index(panes: &Vec<PaneInfo>, r: &String) -> (res: Option<usize>)
    ensures
        crate::text::opt_int(res) == pane_index_from(panes@, r@, 0),
{
    let mut i: usize = 0;
    while i < panes.len()
        invariant
            i <= panes@.len(),
            pane_index_from(panes@, r@, 0) == pane_index_from(panes@, r@, i as int),
        decreases panes.len() - i,
    {
        if panes[i].pane_ref == *r {
            return Some(i);
        }
        i += 1;
    }
    None
}

fn absolute_move_of(
    panes: &Vec<PaneInfo>,
    target: &String,
    size: &String,
    fwd: &str,
    bwd: &str,
    out: &mut Vec<DividerMove>,
)
    ensures
        move_views(final(out)@) == move_views(old(out)@) + absolute_move(
            panes@,
            target@,
            size@,
            fwd@,
            bwd@,
        ),
{
    let pct = parse_percentage(size.as_str());
    let idx = pane_index(panes, target);
    match (pct, idx) {
        (Some(p), Some(i)) => {
            if i < panes.len() - 1 {
                let m = DividerMove {
                    fwd_pane: target.clone(),
                    fwd_dir: fwd.to_owned(),
                    bwd_pane: panes[i + 1].pane_ref.clone(),
                    bwd_dir: bwd.to_owned(),
                    numerator: p as u64,
                    denominator: 100,
                };
                push_move(out, m);
                assert(move_views(out@) =~= move_views(old(out)@) + absolute_move(
                    panes@,
                    target@,
                    size@,
                    fwd@,
                    bwd@,
                ));
            } else {
                assert(move_views(out@) =~= move_views(old(out)@) + absolute_move(
                    panes@,
                    target@,
                    size@,
                    fwd@,
                    bwd@,
                ));
            }
        },
        _ => {
            assert(move_views(out@) =~= move_views(old(out)@) + absolute_move(
                panes@,
                target@,
                size@,
                fwd@,
                bwd@,
            ));
        },
    }
}

/// The divider moves for `resize-pane -x/-y`, given the panes listed and the pane of the
/// target.
pub fn absolute_moves(panes: &Vec<PaneInfo>, target: &String, width: &String, height: &String) -> (r:
    Vec<DividerMove>)
    ensures
        move_views(r@) == spec_absolute_moves(panes@, target@, width@, height@),
{
    let mut out: Vec<DividerMove> = Vec::new();
    assert(move_views(out@) =~= Seq::<MoveView>::empty());
    absolute_move_of(panes, target, width, "-R", "-L", &mut out);
    absolute_move_of(panes, target, height, "-D", "-U", &mut out);
    assert(move_views(out@) =~= spec_absolute_moves(panes@, target@, width@, height@));
    out
}

// ---------------------------------------------------------------------------------------
// select-layout

/// Reading `select-layout` arguments from position `i`: the layout is the last word that
/// is not a flag; `-t` and its target are passed over.
pub open spec fn layout_scan(args: Seq<Seq<char>>, i: int, layout: Seq<char>) -> Seq<char>
    decreases args.len() + 1 - i,
{
    if i < 0 || i >= args.len() {
        layout
    } else if args[i] == "-t"@ {
        layout_scan(args, i + 2, layout)
    } else if !is_flag(args[i]) {
        layout_scan(args, i + 1, args[i])
    } else {
        layout_scan(args, i + 1, layout)
    }
}

/// `select-layout`: whether the layout asked for is `main-vertical`, the one the bridge
/// arranges; other layouts are left alone.
pub fn cmd_select_layout(args: &Vec<String>) -> (r: bool)
    ensures
        r == (layout_scan(views(args@), 0, Seq::empty()) == "main-vertical"@),
{
    let ghost a = views(args@);
    let mut layout = String::new();
    let mut i: usize = 0;
    while i < args.len()
        invariant
            a == views(args@),
            i <= args@.len(),
            layout_scan(a, 0, Seq::empty()) == layout_scan(a, i as int, layout@),
        decreases args.len() - i,
    {
        let ghost before = layout@;
        if same(&args[i], "-t") {
            assert(layout_scan(a, i as int, before) == layout_scan(a, i + 2, layout@));
            i = if args.len() - i >= 2 { i + 2 } else { args.len() };
        } else if !flag_like(&args[i]) {
            layout = args[i].clone();
            assert(layout_scan(a, i as int, before) == layout_scan(a, i + 1, layout@));
            i += 1;
        } else {
            assert(layout_scan(a, i as int, before) == layout_scan(a, i + 1, layout@));
            i += 1;
        }
    }
    same(&layout, "main-vertical")
}

} // verus!

verus! {

/// Without a launch marker, this bridge sends each key with the same single call as the
/// scanning bridge does.
pub proof fn law_unmarked_keys_send_alike(keys: Seq<Seq<char>>, target: Seq<char>)
    ensures
        bridge_calls(keys, target, None) == keys.map_values(|k: Seq<char>| key_call(k, target)),
    decreases keys.len(),
{
    if keys.len() > 0 {
        law_unmarked_keys_send_alike(keys.drop_last(), target);
        assert(keys.map_values(|k: Seq<char>| key_call(k, target)) =~= keys.drop_last().map_values(
            |k: Seq<char>| key_call(k, target),
        ) + seq![key_call(keys.last(), target)]);
    } else {
        assert(keys.map_values(|k: Seq<char>| key_call(k, target)) =~= Seq::<
            Seq<Seq<char>>,
        >::empty());
    }
}

/// The first target that `kill-pane` and `capture-pane` act on is the raw first target
/// with its `%` removed, and a pane id given as target names its surface.
pub proof fn law_pane_id_target(surface: Seq<char>)
    ensures
        spec_strip_pane_prefix(first_target(seq!["-t"@, pane_id(surface)])) == surface,
{
    let a = seq!["-t"@, pane_id(surface)];
    assert(crate::cli::first_target_from(a, 0) == Some(pane_id(surface)));
    crate::refs::law_pane_id_round_trip(surface);
}

/// Each pane id that `list-panes` prints, given back as a target, names the surface that
/// its pane shows, in pane order.
pub proof fn law_listed_ids_name_surfaces(panes: Seq<PaneInfo>)
    ensures
        shown_ids(panes).map_values(|id: Seq<char>| spec_strip_pane_prefix(id))
            == crate::layout::selected_refs(panes),
    decreases panes.len(),
{
    if panes.len() > 0 {
        let rest = panes.drop_last();
        law_listed_ids_name_surfaces(rest);
        match panes.last().selected_surface_ref {
            Some(s) => {
                crate::refs::law_pane_id_round_trip(s@);
                assert(shown_ids(panes) == shown_ids(rest) + seq![pane_id(s@)]);
                assert(shown_ids(panes).map_values(|id: Seq<char>| spec_strip_pane_prefix(id))
                    =~= shown_ids(rest).map_values(|id: Seq<char>| spec_strip_pane_prefix(id)).push(s@));
            },
            None => {
                assert(shown_ids(panes) =~= shown_ids(rest));
            },
        }
    } else {
        assert(shown_ids(panes).map_values(|id: Seq<char>| spec_strip_pane_prefix(id))
            =~= Seq::<Seq<char>>::empty());
    }
}

/// The arguments of `resize-pane` from position `i` with every direction flag and every
/// amount that the reading would take left out; targets, sizes and other flags stay, each
/// with the value that it reads.
pub open spec fn without_moves(args: Seq<Seq<char>>, i: int) -> Seq<Seq<char>>
    decreases args.len() + 1 - i,
{
    if i < 0 || i >= args.len() {
        Seq::empty()
    } else {
        let a = args[i];
        let has_next = i + 1 < args.len();
        if a == "-t"@ && has_next {
            seq![a, args[i + 1]] + without_moves(args, i + 2)
        } else if crate::commands::is_direction(a) {
            without_moves(args, i + 1)
        } else if a == "-x"@ || a == "-y"@ {
            if has_next {
                seq![a, args[i + 1]] + without_moves(args, i + 2)
            } else {
                seq![a]
            }
        } else if !is_flag(a) {
            without_moves(args, i + 1)
        } else {
            seq![a] + without_moves(args, i + 1)
        }
    }
}

/// Two readings agree on the target and on the absolute sizes.
pub open spec fn same_sizing(a: crate::commands::ResizeRequest, b: crate::commands::ResizeRequest) -> bool {
    a.target == b.target && a.width == b.width && a.height == b.height
}

proof fn lemma_resize_shift(
    p: Seq<Seq<char>>,
    w: Seq<Seq<char>>,
    j: int,
    st: crate::commands::ResizeRequest,
)
    requires
        0 <= j,
    ensures
        crate::commands::resize_scan(p + w, p.len() + j, st) == crate::commands::resize_scan(
            w,
            j,
            st,
        ),
    decreases w.len() + 1 - j,
{
    let a = p + w;
    if j < w.len() {
        assert(a[p.len() + j] == w[j]);
        if j + 1 < w.len() {
            assert(a[p.len() + j + 1] == w[j + 1]);
        }
        lemma_resize_shift(p, w, j + 1, st);
        lemma_resize_shift(p, w, j + 2, st);
        let x = w[j];
        let has_next = j + 1 < w.len();
        if x == "-t"@ && has_next {
            lemma_resize_shift(
                p,
                w,
                j + 2,
                crate::commands::ResizeRequest { target: spec_strip_pane_prefix(w[j + 1]), ..st },
            );
        } else if crate::commands::is_direction(x) {
            lemma_resize_shift(p, w, j + 1, crate::commands::ResizeRequest { direction: x, ..st });
        } else if x == "-x"@ && has_next {
            lemma_resize_shift(p, w, j + 2, crate::commands::ResizeRequest { width: w[j + 1], ..st });
        } else if x == "-y"@ && has_next {
            lemma_resize_shift(p, w, j + 2, crate::commands::ResizeRequest { height: w[j + 1], ..st });
        } else if !is_flag(x) {
            lemma_resize_shift(p, w, j + 1, crate::commands::ResizeRequest { amount: x, ..st });
        }
    }
}

proof fn lemma_sizes_ignore_moves(
    args: Seq<Seq<char>>,
    i: int,
    st1: crate::commands::ResizeRequest,
    st2: crate::commands::ResizeRequest,
)
    requires
        0 <= i,
        same_sizing(st1, st2),
    ensures
        same_sizing(
            crate::commands::resize_scan(args, i, st1),
            crate::commands::resize_scan(without_moves(args, i), 0, st2),
        ),
    decreases args.len() + 1 - i,
{
    reveal_strlit("-x");
    reveal_strlit("-y");
    assert("-x"@ != "-y"@) by {
        assert("-x"@[1] != "-y"@[1]);
    }
    if i < args.len() {
        let a = args[i];
        let has_next = i + 1 < args.len();
        if !has_next {
            assert(without_moves(args, i + 1) =~= Seq::<Seq<char>>::empty());
        }
        if a == "-t"@ && has_next {
            let p = seq![a, args[i + 1]];
            let rest = without_moves(args, i + 2);
            let s1 = crate::commands::ResizeRequest { target: spec_strip_pane_prefix(args[i + 1]), ..st1 };
            let s2 = crate::commands::ResizeRequest { target: spec_strip_pane_prefix(args[i + 1]), ..st2 };
            assert((p + rest)[0] == a);
            assert((p + rest)[1] == args[i + 1]);
            lemma_resize_shift(p, rest, 0, s2);
            lemma_sizes_ignore_moves(args, i + 2, s1, s2);
        } else if crate::commands::is_direction(a) {
            lemma_sizes_ignore_moves(args, i + 1, crate::commands::ResizeRequest { direction: a, ..st1 }, st2);
        } else if a == "-x"@ || a == "-y"@ {
            if has_next {
                let p = seq![a, args[i + 1]];
                let rest = without_moves(args, i + 2);
                assert((p + rest)[0] == a);
                assert((p + rest)[1] == args[i + 1]);
                if a == "-x"@ {
                    let s1 = crate::commands::ResizeRequest { width: args[i + 1], ..st1 };
                    let s2 = crate::commands::ResizeRequest { width: args[i + 1], ..st2 };
                    lemma_resize_shift(p, rest, 0, s2);
                    lemma_sizes_ignore_moves(args, i + 2, s1, s2);
                } else {
                    let s1 = crate::commands::ResizeRequest { height: args[i + 1], ..st1 };
                    let s2 = crate::commands::ResizeRequest { height: args[i + 1], ..st2 };
                    lemma_resize_shift(p, rest, 0, s2);
                    lemma_sizes_ignore_moves(args, i + 2, s1, s2);
                }
            } else {
                assert(seq![a][0] == a);
                assert(without_moves(args, i) == seq![a]);
                assert(crate::commands::resize_scan(args, i + 2, st1) == st1);
                assert(crate::commands::resize_scan(args, i, st1) == st1);
                assert(crate::commands::resize_scan(seq![a], 2, st2) == st2);
                assert(crate::commands::resize_scan(seq![a], 0, st2) == st2);
                assert(same_sizing(
                    crate::commands::resize_scan(args, i, st1),
                    crate::commands::resize_scan(without_moves(args, i), 0, st2),
                ));
            }
        } else if !is_flag(a) {
            lemma_sizes_ignore_moves(args, i + 1, crate::commands::ResizeRequest { amount: a, ..st1 }, st2);
        } else {
            let p = seq![a];
            let rest = without_moves(args, i + 1);
            assert((p + rest)[0] == a);
            lemma_resize_shift(p, rest, 0, st2);
            lemma_sizes_ignore_moves(args, i + 1, st1, st2);
        }
    }
}

/// Direction flags and the amount change nothing of the target and the absolute sizes
/// that `resize-pane` reads: leaving every one of them out gives the same. So once `-x` or
/// `-y` gives a size, [`cmd_resize_pane`] plans the same absolute resize either way.
pub proof fn law_sizes_ignore_moves(args: Seq<Seq<char>>)
    ensures
        same_sizing(spec_resize_options(args), spec_resize_options(without_moves(args, 0))),
{
    let st = crate::commands::ResizeRequest {
        target: Seq::empty(),
        direction: Seq::empty(),
        amount: Seq::empty(),
        width: Seq::empty(),
        height: Seq::empty(),
    };
    lemma_sizes_ignore_moves(args, 0, st, st);
}

} // verus!
