//! The bridge that reads cmux's JSON by scanning its text: the subcommands whose handling
//! is its own. Where a target is given twice, the last `-t` counts.

use vstd::prelude::*;
use crate::cli::{last_target, last_target_flag};
use crate::commands::{
    call_views, key_call, lit, list_panes_workspace, parse_resize_pane, parse_send_keys,
    push_call, push_str, resize_call, send_key_call, spec_keys,
    spec_list_workspace, spec_resize_call, spec_resize_options, surface_args, with_workspace,
};
use crate::refs::{pane_id, pane_id_line, spec_strip_pane_prefix, strip_pane_prefix};
use crate::scan::{extract_ref, extract_surface_ref, spec_extract_ref, spec_extract_surface_ref};
use crate::text::{find_in, lemma_find_from, find_from, to_chars, views};

verus! {

/// The caller's surface ref in an identify reply.
pub fn surface_ref(identify_json: &str) -> (r: String)
    ensures
        r@ == spec_extract_ref(identify_json@, "surface_ref"@),
{
    extract_ref(identify_json, "surface_ref")
}

/// The caller's window ref in an identify reply.
pub fn window_ref(identify_json: &str) -> (r: String)
    ensures
        r@ == spec_extract_ref(identify_json@, "window_ref"@),
{
    extract_ref(identify_json, "window_ref")
}

/// The caller's workspace ref in an identify reply.
pub fn workspace_ref(identify_json: &str) -> (r: String)
    ensures
        r@ == spec_extract_ref(identify_json@, "workspace_ref"@),
{
    extract_ref(identify_json, "workspace_ref")
}

/// `send-keys`: one call per key, in order, to the `-t` target. A `-t` that ends the line
/// is sent as a key.
pub fn cmd_send_keys(args: &Vec<String>) -> (r: Vec<Vec<String>>)
    ensures
        ({
            let (target, keys) = spec_keys(views(args@), true);
            call_views(r@) == keys.map_values(|k: Seq<char>| key_call(k, target))
        }),
{
    let (target, keys) = parse_send_keys(args, true);
    let ghost ks = views(keys@);
    let mut calls: Vec<Vec<String>> = Vec::new();
    let mut j: usize = 0;
    while j < keys.len()
        invariant
            j <= keys@.len(),
            ks == views(keys@),
            call_views(calls@) == ks.take(j as int).map_values(
                |k: Seq<char>| key_call(k, target@),
            ),
        decreases keys.len() - j,
    {
        push_call(&mut calls, send_key_call(&keys[j], &target));
        assert(ks.take(j + 1) =~= ks.take(j as int).push(ks[j as int]));
        assert(call_views(calls@) =~= ks.take(j + 1).map_values(
            |k: Seq<char>| key_call(k, target@),
        ));
        j += 1;
    }
    assert(ks.take(keys@.len() as int) =~= ks);
    calls
}

/// `kill-pane`: closes the target surface, or the focused one without a target.
pub fn cmd_kill_pane(args: &Vec<String>) -> (r: Vec<String>)
    ensures
        views(r@) == seq!["close-surface"@] + surface_args(
            spec_strip_pane_prefix(last_target(views(args@))),
        ),
{
    let raw = last_target_flag(args);
    let target = strip_pane_prefix(raw.as_str());
    let mut c: Vec<String> = Vec::new();
    push_str(&mut c, lit("close-surface"));
    if target.as_str().unicode_len() > 0 {
        push_str(&mut c, lit("--surface"));
        push_str(&mut c, target);
    }
    assert(views(c@) =~= seq!["close-surface"@] + surface_args(
        spec_strip_pane_prefix(last_target(views(args@))),
    ));
    c
}

/// Closing the workspace that a target names; nothing without a target.
pub open spec fn close_workspace(target: Seq<char>) -> Option<Seq<Seq<char>>> {
    if target.len() > 0 {
        Some(seq!["close-workspace"@, "--workspace"@, target])
    } else {
        None
    }
}

pub fn close_workspace_call(target: String) -> (r: Option<Vec<String>>)
    ensures
        match close_workspace(target@) {
            Some(c) => r is Some && views(r->0@) == c,
            None => r is None,
        },
{
    if target.as_str().unicode_len() > 0 {
        let mut c: Vec<String> = Vec::new();
        push_str(&mut c, lit("close-workspace"));
        push_str(&mut c, lit("--workspace"));
        push_str(&mut c, target);
        assert(views(c@) =~= seq!["close-workspace"@, "--workspace"@, target@]);
        Some(c)
    } else {
        None
    }
}

/// `kill-session`: closes the workspace its `-t` names.
pub fn cmd_kill_session(args: &Vec<String>) -> (r: Option<Vec<String>>)
    ensures
        match close_workspace(last_target(views(args@))) {
            Some(c) => r is Some && views(r->0@) == c,
            None => r is None,
        },
{
    close_workspace_call(last_target_flag(args))
}

/// `kill-window`: closes the workspace its `-t` names, as `kill-session` does.
pub fn cmd_kill_window(args: &Vec<String>) -> (r: Option<Vec<String>>)
    ensures
        match close_workspace(last_target(views(args@))) {
            Some(c) => r is Some && views(r->0@) == c,
            None => r is None,
        },
{
    close_workspace_call(last_target_flag(args))
}

/// `capture-pane`: reads the screen of the target surface, or the focused one.
pub fn cmd_capture_pane(args: &Vec<String>) -> (r: Vec<String>)
    ensures
        views(r@) == seq!["read-screen"@] + surface_args(
            spec_strip_pane_prefix(last_target(views(args@))),
        ),
{
    let raw = last_target_flag(args);
    let target = strip_pane_prefix(raw.as_str());
    let mut c: Vec<String> = Vec::new();
    push_str(&mut c, lit("read-screen"));
    if target.as_str().unicode_len() > 0 {
        push_str(&mut c, lit("--surface"));
        push_str(&mut c, target);
    }
    assert(views(c@) =~= seq!["read-screen"@] + surface_args(
        spec_strip_pane_prefix(last_target(views(args@))),
    ));
    c
}

/// `resize-pane`: moves the target's edge in a direction; absolute sizes (`-x`, `-y`) are
/// passed over, and nothing happens without a direction.
pub fn cmd_resize_pane(args: &Vec<String>) -> (r: Option<Vec<String>>)
    ensures
        match spec_resize_call(spec_resize_options(views(args@))) {
            Some(c) => r is Some && views(r->0@) == c,
            None => r is None,
        },
{
    let o = parse_resize_pane(args);
    resize_call(&o)
}

/// `list-panes`: lists the surfaces of each pane, in the workspace that the target names.
pub fn cmd_list_panes(args: &Vec<String>) -> (r: Vec<String>)
    ensures
        views(r@) == with_workspace(seq!["list-pane-surfaces"@], spec_list_workspace(views(args@))),
{
    let ws = list_panes_workspace(args);
    let mut c: Vec<String> = Vec::new();
    push_str(&mut c, lit("list-pane-surfaces"));
    if ws.as_str().unicode_len() > 0 {
        push_str(&mut c, lit("--workspace"));
        push_str(&mut c, ws);
    }
    assert(views(c@) =~= with_workspace(
        seq!["list-pane-surfaces"@],
        spec_list_workspace(views(args@)),
    ));
    c
}

/// Where the line of `s` that starts at `k` ends.
pub open spec fn line_end(s: Seq<char>, k: int) -> int {
    match find_from(s, seq!['\n'], k) {
        Some(e) => e,
        None => s.len() as int,
    }
}

/// The pane ids to print for the lines of `s` from the line that starts at `k`: one for
/// each line that holds a surface ref, in order.
pub open spec fn surface_lines_from(s: Seq<char>, k: int) -> Seq<Seq<char>>
    decreases s.len() + 1 - k,
{
    if k < 0 || k > s.len() {
        Seq::empty()
    } else {
        let e = line_end(s, k);
        let here = match spec_extract_surface_ref(s.subrange(k, e)) {
            Some(v) => seq![pane_id(v)],
            None => Seq::empty(),
        };
        if e >= s.len() {
            here
        } else {
            proof {
                lemma_find_from(s, seq!['\n'], k);
            }
            here + surface_lines_from(s, e + 1)
        }
    }
}

/// The lines that `list-panes` prints for a `list-pane-surfaces` reply: the pane id of the
/// surface in each line that names one.
pub fn list_panes_output(raw: &str) -> (r: Vec<String>)
    ensures
        views(r@) == surface_lines_from(raw@, 0),
{
    let s = to_chars(raw);
    let nl: Vec<char> = vec!['\n'];
    assert(nl@ =~= seq!['\n']);
    let mut out: Vec<String> = Vec::new();
    let mut k: usize = 0;
    assert(views(out@) =~= Seq::<Seq<char>>::empty());
    loop
        invariant
            k <= s@.len(),
            s@ == raw@,
            nl@ == seq!['\n'],
            views(out@) + surface_lines_from(s@, k as int) == surface_lines_from(s@, 0),
        decreases s@.len() - k,
    {
        proof {
            lemma_find_from(s@, seq!['\n'], k as int);
        }
        let e = match find_in(&s, &nl, k) {
            Some(e) => e,
            None => s.len(),
        };
        assert(e as int == line_end(s@, k as int));
        let line = crate::text::string_of(&s, k, e);
        let ghost before = views(out@);
        match extract_surface_ref(line.as_str()) {
            Some(v) => {
                push_str(&mut out, pane_id_line(v));
            },
            None => {},
        }
        let ghost here = match spec_extract_surface_ref(s@.subrange(k as int, e as int)) {
            Some(v) => seq![pane_id(v)],
            None => Seq::<Seq<char>>::empty(),
        };
        assert(views(out@) =~= before + here);
        if e >= s.len() {
            assert(views(out@) =~= surface_lines_from(s@, 0));
            return out;
        }
        assert(surface_lines_from(s@, k as int) == here + surface_lines_from(s@, e + 1));
        assert(views(out@) + surface_lines_from(s@, e + 1) =~= before + surface_lines_from(
            s@,
            k as int,
        ));
        k = e + 1;
    }
}

} // verus!

verus! {

/// A pane id that names a surface: `%` and then a ref `surface:` with something after it.
pub open spec fn names_surface(id: Seq<char>) -> bool {
    &&& id.len() > 0
    &&& id[0] == '%'
    &&& crate::text::starts_with(spec_strip_pane_prefix(id), crate::refs::surface_word())
    &&& spec_strip_pane_prefix(id).len() > crate::refs::surface_word().len()
}

proof fn lemma_ref_end(s: Seq<char>, i: int)
    requires
        0 <= i <= s.len(),
    ensures
        i <= crate::scan::ref_end_from(s, i) <= s.len(),
    decreases s.len() + 1 - i,
{
    if i < s.len() && !crate::scan::ends_ref(s[i]) {
        lemma_ref_end(s, i + 1);
    }
}

proof fn lemma_surface_ref_shape(line: Seq<char>)
    ensures
        spec_extract_surface_ref(line) matches Some(v) ==> crate::text::starts_with(
            v,
            crate::refs::surface_word(),
        ) && v.len() > crate::refs::surface_word().len(),
{
    lemma_find_from(line, crate::refs::surface_word(), 0);
    if let Some(v) = spec_extract_surface_ref(line) {
        let i = crate::text::find(line, crate::refs::surface_word())->0;
        let e = crate::scan::ref_end_from(line, i);
        lemma_ref_end(line, i);
        assert(v == line.subrange(i, e));
        assert(v.take(8) =~= line.subrange(i, i + 8));
    }
}

proof fn lemma_surface_lines(s: Seq<char>, k: int)
    requires
        0 <= k,
    ensures
        forall|j: int|
            0 <= j < surface_lines_from(s, k).len() ==> names_surface(
                #[trigger] surface_lines_from(s, k)[j],
            ),
    decreases s.len() + 1 - k,
{
    if k <= s.len() {
        let e = line_end(s, k);
        lemma_find_from(s, seq!['\n'], k);
        let line = s.subrange(k, e);
        lemma_surface_ref_shape(line);
        let here = match spec_extract_surface_ref(line) {
            Some(v) => seq![pane_id(v)],
            None => Seq::<Seq<char>>::empty(),
        };
        if let Some(v) = spec_extract_surface_ref(line) {
            crate::refs::law_pane_id_round_trip(v);
            assert(names_surface(pane_id(v)));
        }
        if e < s.len() {
            lemma_surface_lines(s, e + 1);
            let all = here + surface_lines_from(s, e + 1);
            assert(surface_lines_from(s, k) == all);
            assert forall|j: int| 0 <= j < all.len() implies names_surface(#[trigger] all[j]) by {
                if j >= here.len() {
                    assert(all[j] == surface_lines_from(s, e + 1)[j - here.len()]);
                }
            }
        }
    }
}

/// Every line that `list-panes` prints is a pane id that names a surface.
pub proof fn law_listed_lines_name_surfaces(raw: Seq<char>)
    ensures
        forall|j: int|
            0 <= j < surface_lines_from(raw, 0).len() ==> names_surface(
                #[trigger] surface_lines_from(raw, 0)[j],
            ),
{
    lemma_surface_lines(raw, 0);
}

} // verus!
