//! Arranging a team's panes in the `main-vertical` layout: the leader on the left and the
//! teammates stacked in spawn order on the right, each as tall as the others.

use vstd::prelude::*;
use crate::commands::{call_views, lit, push_call, push_str};
use crate::refs::surface_word;
use crate::scan::slice_chars;
use crate::text::{matches_at, parse_decimal, parse_unsigned, starts_with, to_chars, views};

verus! {

/// One pane of a `list-panes` reply.
pub struct PaneInfo {
    /// The pane's ref, such as `pane:2`.
    pub pane_ref: String,
    /// The surface shown in the pane.
    pub selected_surface_ref: Option<String>,
    /// The refs of the pane's surfaces.
    pub surface_refs: Option<Vec<String>>,
    /// The ids (UUIDs) of the pane's surfaces, in the order of `surface_refs`.
    pub surface_ids: Option<Vec<String>>,
}

/// A `list-panes` reply: the panes of a workspace in tree order, the leader first.
pub struct ListPanesResponse {
    pub panes: Vec<PaneInfo>,
    pub workspace_ref: String,
}

/// The number in a ref `surface:N`; 0 for anything else. Surface numbers grow with the
/// order in which surfaces were created.
pub open spec fn surface_number(s: Seq<char>) -> nat {
    if starts_with(s, surface_word()) {
        match parse_unsigned(s.skip(8), u64::MAX as nat) {
            Some(v) => v,
            None => 0,
        }
    } else {
        0
    }
}

pub fn surface_number_of(s: &String) -> (r: u64)
    ensures
        r as nat == surface_number(s@),
{
    let chars = to_chars(s.as_str());
    let word: Vec<char> = vec!['s', 'u', 'r', 'f', 'a', 'c', 'e', ':'];
    assert(word@ =~= surface_word());
    if matches_at(&chars, &word, 0) {
        assert(chars@.take(8) =~= chars@.subrange(0, 8));
        let rest = slice_chars(&chars, 8, chars.len());
        assert(rest@ =~= chars@.skip(8));
        match parse_decimal(&rest, 0xffff_ffff_ffff_ffff) {
            Some(v) => v,
            None => 0,
        }
    } else {
        assert(!starts_with(chars@, surface_word())) by {
            if starts_with(chars@, surface_word()) {
                assert(chars@.take(8) =~= chars@.subrange(0, 8));
            }
        }
        0
    }
}

// ---------------------------------------------------------------------------------------
// ordering surfaces by number

/// `sorted` with `x` placed after every element whose number is not larger than `x`'s.
pub open spec fn insert_by_number(sorted: Seq<Seq<char>>, x: Seq<char>) -> Seq<Seq<char>>
    decreases sorted.len(),
{
    if sorted.len() == 0 {
        seq![x]
    } else if surface_number(x) < surface_number(sorted.last()) {
        insert_by_number(sorted.drop_last(), x).push(sorted.last())
    } else {
        sorted.push(x)
    }
}

/// The refs ordered by surface number, refs with equal numbers keeping their order
/// (what a stable `sort_by_key` gives).
pub open spec fn sort_by_number(s: Seq<Seq<char>>) -> Seq<Seq<char>>
    decreases s.len(),
{
    if s.len() == 0 {
        Seq::empty()
    } else {
        insert_by_number(sort_by_number(s.drop_last()), s.last())
    }
}

pub open spec fn numbers_ascend(s: Seq<Seq<char>>) -> bool {
    forall|i: int, j: int|
        0 <= i < j < s.len() ==> surface_number(#[trigger] s[i]) <= surface_number(#[trigger] s[j])
}

proof fn lemma_insert_position(sorted: Seq<Seq<char>>, x: Seq<char>, p: int)
    requires
        0 <= p <= sorted.len(),
        forall|j: int| p <= j < sorted.len() ==> surface_number(x) < surface_number(
            #[trigger] sorted[j],
        ),
        p == 0 || surface_number(x) >= surface_number(sorted[p - 1]),
    ensures
        insert_by_number(sorted, x) == sorted.insert(p, x),
    decreases sorted.len(),
{
    if sorted.len() == 0 {
        assert(sorted.insert(p, x) =~= seq![x]);
    } else if p == sorted.len() {
        assert(sorted.insert(p, x) =~= sorted.push(x));
    } else {
        let last = sorted.len() - 1;
        assert(surface_number(x) < surface_number(sorted[last]));
        lemma_insert_position(sorted.drop_last(), x, p);
        assert(sorted.insert(p, x) =~= sorted.drop_last().insert(p, x).push(sorted.last()));
    }
}

proof fn lemma_insert_keeps_order(sorted: Seq<Seq<char>>, x: Seq<char>)
    requires
        numbers_ascend(sorted),
    ensures
        numbers_ascend(insert_by_number(sorted, x)),
        insert_by_number(sorted, x).to_multiset() == sorted.to_multiset().insert(x),
    decreases sorted.len(),
{
    broadcast use vstd::seq_lib::group_to_multiset_ensures;

    if sorted.len() == 0 {
        assert(seq![x] =~= Seq::<Seq<char>>::empty().push(x));
    } else if surface_number(x) < surface_number(sorted.last()) {
        let rest = sorted.drop_last();
        assert(numbers_ascend(rest));
        lemma_insert_keeps_order(rest, x);
        let ins = insert_by_number(rest, x);
        let r = ins.push(sorted.last());
        assert forall|j: int| 0 <= j < ins.len() implies surface_number(ins[j]) <= surface_number(
            sorted.last(),
        ) by {
            assert(ins.to_multiset().count(ins[j]) > 0);
            assert(rest.to_multiset().insert(x).count(ins[j]) > 0);
            if ins[j] != x {
                assert(rest.to_multiset().count(ins[j]) > 0);
                assert(rest.contains(ins[j]));
                let k = choose|k: int| 0 <= k < rest.len() && rest[k] == ins[j];
                assert(sorted[k] == ins[j]);
                assert(sorted[sorted.len() - 1] == sorted.last());
            }
        }
        assert(numbers_ascend(r));
        assert(sorted =~= rest.push(sorted.last()));
    } else {
        let r = sorted.push(x);
        assert forall|i: int, j: int| 0 <= i < j < r.len() implies surface_number(r[i])
            <= surface_number(r[j]) by {
            if j == sorted.len() {
                assert(surface_number(sorted[i]) <= surface_number(sorted[sorted.len() - 1]));
            }
        }
    }
}

proof fn lemma_insert_len(sorted: Seq<Seq<char>>, x: Seq<char>)
    ensures
        insert_by_number(sorted, x).len() == sorted.len() + 1,
    decreases sorted.len(),
{
    if sorted.len() > 0 && surface_number(x) < surface_number(sorted.last()) {
        lemma_insert_len(sorted.drop_last(), x);
    }
}

proof fn lemma_sort_len(s: Seq<Seq<char>>)
    ensures
        sort_by_number(s).len() == s.len(),
    decreases s.len(),
{
    if s.len() > 0 {
        lemma_sort_len(s.drop_last());
        lemma_insert_len(sort_by_number(s.drop_last()), s.last());
    }
}

/// Ordering by surface number gives refs in ascending number.
pub proof fn law_sort_ascends(s: Seq<Seq<char>>)
    ensures
        numbers_ascend(sort_by_number(s)),
    decreases s.len(),
{
    if s.len() > 0 {
        law_sort_ascends(s.drop_last());
        lemma_insert_keeps_order(sort_by_number(s.drop_last()), s.last());
    }
}

/// Ordering by surface number neither drops nor adds a ref.
pub proof fn law_sort_permutes(s: Seq<Seq<char>>)
    ensures
        sort_by_number(s).to_multiset() == s.to_multiset(),
    decreases s.len(),
{
    broadcast use vstd::seq_lib::group_to_multiset_ensures;

    if s.len() > 0 {
        law_sort_permutes(s.drop_last());
        law_sort_ascends(s.drop_last());
        lemma_insert_keeps_order(sort_by_number(s.drop_last()), s.last());
        assert(s =~= s.drop_last().push(s.last()));
    }
}

/// Refs that already come in ascending number are left as they are.
pub proof fn law_sort_keeps_ascending(s: Seq<Seq<char>>)
    requires
        numbers_ascend(s),
    ensures
        sort_by_number(s) == s,
    decreases s.len(),
{
    if s.len() > 0 {
        let rest = s.drop_last();
        assert(numbers_ascend(rest));
        law_sort_keeps_ascending(rest);
        if rest.len() > 0 {
            assert(rest.last() == s[s.len() - 2]);
        }
        assert(s =~= rest.push(s.last()));
    }
}

/// The refs ordered by surface number, equal numbers keeping their order.
pub fn sort_by_surface_number(refs: &Vec<String>) -> (r: Vec<String>)
    ensures
        views(r@) == sort_by_number(views(refs@)),
{
    let ghost v = views(refs@);
    let mut res: Vec<String> = Vec::new();
    let mut keys: Vec<u64> = Vec::new();
    let mut i: usize = 0;
    assert(v.take(0) =~= Seq::<Seq<char>>::empty());
    assert(views(res@) =~= Seq::<Seq<char>>::empty());
    while i < refs.len()
        invariant
            i <= refs@.len(),
            v == views(refs@),
            views(res@) == sort_by_number(v.take(i as int)),
            keys@.len() == res@.len(),
            forall|j: int| 0 <= j < keys@.len() ==> keys@[j] as nat == surface_number(
                #[trigger] res@[j]@,
            ),
        decreases refs.len() - i,
    {
        let x = refs[i].clone();
        let kx = surface_number_of(&x);
        let ghost sorted = views(res@);
        proof {
            law_sort_ascends(v.take(i as int));
        }
        let mut p = res.len();
        while p > 0 && kx < keys[p - 1]
            invariant
                p <= res@.len(),
                keys@.len() == res@.len(),
                kx as nat == surface_number(x@),
                sorted == views(res@),
                numbers_ascend(sorted),
                forall|j: int| 0 <= j < keys@.len() ==> keys@[j] as nat == surface_number(
                    #[trigger] res@[j]@,
                ),
                forall|j: int| p <= j < sorted.len() ==> surface_number(x@) < surface_number(
                    #[trigger] sorted[j],
                ),
            decreases p,
        {
            assert(sorted[p - 1] == res@[p - 1]@);
            p -= 1;
        }
        proof {
            if p > 0 {
                assert(sorted[p - 1] == res@[p - 1]@);
            }
            lemma_insert_position(sorted, x@, p as int);
        }
        let ghost before = res@;
        res.insert(p, x);
        keys.insert(p, kx);
        assert(res@ =~= before.insert(p as int, x));
        assert(views(res@) =~= sorted.insert(p as int, x@));
        assert(v.take(i + 1).drop_last() =~= v.take(i as int));
        assert(v.take(i + 1).last() == x@);
        assert forall|j: int| 0 <= j < keys@.len() implies keys@[j] as nat == surface_number(
            #[trigger] res@[j]@,
        ) by {
            if j < p {
                assert(res@[j] == before[j]);
            } else if j > p {
                assert(res@[j] == before[j - 1]);
            }
        }
        i += 1;
    }
    assert(v.take(refs@.len() as int) =~= v);
    res
}

// ---------------------------------------------------------------------------------------
// surface ids

/// The (ref, id) pairs that one pane lists, in order, as far as both lists go.
pub open spec fn pane_pairs(p: PaneInfo) -> Seq<(Seq<char>, Seq<char>)> {
    match (p.surface_refs, p.surface_ids) {
        (Some(r), Some(i)) => {
            let m = if r@.len() <= i@.len() { r@.len() } else { i@.len() };
            Seq::new(m, |k: int| (r@[k]@, i@[k]@))
        },
        _ => Seq::empty(),
    }
}

/// The (ref, id) pairs of all panes, in pane order.
pub open spec fn id_pairs(panes: Seq<PaneInfo>) -> Seq<(Seq<char>, Seq<char>)>
    decreases panes.len(),
{
    if panes.len() == 0 {
        Seq::empty()
    } else {
        id_pairs(panes.drop_last()) + pane_pairs(panes.last())
    }
}

/// The id recorded for `key`: the last pair that names it wins, as when the pairs are
/// inserted into a map in order.
pub open spec fn lookup_id(pairs: Seq<(Seq<char>, Seq<char>)>, key: Seq<char>) -> Option<
    Seq<char>,
>
    decreases pairs.len(),
{
    if pairs.len() == 0 {
        None
    } else if pairs.last().0 == key {
        Some(pairs.last().1)
    } else {
        lookup_id(pairs.drop_last(), key)
    }
}

pub open spec fn pair_views(v: Seq<(String, String)>) -> Seq<(Seq<char>, Seq<char>)> {
    v.map_values(|p: (String, String)| (p.0@, p.1@))
}

/// The (ref, id) pairs of all panes.
pub fn collect_id_pairs(panes: &Vec<PaneInfo>) -> (r: Vec<(String, String)>)
    ensures
        pair_views(r@) == id_pairs(panes@),
{
    let mut out: Vec<(String, String)> = Vec::new();
    let mut i: usize = 0;
    assert(panes@.take(0) =~= Seq::<PaneInfo>::empty());
    assert(pair_views(out@) =~= Seq::<(Seq<char>, Seq<char>)>::empty());
    while i < panes.len()
        invariant
            i <= panes@.len(),
            pair_views(out@) == id_pairs(panes@.take(i as int)),
        decreases panes.len() - i,
    {
        let p = &panes[i];
        let ghost before = pair_views(out@);
        match (&p.surface_refs, &p.surface_ids) {
            (Some(refs), Some(ids)) => {
                let m = if refs.len() <= ids.len() { refs.len() } else { ids.len() };
                let mut k: usize = 0;
                while k < m
                    invariant
                        k <= m,
                        m <= refs@.len(),
                        m <= ids@.len(),
                        pair_views(out@) == before + Seq::new(
                            k as nat,
                            |q: int| (refs@[q]@, ids@[q]@),
                        ),
                    decreases m - k,
                {
                    let ghost o = out@;
                    out.push((refs[k].clone(), ids[k].clone()));
                    assert(out@ =~= o.push((refs@[k as int], ids@[k as int])));
                    assert(pair_views(out@) =~= pair_views(o).push((refs@[k as int]@, ids@[k as int]@)));
                    assert(pair_views(out@) =~= before + Seq::new(
                        (k + 1) as nat,
                        |q: int| (refs@[q]@, ids@[q]@),
                    ));
                    k += 1;
                }
                assert(pair_views(out@) =~= before + pane_pairs(*p));
            },
            _ => {
                assert(pair_views(out@) =~= before + pane_pairs(*p));
            },
        }
        assert(panes@.take(i + 1).drop_last() =~= panes@.take(i as int));
        assert(panes@.take(i + 1).last() == *p);
        i += 1;
    }
    assert(panes@.take(panes@.len() as int) =~= panes@);
    out
}

/// The id recorded for a ref, the last pair that names it winning.
pub fn lookup_surface_id(pairs: &Vec<(String, String)>, key: &String) -> (r: Option<String>)
    ensures
        crate::text::opt_view(r) == lookup_id(pair_views(pairs@), key@),
{
    let ghost pv = pair_views(pairs@);
    let mut i = pairs.len();
    assert(pv.take(i as int) =~= pv);
    while i > 0
        invariant
            i <= pairs@.len(),
            pv == pair_views(pairs@),
            lookup_id(pv, key@) == lookup_id(pv.take(i as int), key@),
        decreases i,
    {
        assert(pv.take(i as int).last() == pv[i - 1]);
        assert(pv.take(i as int).drop_last() =~= pv.take(i - 1));
        if pairs[i - 1].0 == *key {
            return Some(pairs[i - 1].1.clone());
        }
        i -= 1;
    }
    None
}

// ---------------------------------------------------------------------------------------
// the main-vertical plan

/// The surfaces shown in the panes, in pane order, skipping panes that show none.
pub open spec fn selected_refs(panes: Seq<PaneInfo>) -> Seq<Seq<char>>
    decreases panes.len(),
{
    if panes.len() == 0 {
        Seq::empty()
    } else {
        let r = selected_refs(panes.drop_last());
        match panes.last().selected_surface_ref {
            Some(s) => r.push(s@),
            None => r,
        }
    }
}

pub open spec fn move_call(surface: Seq<char>, pane: Seq<char>) -> Seq<Seq<char>> {
    seq!["move-surface"@, "--surface"@, surface, "--pane"@, pane, "--no-focus"@]
}

pub open spec fn drag_call(id: Seq<char>) -> Seq<Seq<char>> {
    seq!["drag-surface-to-split"@, "--surface"@, id, "down"@]
}

/// The drags for the teammates `i`, `i - 1`, ..., `1` (in spawn order), each by the
/// surface's id; a surface without a known id is left where it is.
pub open spec fn drags_down(
    sorted: Seq<Seq<char>>,
    pairs: Seq<(Seq<char>, Seq<char>)>,
    i: int,
) -> Seq<Seq<Seq<char>>>
    decreases i,
{
    if i < 1 {
        Seq::empty()
    } else {
        (match lookup_id(pairs, sorted[i]) {
            Some(u) => seq![drag_call(u)],
            None => Seq::empty(),
        }) + drags_down(sorted, pairs, i - 1)
    }
}

/// The calls that rebuild the layout from a `list-panes` reply, or none when there are
/// fewer than two teammates or a teammate's pane shows no surface. First every teammate
/// surface but the earliest is moved into the first teammate's pane; then the workspace
/// is selected; then the surfaces are dragged out again, latest first, each into a split
/// below, so that they come to stand in spawn order.
pub open spec fn spec_main_vertical(resp: ListPanesResponse) -> Option<Seq<Seq<Seq<char>>>> {
    let panes = resp.panes@;
    if panes.len() <= 2 {
        None
    } else {
        let n = panes.len() - 1;
        let refs = selected_refs(panes.skip(1));
        if refs.len() != n {
            None
        } else {
            let sorted = sort_by_number(refs);
            let target = panes[1].pane_ref@;
            Some(
                Seq::new((n - 1) as nat, |j: int| move_call(sorted[j + 1], target)) + seq![
                    seq!["select-workspace"@, "--workspace"@, resp.workspace_ref@],
                ] + drags_down(sorted, id_pairs(panes), n - 1),
            )
        }
    }
}

/// What arranging the layout does before the heights are evened out.
pub struct MainVerticalPlan {
    /// The cmux calls, in order.
    pub calls: Vec<Vec<String>>,
    /// How many teammates (panes besides the leader's) there are.
    pub teammates: usize,
}

/// The `list-panes` call that reads the panes as JSON; with `with_ids`, the surface ids
/// (UUIDs) are listed beside the refs, as moving surfaces between splits needs them.
pub open spec fn spec_list_call(with_ids: bool) -> Seq<Seq<char>> {
    if with_ids {
        seq!["--json"@, "--id-format"@, "both"@, "list-panes"@]
    } else {
        seq!["--json"@, "list-panes"@]
    }
}

pub fn list_call(with_ids: bool) -> (r: Vec<String>)
    ensures
        views(r@) == spec_list_call(with_ids),
{
    let mut c: Vec<String> = Vec::new();
    push_str(&mut c, lit("--json"));
    if with_ids {
        push_str(&mut c, lit("--id-format"));
        push_str(&mut c, lit("both"));
    }
    push_str(&mut c, lit("list-panes"));
    assert(views(c@) =~= spec_list_call(with_ids));
    c
}

/// The surfaces shown in the panes, skipping panes that show none.
pub fn selected_surfaces(panes: &Vec<PaneInfo>, from: usize) -> (r: Vec<String>)
    requires
        from <= panes@.len(),
    ensures
        views(r@) == selected_refs(panes@.skip(from as int)),
{
    let mut out: Vec<String> = Vec::new();
    let mut i = from;
    assert(panes@.subrange(from as int, from as int) =~= Seq::<PaneInfo>::empty());
    assert(views(out@) =~= Seq::<Seq<char>>::empty());
    while i < panes.len()
        invariant
            from <= i <= panes@.len(),
            views(out@) == selected_refs(panes@.subrange(from as int, i as int)),
        decreases panes.len() - i,
    {
        assert(panes@.subrange(from as int, i + 1).drop_last() =~= panes@.subrange(
            from as int,
            i as int,
        ));
        assert(panes@.subrange(from as int, i + 1).last() == panes@[i as int]);
        match &panes[i].selected_surface_ref {
            Some(s) => {
                push_str(&mut out, s.clone());
            },
            None => {},
        }
        i += 1;
    }
    assert(panes@.skip(from as int) =~= panes@.subrange(from as int, panes@.len() as int));
    out
}

/// Plans the `main-vertical` layout from a `list-panes` reply that carries surface ids.
pub fn apply_main_vertical_layout(resp: &ListPanesResponse) -> (r: Option<MainVerticalPlan>)
    ensures
        match spec_main_vertical(*resp) {
            Some(c) => r is Some && call_views(r->0.calls@) == c && r->0.teammates + 1
                == resp.panes@.len(),
            None => r is None,
        },
{
    let panes = &resp.panes;
    if panes.len() <= 2 {
        return None;
    }
    let n = panes.len() - 1;
    let refs = selected_surfaces(panes, 1);
    if refs.len() != n {
        return None;
    }
    let sorted = sort_by_surface_number(&refs);
    let ghost sv = views(sorted@);
    proof {
        lemma_sort_len(views(refs@));
    }
    assert(sv.len() == n);
    let target = &panes[1].pane_ref;
    let mut calls: Vec<Vec<String>> = Vec::new();
    let mut j: usize = 1;
    assert(call_views(calls@) =~= Seq::new(0, |q: int| move_call(sv[q + 1], target@)));
    while j < n
        invariant
            1 <= j <= n,
            n == sorted@.len(),
            sv == views(sorted@),
            call_views(calls@) == Seq::new((j - 1) as nat, |q: int| move_call(sv[q + 1], target@)),
        decreases n - j,
    {
        let mut c: Vec<String> = Vec::new();
        push_str(&mut c, lit("move-surface"));
        push_str(&mut c, lit("--surface"));
        push_str(&mut c, sorted[j].clone());
        push_str(&mut c, lit("--pane"));
        push_str(&mut c, target.clone());
        push_str(&mut c, lit("--no-focus"));
        assert(views(c@) =~= move_call(sv[j as int], target@));
        push_call(&mut calls, c);
        assert(call_views(calls@) =~= Seq::new(j as nat, |q: int| move_call(sv[q + 1], target@)));
        j += 1;
    }
    let mut select: Vec<String> = Vec::new();
    push_str(&mut select, lit("select-workspace"));
    push_str(&mut select, lit("--workspace"));
    push_str(&mut select, resp.workspace_ref.clone());
    assert(views(select@) =~= seq!["select-workspace"@, "--workspace"@, resp.workspace_ref@]);
    push_call(&mut calls, select);
    let ghost head = call_views(calls@);
    let pairs = collect_id_pairs(panes);
    let ghost pv = pair_views(pairs@);
    let mut i = n - 1;
    assert(head + drags_down(sv, pv, (n - 1) as int) =~= call_views(calls@) + drags_down(
        sv,
        pv,
        i as int,
    ));
    while i >= 1
        invariant
            i <= n - 1,
            n == sorted@.len(),
            sv == views(sorted@),
            pv == pair_views(pairs@),
            call_views(calls@) + drags_down(sv, pv, i as int) == head + drags_down(
                sv,
                pv,
                (n - 1) as int,
            ),
        decreases i,
    {
        let ghost before = call_views(calls@);
        match lookup_surface_id(&pairs, &sorted[i]) {
            Some(u) => {
                let mut c: Vec<String> = Vec::new();
                push_str(&mut c, lit("drag-surface-to-split"));
                push_str(&mut c, lit("--surface"));
                push_str(&mut c, u);
                push_str(&mut c, lit("down"));
                assert(views(c@) =~= drag_call(lookup_id(pv, sv[i as int])->0));
                push_call(&mut calls, c);
            },
            None => {},
        }
        let ghost here = match lookup_id(pv, sv[i as int]) {
            Some(u) => seq![drag_call(u)],
            None => Seq::<Seq<Seq<char>>>::empty(),
        };
        assert(call_views(calls@) =~= before + here);
        assert(drags_down(sv, pv, i as int) == here + drags_down(sv, pv, i - 1));
        assert(call_views(calls@) + drags_down(sv, pv, i - 1) =~= before + drags_down(
            sv,
            pv,
            i as int,
        ));
        i -= 1;
    }
    assert(drags_down(sv, pv, 0) =~= Seq::<Seq<Seq<char>>>::empty());
    assert(call_views(calls@) =~= spec_main_vertical(*resp)->0);
    Some(MainVerticalPlan { calls, teammates: n })
}

// ---------------------------------------------------------------------------------------
// evening out the heights

/// A move of the divider between two panes to a position between 0 and 1, given as the
/// fraction `numerator / denominator` of the space the two share. The first pane and
/// direction push the divider towards higher positions, the second towards lower ones.
pub struct DividerMove {
    pub fwd_pane: String,
    pub fwd_dir: String,
    pub bwd_pane: String,
    pub bwd_dir: String,
    pub numerator: u64,
    pub denominator: u64,
}

pub ghost struct MoveView {
    pub fwd_pane: Seq<char>,
    pub fwd_dir: Seq<char>,
    pub bwd_pane: Seq<char>,
    pub bwd_dir: Seq<char>,
    pub numerator: nat,
    pub denominator: nat,
}

pub open spec fn move_view(m: DividerMove) -> MoveView {
    MoveView {
        fwd_pane: m.fwd_pane@,
        fwd_dir: m.fwd_dir@,
        bwd_pane: m.bwd_pane@,
        bwd_dir: m.bwd_dir@,
        numerator: m.numerator as nat,
        denominator: m.denominator as nat,
    }
}

pub open spec fn move_views(v: Seq<DividerMove>) -> Seq<MoveView> {
    v.map_values(|m: DividerMove| move_view(m))
}

pub fn push_move(v: &mut Vec<DividerMove>, m: DividerMove)
    ensures
        move_views(final(v)@) == move_views(old(v)@).push(move_view(m)),
{
    let ghost before = v@;
    v.push(m);
    assert(v@ =~= before.push(m));
    assert(move_views(v@) =~= move_views(before).push(move_view(m)));
}

/// The divider positions that even out `n` stacked teammates: the divider below the
/// first `k` of them (for `k` from 2 to `n - 1`) goes to `k / (k + 1)`.
pub open spec fn spec_targets(n: int) -> Seq<(nat, nat)> {
    Seq::new(if n >= 2 { (n - 2) as nat } else { 0 }, |j: int| ((j + 2) as nat, (j + 3) as nat))
}

pub fn equalization_targets(n: usize) -> (r: Vec<(u64, u64)>)
    ensures
        r@.len() == spec_targets(n as int).len(),
        forall|j: int|
            0 <= j < r@.len() ==> (r@[j].0 as nat, r@[j].1 as nat) == #[trigger] spec_targets(
                n as int,
            )[j],
{
    let mut out: Vec<(u64, u64)> = Vec::new();
    let mut k: usize = 2;
    while k < n
        invariant
            2 <= k,
            n >= 2 ==> k <= n,
            n < 2 ==> k == 2,
            out@.len() == k - 2,
            forall|j: int| 0 <= j < out@.len() ==> out@[j] == ((j + 2) as u64, (j + 3) as u64),
        decreases n - k,
    {
        out.push((k as u64, (k + 1) as u64));
        k += 1;
    }
    out
}

/// The moves that even out the teammates of a fresh `list-panes` reply, for a layout
/// built with `teammates` of them: the divider between teammate `k - 1` and teammate `k`
/// (counted from 0 below the leader) goes to `k / (k + 1)`, for each `k` from 2 that is
/// below both `teammates` and the number of teammates listed.
pub open spec fn spec_equalize(panes: Seq<PaneInfo>, teammates: int) -> Seq<MoveView> {
    let listed = if panes.len() >= 1 { panes.len() - 1 } else { 0 };
    let top = if teammates <= listed { teammates } else { listed };
    Seq::new(
        if top >= 2 { (top - 2) as nat } else { 0 },
        |j: int|
            MoveView {
                fwd_pane: panes[j + 2].pane_ref@,
                fwd_dir: "-D"@,
                bwd_pane: panes[j + 3].pane_ref@,
                bwd_dir: "-U"@,
                numerator: (j + 2) as nat,
                denominator: (j + 3) as nat,
            },
    )
}

pub fn equalize_moves(fresh: &ListPanesResponse, teammates: usize) -> (r: Vec<DividerMove>)
    ensures
        move_views(r@) == spec_equalize(fresh.panes@, teammates as int),
{
    let panes = &fresh.panes;
    let listed = if panes.len() >= 1 { panes.len() - 1 } else { 0 };
    let targets = equalization_targets(teammates);
    let mut out: Vec<DividerMove> = Vec::new();
    let mut j: usize = 0;
    let ghost spec = spec_equalize(panes@, teammates as int);
    assert(move_views(out@) =~= spec.take(0));
    while j < targets.len() && j + 2 < listed
        invariant
            j <= targets@.len(),
            targets@.len() == spec_targets(teammates as int).len(),
            forall|q: int|
                0 <= q < targets@.len() ==> (targets@[q].0 as nat, targets@[q].1 as nat)
                    == #[trigger] spec_targets(teammates as int)[q],
            listed as int == (if panes@.len() >= 1 { panes@.len() - 1 } else { 0 }),
            j <= spec.len(),
            spec == spec_equalize(panes@, teammates as int),
            move_views(out@) == spec.take(j as int),
        decreases targets@.len() - j,
    {
        let (num, den) = targets[j];
        assert((num as nat, den as nat) == spec_targets(teammates as int)[j as int]);
        let m = DividerMove {
            fwd_pane: panes[j + 1 + 1].pane_ref.clone(),
            fwd_dir: lit("-D"),
            bwd_pane: panes[j + 1 + 2].pane_ref.clone(),
            bwd_dir: lit("-U"),
            numerator: num,
            denominator: den,
        };
        assert(move_view(m) == spec[j as int]);
        push_move(&mut out, m);
        assert(spec.take(j + 1) =~= spec.take(j as int).push(spec[j as int]));
        j += 1;
    }
    assert(spec.take(j as int) =~= spec);
    out
}

/// The call that gives the focus back to the leader: the first listed pane.
pub fn focus_call(fresh: &ListPanesResponse) -> (r: Option<Vec<String>>)
    ensures
        fresh.panes@.len() == 0 ==> r is None,
        fresh.panes@.len() > 0 ==> r is Some && views(r->0@) == seq![
            "focus-pane"@,
            "--pane"@,
            fresh.panes@[0].pane_ref@,
        ],
{
    if fresh.panes.len() == 0 {
        return None;
    }
    let mut c: Vec<String> = Vec::new();
    push_str(&mut c, lit("focus-pane"));
    push_str(&mut c, lit("--pane"));
    push_str(&mut c, fresh.panes[0].pane_ref.clone());
    assert(views(c@) =~= seq!["focus-pane"@, "--pane"@, fresh.panes@[0].pane_ref@]);
    Some(c)
}

} // verus!

verus! {

/// The share of the height that the first `m` teammates keep once the dividers below
/// teammates `m - 1`, ..., `n - 2` sit at the equalization targets for `n` teammates:
/// the product of those fractions, as numerator and denominator.
pub open spec fn group_share(targets: Seq<(nat, nat)>, m: int) -> (nat, nat)
    decreases targets.len() + 2 - m,
{
    if m < 2 || m >= targets.len() + 2 {
        (1, 1)
    } else {
        let rest = group_share(targets, m + 1);
        let t = targets[m - 2];
        (t.0 * rest.0, t.1 * rest.1)
    }
}

/// With the dividers at the equalization targets, the first `m` of `n` teammates keep
/// `m / n` of the height. So the teammate below divider `k` gets `(k + 1) / n` times the
/// `1 / (k + 1)` that its divider leaves it, and the two teammates above the first divider
/// share `2 / n` equally: every teammate is `1 / n` tall.
pub proof fn law_even_heights(n: int, m: int)
    requires
        2 <= m <= n,
    ensures
        group_share(spec_targets(n), m).0 * n == group_share(spec_targets(n), m).1 * m,
    decreases n - m,
{
    let t = spec_targets(n);
    if m < n {
        law_even_heights(n, m + 1);
        let rest = group_share(t, m + 1);
        assert(t[m - 2] == ((m as nat), (m + 1) as nat));
        let a = rest.0 as int;
        let b = rest.1 as int;
        assert(a * n == b * (m + 1));
        assert((m * a) * n == ((m + 1) * b) * m) by (nonlinear_arith)
            requires
                a * n == b * (m + 1),
        ;
    }
}

proof fn lemma_drags_down(sorted: Seq<Seq<char>>, pairs: Seq<(Seq<char>, Seq<char>)>, i: int)
    requires
        0 <= i < sorted.len(),
        forall|j: int| 1 <= j <= i ==> lookup_id(pairs, #[trigger] sorted[j]) is Some,
    ensures
        drags_down(sorted, pairs, i).len() == i,
        forall|k: int|
            0 <= k < i ==> #[trigger] drags_down(sorted, pairs, i)[k] == drag_call(
                lookup_id(pairs, sorted[i - k])->0,
            ),
    decreases i,
{
    if i >= 1 {
        lemma_drags_down(sorted, pairs, i - 1);
        let head = seq![drag_call(lookup_id(pairs, sorted[i])->0)];
        assert(drags_down(sorted, pairs, i) == head + drags_down(sorted, pairs, i - 1));
        assert forall|k: int| 0 <= k < i implies #[trigger] drags_down(sorted, pairs, i)[k]
            == drag_call(lookup_id(pairs, sorted[i - k])->0) by {
            if k > 0 {
                assert(drags_down(sorted, pairs, i)[k] == drags_down(sorted, pairs, i - 1)[k - 1]);
            }
        }
    }
}

/// The spawn order of the teammates' surfaces: the surfaces their panes show, by number.
pub open spec fn spawn_order(resp: ListPanesResponse) -> Seq<Seq<char>> {
    sort_by_number(selected_refs(resp.panes@.skip(1)))
}

/// In the `main-vertical` plan for `n` teammates, once every teammate but the earliest has
/// a known id, the plan ends with one drag per such teammate, the latest spawned first:
/// drag `k` is for the `(n - 1 - k)`-th surface of the spawn order, so the surfaces
/// dragged come in falling surface number and the stack comes out in spawn order.
pub proof fn law_drags_latest_first(resp: ListPanesResponse)
    requires
        spec_main_vertical(resp) is Some,
        forall|j: int|
            1 <= j < resp.panes@.len() - 1 ==> lookup_id(
                id_pairs(resp.panes@),
                #[trigger] spawn_order(resp)[j],
            ) is Some,
    ensures
        ({
            let c = spec_main_vertical(resp)->0;
            let n = resp.panes@.len() - 1;
            let order = spawn_order(resp);
            &&& c.len() == 2 * n - 1
            &&& forall|k: int|
                0 <= k < n - 1 ==> #[trigger] c[n + k] == drag_call(
                    lookup_id(id_pairs(resp.panes@), order[n - 1 - k])->0,
                )
            &&& forall|k: int|
                0 <= k < n - 2 ==> surface_number(#[trigger] order[n - 1 - k]) >= surface_number(
                    order[n - 2 - k],
                )
        }),
{
    let panes = resp.panes@;
    let n = panes.len() - 1;
    let refs = selected_refs(panes.skip(1));
    let sorted = sort_by_number(refs);
    lemma_sort_len(refs);
    law_sort_ascends(refs);
    let pairs = id_pairs(panes);
    lemma_drags_down(sorted, pairs, n - 1);
    let moves = Seq::new((n - 1) as nat, |j: int| move_call(sorted[j + 1], panes[1].pane_ref@));
    let sel = seq![seq!["select-workspace"@, "--workspace"@, resp.workspace_ref@]];
    let drags = drags_down(sorted, pairs, n - 1);
    let c = spec_main_vertical(resp)->0;
    assert(c == moves + sel + drags);
    assert forall|k: int| 0 <= k < n - 1 implies #[trigger] c[n + k] == drag_call(
        lookup_id(pairs, sorted[n - 1 - k])->0,
    ) by {
        assert(c[n + k] == drags[k]);
    }
    assert forall|k: int| 0 <= k < n - 2 implies surface_number(#[trigger] sorted[n - 1 - k])
        >= surface_number(sorted[n - 2 - k]) by {
        assert(surface_number(sorted[n - 2 - k]) <= surface_number(sorted[n - 1 - k]));
    }
}

} // verus!
