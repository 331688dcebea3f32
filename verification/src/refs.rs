//! The references that the multiplexer hands out (`surface:N`, `workspace:N`, pane ids
//! written `%surface:N`), and how a command line names them.

use vstd::prelude::*;
use crate::text::{
    ends_with_char, find_from, find_in, is_ws, lemma_find_from, lemma_skip_ws, lemma_token_end, match_at, matches_at,
    opt_view, parse_decimal, parse_unsigned, push_char, skip_token, skip_ws, skip_ws_from,
    starts_with, string_of, to_chars, token_end,
};

verus! {

pub open spec fn surface_word() -> Seq<char> {
    seq!['s', 'u', 'r', 'f', 'a', 'c', 'e', ':']
}

pub open spec fn workspace_word() -> Seq<char> {
    seq!['w', 'o', 'r', 'k', 's', 'p', 'a', 'c', 'e']
}

/// A pane id as tmux writes it: the surface ref behind a `%`.
pub open spec fn pane_id(surface: Seq<char>) -> Seq<char> {
    seq!['%'] + surface
}

/// A target with one leading `%` taken off, if it has one.
pub open spec fn spec_strip_pane_prefix(s: Seq<char>) -> Seq<char> {
    if s.len() > 0 && s[0] == '%' {
        s.drop_first()
    } else {
        s
    }
}

/// A size written as a percentage, such as `30%`: the number before the `%`.
pub open spec fn spec_parse_percentage(s: Seq<char>) -> Option<nat> {
    if ends_with_char(s, '%') {
        parse_unsigned(s.drop_last(), u32::MAX as nat)
    } else {
        None
    }
}

/// The first whitespace-separated token of `s`, from position `k` on, that starts with
/// `surface:`.
pub open spec fn surface_token_from(s: Seq<char>, k: int) -> Option<Seq<char>>
    decreases s.len() + 1 - k,
{
    if k < 0 || k >= s.len() {
        None
    } else if is_ws(s[k]) {
        surface_token_from(s, k + 1)
    } else {
        let e = token_end(s, k);
        if starts_with(s.subrange(k, e), surface_word()) {
            Some(s.subrange(k, e))
        } else {
            proof {
                lemma_token_end(s, k);
            }
            surface_token_from(s, e)
        }
    }
}

pub open spec fn spec_parse_surface(s: Seq<char>) -> Option<Seq<char>> {
    surface_token_from(s, 0)
}

/// Where the `:`-separated piece of `s` that starts at `k` ends.
pub open spec fn piece_end(s: Seq<char>, k: int) -> int {
    match find_from(s, seq![':'], k) {
        Some(e) => e,
        None => s.len() as int,
    }
}

/// Scanning the `:`-separated pieces of `s` from the piece that starts at `k`: the first
/// piece `workspace` that has a next piece, as `workspace:` followed by that next piece.
pub open spec fn workspace_from(s: Seq<char>, k: int) -> Option<Seq<char>>
    decreases s.len() + 1 - k,
{
    if k < 0 || k > s.len() {
        None
    } else {
        let e = piece_end(s, k);
        if e >= s.len() {
            None
        } else if s.subrange(k, e) == workspace_word() {
            Some(workspace_word().push(':') + s.subrange(e + 1, piece_end(s, e + 1)))
        } else {
            proof {
                lemma_find_from(s, seq![':'], k);
            }
            workspace_from(s, e + 1)
        }
    }
}

pub open spec fn spec_extract_workspace_ref(target: Seq<char>) -> Option<Seq<char>> {
    workspace_from(target, 0)
}

/// The target with a leading `%` removed, so that a pane id names its surface again.
pub fn strip_pane_prefix(s: &str) -> (r: String)
    ensures
        r@ == spec_strip_pane_prefix(s@),
{
    let n = s.unicode_len();
    if n > 0 && s.get_char(0) == '%' {
        s.substring_char(1, n).to_owned()
    } else {
        s.to_owned()
    }
}

/// The pane id under which a surface is reported to tmux clients.
pub fn pane_id_line(surface: &str) -> (r: String)
    ensures
        r@ == pane_id(surface@),
{
    let mut r = String::new();
    push_char(&mut r, '%');
    r.append(surface);
    r
}

/// A size such as `30%` as the number 30; `None` for anything that is not a number
/// followed by `%`.
pub fn parse_percentage(s: &str) -> (r: Option<u32>)
    ensures
        match spec_parse_percentage(s@) {
            Some(v) => r == Some(v as u32),
            None => r is None,
        },
{
    let chars = to_chars(s);
    let n = chars.len();
    if n == 0 || chars[n - 1] != '%' {
        return None;
    }
    let mut digits = chars.clone();
    digits.pop();
    assert(digits@ =~= s@.drop_last());
    match parse_decimal(&digits, 0xffff_ffff) {
        Some(v) => Some(v as u32),
        None => None,
    }
}

/// The first whitespace-separated token of a reply that starts with `surface:`,
/// such as `surface:11` in `OK surface:11 workspace:2`.
pub fn parse_surface_from_response(resp: &str) -> (r: Option<String>)
    ensures
        opt_view(r) == spec_parse_surface(resp@),
{
    let s = to_chars(resp);
    let word: Vec<char> = vec!['s', 'u', 'r', 'f', 'a', 'c', 'e', ':'];
    assert(word@ =~= surface_word());
    let mut k: usize = 0;
    loop
        invariant
            k <= s@.len(),
            word@ == surface_word(),
            s@ == resp@,
            surface_token_from(s@, 0) == surface_token_from(s@, k as int),
        decreases s@.len() - k,
    {
        let start = skip_ws(&s, k);
        proof {
            lemma_surface_skip_ws(s@, k as int);
        }
        if start >= s.len() {
            return None;
        }
        let end = skip_token(&s, start);
        proof {
            lemma_skip_ws(s@, k as int);
            lemma_token_end(s@, start as int);
            lemma_token_end(s@, start + 1);
        }
        assert(end > start);
        let has_word = end - start >= 8 && matches_at(&s, &word, start);
        assert(has_word == starts_with(s@.subrange(start as int, end as int), surface_word())) by {
            if end - start >= 8 {
                assert(s@.subrange(start as int, end as int).take(8) =~= s@.subrange(
                    start as int,
                    start + 8,
                ));
            }
        }
        if has_word {
            return Some(string_of(&s, start, end));
        }
        k = end;
    }
}

proof fn lemma_surface_skip_ws(s: Seq<char>, k: int)
    requires
        0 <= k <= s.len(),
    ensures
        surface_token_from(s, k) == surface_token_from(s, skip_ws_from(s, k)),
    decreases s.len() + 1 - k,
{
    if k < s.len() && is_ws(s[k]) {
        lemma_surface_skip_ws(s, k + 1);
    }
}

/// The `workspace:N` named inside a compound target such as `window:1:workspace:2`.
pub fn extract_workspace_ref(target: &str) -> (r: Option<String>)
    ensures
        opt_view(r) == spec_extract_workspace_ref(target@),
{
    let s = to_chars(target);
    let colon: Vec<char> = vec![':'];
    let word: Vec<char> = vec!['w', 'o', 'r', 'k', 's', 'p', 'a', 'c', 'e'];
    assert(colon@ =~= seq![':']);
    assert(word@ =~= workspace_word());
    let mut k: usize = 0;
    loop
        invariant
            k <= s@.len(),
            colon@ == seq![':'],
            word@ == workspace_word(),
            s@ == target@,
            workspace_from(s@, 0) == workspace_from(s@, k as int),
        decreases s@.len() - k,
    {
        proof {
            lemma_find_from(s@, seq![':'], k as int);
        }
        let e = match find_in(&s, &colon, k) {
            Some(e) => e,
            None => s.len(),
        };
        assert(e as int == piece_end(s@, k as int));
        if e >= s.len() {
            return None;
        }
        let is_word = e - k == 9 && matches_at(&s, &word, k);
        assert(is_word == (s@.subrange(k as int, e as int) == workspace_word())) by {
            if e - k == 9 && match_at(s@, word@, k as int) {
                assert(s@.subrange(k as int, e as int) =~= s@.subrange(k as int, k + 9));
            }
        }
        if is_word {
            proof {
                lemma_find_from(s@, seq![':'], e + 1);
            }
            let e2 = match find_in(&s, &colon, e + 1) {
                Some(e2) => e2,
                None => s.len(),
            };
            let mut r = String::new();
            r.append("workspace:");
            let piece = string_of(&s, e + 1, e2);
            r.append(piece.as_str());
            proof {
                reveal_strlit("workspace:");
                assert("workspace:"@ =~= workspace_word().push(':'));
            }
            return Some(r);
        }
        k = e + 1;
    }
}

} // verus!

verus! {

/// A pane id that the bridge prints, given back as a target, names the same surface.
pub proof fn law_pane_id_round_trip(surface: Seq<char>)
    ensures
        spec_strip_pane_prefix(pane_id(surface)) == surface,
{
    assert(pane_id(surface).drop_first() =~= surface);
}

proof fn lemma_surface_token(s: Seq<char>, k: int)
    requires
        0 <= k <= s.len(),
    ensures
        surface_token_from(s, k) matches Some(t) ==> starts_with(t, surface_word()) && forall|
            m: int,
        | 0 <= m < t.len() ==> !is_ws(#[trigger] t[m]),
    decreases s.len() + 1 - k,
{
    if k < s.len() {
        if is_ws(s[k]) {
            lemma_surface_token(s, k + 1);
        } else {
            lemma_token_end(s, k);
            let e = token_end(s, k);
            if !starts_with(s.subrange(k, e), surface_word()) {
                lemma_surface_token(s, e);
            } else {
                assert forall|m: int| 0 <= m < e - k implies !is_ws(
                    #[trigger] s.subrange(k, e)[m],
                ) by {
                    assert(s.subrange(k, e)[m] == s[k + m]);
                }
            }
        }
    }
}

/// The surface ref read from a reply starts with `surface:`, holds no whitespace, and
/// reads back as itself.
pub proof fn law_surface_ref_reads_back(reply: Seq<char>)
    ensures
        spec_parse_surface(reply) matches Some(t) ==> starts_with(t, surface_word()) && forall|
            m: int,
        | 0 <= m < t.len() ==> !is_ws(#[trigger] t[m]) && spec_parse_surface(t) == Some(t),
{
    lemma_surface_token(reply, 0);
    if let Some(t) = spec_parse_surface(reply) {
        assert(t[0] == surface_word()[0]) by {
            assert(t.take(8)[0] == t[0]);
        }
        lemma_token_end(t, 0);
        assert(token_end(t, 0) == t.len());
        assert(t.subrange(0, t.len() as int) =~= t);
    }
}

proof fn lemma_no_colon(s: Seq<char>, a: int, b: int)
    requires
        0 <= a <= b <= s.len(),
        forall|m: int| a <= m < b ==> !match_at(s, seq![':'], m),
    ensures
        forall|m: int| 0 <= m < b - a ==> #[trigger] s.subrange(a, b)[m] != ':',
{
    assert forall|m: int| 0 <= m < b - a implies #[trigger] s.subrange(a, b)[m] != ':' by {
        if s[a + m] == ':' {
            assert(s.subrange(a + m, a + m + 1) =~= seq![':']);
            assert(match_at(s, seq![':'], a + m));
        }
    }
}

proof fn lemma_workspace_shape(s: Seq<char>, k: int)
    requires
        0 <= k <= s.len(),
    ensures
        workspace_from(s, k) matches Some(w) ==> exists|p: Seq<char>|
            w == workspace_word().push(':') + p && forall|m: int|
                0 <= m < p.len() ==> #[trigger] p[m] != ':',
    decreases s.len() + 1 - k,
{
    lemma_find_from(s, seq![':'], k);
    let e = piece_end(s, k);
    if e < s.len() {
        if s.subrange(k, e) == workspace_word() {
            lemma_find_from(s, seq![':'], e + 1);
            let pe = piece_end(s, e + 1);
            lemma_no_colon(s, e + 1, pe);
            let p = s.subrange(e + 1, pe);
            assert(workspace_from(s, k) == Some(workspace_word().push(':') + p));
        } else {
            lemma_workspace_shape(s, e + 1);
        }
    }
}

/// The `workspace:N` found in a target, used as a target itself, is found again as it
/// stands.
pub proof fn law_workspace_ref_reads_back(target: Seq<char>)
    ensures
        spec_extract_workspace_ref(target) matches Some(w) ==> starts_with(
            w,
            workspace_word().push(':'),
        ) && spec_extract_workspace_ref(w) == Some(w),
{
    lemma_workspace_shape(target, 0);
    if let Some(w) = spec_extract_workspace_ref(target) {
        let p = choose|p: Seq<char>|
            w == workspace_word().push(':') + p && forall|m: int|
                0 <= m < p.len() ==> #[trigger] p[m] != ':';
        let head = workspace_word().push(':');
        assert(w.take(10) =~= head);
        assert(match_at(w, seq![':'], 9)) by {
            assert(w.subrange(9, 10) =~= seq![':']);
        }
        lemma_find_from(w, seq![':'], 0);
        assert forall|m: int| 0 <= m < 9 implies !match_at(w, seq![':'], m) by {
            if match_at(w, seq![':'], m) {
                assert(w.subrange(m, m + 1)[0] == w[m]);
            }
        }
        assert(piece_end(w, 0) == 9);
        assert(w.subrange(0, 9) =~= workspace_word());
        lemma_find_from(w, seq![':'], 10);
        assert forall|m: int| 10 <= m implies !match_at(w, seq![':'], m) by {
            if match_at(w, seq![':'], m) {
                assert(w.subrange(m, m + 1)[0] == w[m]);
                assert(w[m] == p[m - 10]);
            }
        }
        assert(piece_end(w, 10) == w.len());
        assert(w.subrange(10, w.len() as int) =~= p);
        assert(workspace_from(w, 0) == Some(head + p));
    }
}

/// The decimal text of any `u32` with `%` after it reads back as that number, there being
/// no bound of 100; the number alone, without `%`, is no percentage.
pub proof fn law_percentage_round_trip(n: u32)
    ensures
        spec_parse_percentage(crate::text::decimal_text(n as nat).push('%')) == Some(n as nat),
        spec_parse_percentage(crate::text::decimal_text(n as nat)) is None,
{
    let t = crate::text::decimal_text(n as nat);
    crate::text::lemma_decimal_text(n as nat);
    assert(t.push('%').drop_last() =~= t);
    assert(crate::text::is_digit(t[0]));
    assert(crate::text::is_digit(t.last()));
}

} // verus!
