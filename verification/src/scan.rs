//! Reading values out of the multiplexer's JSON replies by scanning their text: a string
//! field by its key, an object by its matching brace, a surface ref inside a line.

use vstd::prelude::*;
use vstd::string::StringSliceAdditionalSpecFns;
use vstd::utf8::{char_is_scalar, encode_scalar, encode_utf8};
use crate::refs::surface_word;
use crate::text::{
    find, find_from, find_in, is_whitespace, is_ws, lemma_char_absent, lemma_find_from,
    lemma_skip_ws, match_at, matches_at, opt_int, skip_ws, skip_ws_from, starts_with, string_of, to_chars,
};

verus! {

/// `"key"`, as the key appears in JSON text.
pub open spec fn quoted(key: Seq<char>) -> Seq<char> {
    seq!['"'] + key + seq!['"']
}

pub open spec fn null_word() -> Seq<char> {
    seq!['n', 'u', 'l', 'l']
}

/// `"key"` stands as a key at position `j`: it is followed by optional whitespace and a
/// `:`. The same text elsewhere, such as a string value, is no key.
pub open spec fn key_at(json: Seq<char>, key: Seq<char>, j: int) -> bool {
    &&& match_at(json, quoted(key), j)
    &&& {
        let p = skip_ws_from(json, j + quoted(key).len());
        p < json.len() && json[p] == ':'
    }
}

/// The first position at or after `i` where `key` stands as a key.
pub open spec fn key_from(json: Seq<char>, key: Seq<char>, i: int) -> Option<int>
    decreases json.len() + 1 - i,
{
    if i < 0 || i >= json.len() {
        None
    } else if key_at(json, key, i) {
        Some(i)
    } else {
        key_from(json, key, i + 1)
    }
}

/// Where the value of the first `key` that stands as a key begins: past the `:` and the
/// whitespace around it.
pub open spec fn value_start(json: Seq<char>, key: Seq<char>) -> Option<int> {
    match key_from(json, key, 0) {
        None => None,
        Some(i) => Some(skip_ws_from(json, skip_ws_from(json, i + quoted(key).len()) + 1)),
    }
}

/// Where the string value of `key` lies in `json`: the value of the first `"key"` that
/// stands as a key, when it opens with `"`; it runs up to the next `"`. A value written
/// `null`, a value that is no string, or a missing key gives none.
pub open spec fn json_str_span(json: Seq<char>, key: Seq<char>) -> Option<(int, int)> {
    match value_start(json, key) {
        None => None,
        Some(q) => if starts_with(json.skip(q), null_word()) {
            None
        } else if q < json.len() && json[q] == '"' {
            match find_from(json, seq!['"'], q + 1) {
                Some(e) => Some((q + 1, e)),
                None => None,
            }
        } else {
            None
        },
    }
}

pub open spec fn spec_json_str(json: Seq<char>, key: Seq<char>) -> Option<Seq<char>> {
    match json_str_span(json, key) {
        Some((a, b)) => Some(json.subrange(a, b)),
        None => None,
    }
}

/// The count of `{` minus the count of `}` among the first `i` chars of `s`.
pub open spec fn brace_depth(s: Seq<char>, i: int) -> int
    decreases i,
{
    if i <= 0 {
        0
    } else {
        let d = brace_depth(s, i - 1);
        if s[i - 1] == '{' {
            d + 1
        } else if s[i - 1] == '}' {
            d - 1
        } else {
            d
        }
    }
}

/// Position `i` holds a `}` that brings the brace count back to zero.
pub open spec fn closes_at(s: Seq<char>, i: int) -> bool {
    0 <= i < s.len() && s[i] == '}' && brace_depth(s, i + 1) == 0
}

/// The first position at or after `i` that [`closes_at`].
pub open spec fn closing_from(s: Seq<char>, i: int) -> Option<int>
    decreases s.len() + 1 - i,
{
    if i < 0 || i >= s.len() {
        None
    } else if closes_at(s, i) {
        Some(i)
    } else {
        closing_from(s, i + 1)
    }
}

/// The position of the brace that closes the object that `s` opens.
pub open spec fn matching_brace(s: Seq<char>) -> Option<int> {
    closing_from(s, 0)
}

/// The object that is the value of the first `label` that stands as a key: from its `{`
/// up to the matching `}`, both included. None when that value is no object (such as
/// `null`) or the label is missing.
pub open spec fn object_after(json: Seq<char>, label: Seq<char>) -> Option<Seq<char>> {
    match value_start(json, label) {
        None => None,
        Some(q) => if q < json.len() && json[q] == '{' {
            let obj = json.skip(q);
            match matching_brace(obj) {
                None => None,
                Some(e) => Some(obj.take(e + 1)),
            }
        } else {
            None
        },
    }
}

/// The string value of `field` inside the object that is the value of `label`.
pub open spec fn section_value(json: Seq<char>, label: Seq<char>, field: Seq<char>) -> Option<
    Seq<char>,
> {
    match object_after(json, label) {
        None => None,
        Some(obj) => spec_json_str(obj, field),
    }
}

pub open spec fn caller_label() -> Seq<char> {
    seq!['c', 'a', 'l', 'l', 'e', 'r']
}

pub open spec fn focused_label() -> Seq<char> {
    seq!['f', 'o', 'c', 'u', 's', 'e', 'd']
}

/// The ref named `field` from an identify reply: the caller's if the caller is an object
/// that has one, else the focused surface's, else empty.
pub open spec fn spec_extract_ref(json: Seq<char>, field: Seq<char>) -> Seq<char> {
    match section_value(json, caller_label(), field) {
        Some(v) => v,
        None => match section_value(json, focused_label(), field) {
            Some(v) => v,
            None => Seq::empty(),
        },
    }
}

/// A char that ends a surface ref inside a line: whitespace, `,` or `}`.
pub open spec fn ends_ref(c: char) -> bool {
    is_ws(c) || c == ',' || c == '}'
}

/// The first position at or after `i` that [`ends_ref`] (or the end).
pub open spec fn ref_end_from(s: Seq<char>, i: int) -> int
    decreases s.len() + 1 - i,
{
    if i < 0 || i >= s.len() || ends_ref(s[i]) {
        i
    } else {
        ref_end_from(s, i + 1)
    }
}

/// The surface ref that starts at the first `surface:` of a line, if a number (or anything)
/// follows the colon before the ref ends.
pub open spec fn spec_extract_surface_ref(line: Seq<char>) -> Option<Seq<char>> {
    match find(line, surface_word()) {
        None => None,
        Some(i) => {
            let e = ref_end_from(line, i);
            if e - i > surface_word().len() {
                Some(line.subrange(i, e))
            } else {
                None
            }
        },
    }
}

pub proof fn lemma_encode_concat(a: Seq<char>, b: Seq<char>)
    ensures
        encode_utf8(a + b) == encode_utf8(a) + encode_utf8(b),
    decreases a.len(),
{
    if a.len() == 0 {
        assert(a + b =~= b);
        assert(encode_utf8(a) =~= Seq::<u8>::empty());
        assert(encode_utf8(a) + encode_utf8(b) =~= encode_utf8(b));
    } else {
        assert((a + b).drop_first() =~= a.drop_first() + b);
        assert((a + b)[0] == a[0]);
        lemma_encode_concat(a.drop_first(), b);
        assert(encode_utf8(a + b) =~= encode_scalar(a[0] as u32) + (encode_utf8(a.drop_first())
            + encode_utf8(b)));
    }
}

/// The number of bytes that UTF-8 takes for `c`.
pub fn utf8_width(c: char) -> (w: usize)
    ensures
        w == encode_scalar(c as u32).len(),
        w == encode_utf8(seq![c]).len(),
{
    proof {
        char_is_scalar(c);
        assert(seq![c].drop_first() =~= Seq::<char>::empty());
        assert(encode_utf8(Seq::<char>::empty()) =~= Seq::<u8>::empty());
        assert(encode_utf8(seq![c]) =~= encode_scalar(c as u32));
    }
    let u = c as u32;
    if u < 0x80 {
        1
    } else if u < 0x800 {
        2
    } else if u < 0x10000 {
        3
    } else {
        4
    }
}

/// A copy of `v[lo..hi]`.
pub fn slice_chars(v: &Vec<char>, lo: usize, hi: usize) -> (r: Vec<char>)
    requires
        lo <= hi <= v@.len(),
    ensures
        r@ == v@.subrange(lo as int, hi as int),
{
    let mut r: Vec<char> = Vec::new();
    let mut i = lo;
    while i < hi
        invariant
            lo <= i <= hi <= v@.len(),
            r@ == v@.subrange(lo as int, i as int),
        decreases hi - i,
    {
        r.push(v[i]);
        assert(v@.subrange(lo as int, i + 1) =~= v@.subrange(lo as int, i as int).push(v@[i as int]));
        i += 1;
    }
    r
}

/// Where the value of the first `key` that stands as a key begins, as [`value_start`]
/// says.
pub fn value_start_of(json: &Vec<char>, key: &Vec<char>) -> (r: Option<usize>)
    ensures
        opt_int(r) == value_start(json@, key@),
        r matches Some(q) ==> q <= json@.len(),
{
    let mut needle: Vec<char> = Vec::new();
    needle.push('"');
    let mut k: usize = 0;
    while k < key.len()
        invariant
            k <= key@.len(),
            needle@ == seq!['"'] + key@.take(k as int),
        decreases key.len() - k,
    {
        needle.push(key[k]);
        assert(key@.take(k + 1) =~= key@.take(k as int).push(key@[k as int]));
        assert(seq!['"'] + key@.take(k + 1) =~= (seq!['"'] + key@.take(k as int)).push(
            key@[k as int],
        ));
        k += 1;
    }
    needle.push('"');
    assert(key@.take(key@.len() as int) =~= key@);
    assert(needle@ =~= quoted(key@));
    let mut i: usize = 0;
    while i < json.len()
        invariant
            i <= json@.len(),
            needle@ == quoted(key@),
            key_from(json@, key@, 0) == key_from(json@, key@, i as int),
        decreases json@.len() - i,
    {
        if matches_at(json, &needle, i) {
            let p = skip_ws(json, i + needle.len());
            if p < json.len() && json[p] == ':' {
                assert(key_at(json@, key@, i as int));
                let q = skip_ws(json, p + 1);
                return Some(q);
            }
        }
        i += 1;
    }
    None
}

/// Where the string value of `key` lies in `json`, as [`json_str_span`] says.
pub fn json_value_span(json: &Vec<char>, key: &Vec<char>) -> (r: Option<(usize, usize)>)
    ensures
        r is Some <==> json_str_span(json@, key@) is Some,
        r matches Some((a, b)) ==> json_str_span(json@, key@) == Some((a as int, b as int)) && a
            <= b <= json@.len(),
{
    let q = match value_start_of(json, key) {
        None => {
            return None;
        },
        Some(q) => q,
    };
    let null_chars: Vec<char> = vec!['n', 'u', 'l', 'l'];
    assert(null_chars@ =~= null_word());
    let is_null = matches_at(json, &null_chars, q);
    assert(is_null == starts_with(json@.skip(q as int), null_word())) by {
        if q + 4 <= json@.len() {
            assert(json@.skip(q as int).take(4) =~= json@.subrange(q as int, q + 4));
        }
    }
    if is_null {
        return None;
    }
    if !(q < json.len() && json[q] == '"') {
        return None;
    }
    let quote: Vec<char> = vec!['"'];
    assert(quote@ =~= seq!['"']);
    proof {
        lemma_find_from(json@, seq!['"'], q + 1);
    }
    match find_in(json, &quote, q + 1) {
        Some(e) => Some((q + 1, e)),
        None => None,
    }
}

/// The string value of `key` in a JSON text such as `"key": "value"`, taken where the key
/// first stands as a key (followed by `:`), so that the same text as a value is passed
/// over; `None` when the key is missing, its value is `null`, or it is not a string.
pub fn json_str<'a>(json: &'a str, key: &str) -> (r: Option<&'a str>)
    ensures
        match spec_json_str(json@, key@) {
            Some(v) => r is Some && r->0@ == v,
            None => r is None,
        },
{
    let chars = to_chars(json);
    let key_chars = to_chars(key);
    match json_value_span(&chars, &key_chars) {
        Some((a, b)) => Some(json.substring_char(a, b)),
        None => None,
    }
}

pub proof fn lemma_closing_from(s: Seq<char>, i: int)
    requires
        0 <= i,
    ensures
        closing_from(s, i) matches Some(j) ==> i <= j < s.len() && closes_at(s, j),
    decreases s.len() + 1 - i,
{
    if i < s.len() && !closes_at(s, i) {
        lemma_closing_from(s, i + 1);
    }
}

proof fn lemma_closing_step(s: Seq<char>, i: int)
    requires
        0 <= i < s.len(),
        !closes_at(s, i),
    ensures
        closing_from(s, i) == closing_from(s, i + 1),
{
}

/// The position (in chars) of the brace that closes the object `s` opens.
pub fn matching_brace_index(s: &Vec<char>) -> (r: Option<usize>)
    ensures
        opt_int(r) == matching_brace(s@),
{
    let mut depth: i128 = 0;
    let mut i: usize = 0;
    while i < s.len()
        invariant
            i <= s@.len(),
            depth as int == brace_depth(s@, i as int),
            -(i as int) <= depth <= i,
            closing_from(s@, 0) == closing_from(s@, i as int),
        decreases s@.len() - i,
    {
        let c = s[i];
        if c == '{' {
            depth += 1;
        } else if c == '}' {
            depth -= 1;
            if depth == 0 {
                assert(closes_at(s@, i as int));
                return Some(i);
            }
        }
        proof {
            lemma_closing_step(s@, i as int);
        }
        i += 1;
    }
    None
}

/// The byte offset of the brace that closes the object `s` opens, as `str` slicing counts.
pub fn find_matching_brace(s: &str) -> (r: Option<usize>)
    requires
        s.spec_bytes().len() <= usize::MAX,
    ensures
        match matching_brace(s@) {
            Some(i) => r == Some(encode_utf8(s@.take(i)).len() as usize),
            None => r is None,
        },
{
    let chars = to_chars(s);
    proof {
        lemma_closing_from(s@, 0);
    }
    match matching_brace_index(&chars) {
        None => None,
        Some(m) => {
            let ghost total = encode_utf8(s@).len();
            let mut bytes: usize = 0;
            let mut j: usize = 0;
            proof {
                assert(s@.take(m as int) + s@.skip(m as int) =~= s@);
                lemma_encode_concat(s@.take(m as int), s@.skip(m as int));
                assert(s@.take(0) =~= Seq::<char>::empty());
            }
            while j < m
                invariant
                    j <= m < chars@.len(),
                    chars@ == s@,
                    bytes == encode_utf8(s@.take(j as int)).len(),
                    encode_utf8(s@.take(m as int)).len() <= total,
                    total == encode_utf8(s@).len(),
                    total <= usize::MAX,
                decreases m - j,
            {
                let w = utf8_width(chars[j]);
                proof {
                    assert(s@.take(j + 1) =~= s@.take(j as int) + seq![s@[j as int]]);
                    lemma_encode_concat(s@.take(j as int), seq![s@[j as int]]);
                    assert(s@.take(m as int) =~= s@.take(j + 1) + s@.subrange(j + 1, m as int));
                    lemma_encode_concat(s@.take(j + 1), s@.subrange(j + 1, m as int));
                }
                bytes = bytes + w;
                j += 1;
            }
            Some(bytes)
        },
    }
}

/// A copy of the object that is the value of `label`, as [`object_after`] says.
fn object_after_label(json: &Vec<char>, label: &Vec<char>) -> (r: Option<Vec<char>>)
    ensures
        match object_after(json@, label@) {
            Some(obj) => r is Some && r->0@ == obj,
            None => r is None,
        },
{
    let q = match value_start_of(json, label) {
        None => {
            return None;
        },
        Some(q) => q,
    };
    if !(q < json.len() && json[q] == '{') {
        return None;
    }
    let obj = slice_chars(json, q, json.len());
    assert(obj@ =~= json@.skip(q as int));
    proof {
        lemma_closing_from(obj@, 0);
    }
    match matching_brace_index(&obj) {
        None => None,
        Some(e) => {
            let piece = slice_chars(&obj, 0, e + 1);
            assert(piece@ =~= obj@.take(e + 1));
            Some(piece)
        },
    }
}

/// The string value of `field` inside the object that is the value of `label`.
fn section_value_of(json: &Vec<char>, label: &Vec<char>, field: &Vec<char>) -> (r: Option<String>)
    ensures
        match section_value(json@, label@, field@) {
            Some(v) => r is Some && r->0@ == v,
            None => r is None,
        },
{
    match object_after_label(json, label) {
        None => None,
        Some(obj) => match json_value_span(&obj, field) {
            Some((a, b)) => Some(string_of(&obj, a, b)),
            None => None,
        },
    }
}

/// The ref named `field` (such as `surface_ref`) from the reply to `identify --json`: the
/// caller's value when the caller is an object that has one, else the focused object's,
/// else empty.
pub fn extract_ref(json: &str, field: &str) -> (r: String)
    ensures
        r@ == spec_extract_ref(json@, field@),
{
    let chars = to_chars(json);
    let field_chars = to_chars(field);
    let caller: Vec<char> = vec!['c', 'a', 'l', 'l', 'e', 'r'];
    assert(caller@ =~= caller_label());
    if let Some(v) = section_value_of(&chars, &caller, &field_chars) {
        return v;
    }
    let focused: Vec<char> = vec!['f', 'o', 'c', 'u', 's', 'e', 'd'];
    assert(focused@ =~= focused_label());
    if let Some(v) = section_value_of(&chars, &focused, &field_chars) {
        return v;
    }
    String::new()
}

/// The surface ref in one line of `list-pane-surfaces` output: from the first `surface:`
/// up to whitespace, `,` or `}`, provided something follows the colon.
pub fn extract_surface_ref(line: &str) -> (r: Option<&str>)
    ensures
        match spec_extract_surface_ref(line@) {
            Some(v) => r is Some && r->0@ == v,
            None => r is None,
        },
{
    let s = to_chars(line);
    let word: Vec<char> = vec!['s', 'u', 'r', 'f', 'a', 'c', 'e', ':'];
    assert(word@ =~= surface_word());
    proof {
        lemma_find_from(s@, surface_word(), 0);
    }
    let i = match find_in(&s, &word, 0) {
        None => {
            return None;
        },
        Some(i) => i,
    };
    let mut e = i;
    while e < s.len() && !(is_whitespace(s[e]) || s[e] == ',' || s[e] == '}')
        invariant
            i <= e <= s@.len(),
            ref_end_from(s@, i as int) == ref_end_from(s@, e as int),
        decreases s@.len() - e,
    {
        e += 1;
    }
    if e - i > 8 {
        Some(line.substring_char(i, e))
    } else {
        None
    }
}

} // verus!

verus! {

proof fn lemma_key_from(json: Seq<char>, key: Seq<char>, i: int)
    requires
        0 <= i,
    ensures
        key_from(json, key, i) matches Some(j) ==> i <= j < json.len() && key_at(json, key, j),
    decreases json.len() + 1 - i,
{
    if i < json.len() && !key_at(json, key, i) {
        lemma_key_from(json, key, i + 1);
    }
}

/// Where a value begins lies within the text.
pub proof fn lemma_value_start(json: Seq<char>, key: Seq<char>)
    ensures
        value_start(json, key) matches Some(q) ==> 0 <= q <= json.len(),
{
    lemma_key_from(json, key, 0);
    if let Some(i) = key_from(json, key, 0) {
        lemma_skip_ws(json, i + quoted(key).len());
        let p = skip_ws_from(json, i + quoted(key).len());
        lemma_skip_ws(json, p + 1);
    }
}

/// A string value read out of JSON text holds no `"`.
pub proof fn law_json_value_unquoted(json: Seq<char>, key: Seq<char>)
    ensures
        spec_json_str(json, key) matches Some(v) ==> forall|m: int|
            0 <= m < v.len() ==> #[trigger] v[m] != '"',
{
    lemma_value_start(json, key);
    if let Some(q) = value_start(json, key) {
        if q < json.len() {
            lemma_find_from(json, seq!['"'], q + 1);
            if let Some(e) = find_from(json, seq!['"'], q + 1) {
                lemma_char_absent(json, '"', q + 1, e);
            }
        }
    }
}

/// The ref read from an identify reply holds no `"`.
pub proof fn law_identify_ref_unquoted(json: Seq<char>, field: Seq<char>)
    ensures
        forall|m: int|
            0 <= m < spec_extract_ref(json, field).len() ==> #[trigger] spec_extract_ref(
                json,
                field,
            )[m] != '"',
{
    if let Some(obj) = object_after(json, caller_label()) {
        law_json_value_unquoted(obj, field);
    }
    if let Some(obj) = object_after(json, focused_label()) {
        law_json_value_unquoted(obj, field);
    }
}

proof fn lemma_brace_depth_prefix(s: Seq<char>, k: int, i: int)
    requires
        0 <= i <= k <= s.len(),
    ensures
        brace_depth(s.take(k), i) == brace_depth(s, i),
    decreases i,
{
    if i > 0 {
        lemma_brace_depth_prefix(s, k, i - 1);
        assert(s.take(k)[i - 1] == s[i - 1]);
    }
}

/// The object read as the value of a label is whole: it opens with `{`, closes with `}`,
/// and holds as many of the one as of the other.
pub proof fn law_object_balanced(json: Seq<char>, label: Seq<char>)
    ensures
        object_after(json, label) matches Some(obj) ==> obj.len() >= 2 && obj[0] == '{'
            && obj.last() == '}' && brace_depth(obj, obj.len() as int) == 0,
{
    lemma_value_start(json, label);
    if let Some(q) = value_start(json, label) {
        if q < json.len() && json[q] == '{' {
            let full = json.skip(q);
            lemma_closing_from(full, 0);
            if let Some(e) = matching_brace(full) {
                let obj = full.take(e + 1);
                assert(brace_depth(full, 0) == 0);
                assert(full[0] == '{');
                assert(brace_depth(full, 1) == 1);
                assert(e != 0);
                lemma_brace_depth_prefix(full, e + 1, e + 1);
                assert(obj.last() == full[e]);
            }
        }
    }
}

} // verus!
