//! The tmux command line: global flags before the subcommand, and `-t` targets.

use vstd::prelude::*;
use crate::refs::{spec_strip_pane_prefix, strip_pane_prefix};
use crate::text::{same, views};

verus! {

/// What a tmux command line asks for once the global flags are read.
pub enum Invocation {
    /// No subcommand: the bridge announces itself.
    Banner,
    /// `-V`: the bridge reports its version.
    Version,
    /// A subcommand with the arguments that follow it.
    Command { name: String, rest: Vec<String> },
}

/// The shape of an [`Invocation`] over the views of its strings.
pub enum Request {
    Banner,
    Version,
    Command(Seq<char>, Seq<Seq<char>>),
}

pub open spec fn request_of(inv: Invocation) -> Request {
    match inv {
        Invocation::Banner => Request::Banner,
        Invocation::Version => Request::Version,
        Invocation::Command { name, rest } => Request::Command(name@, views(rest@)),
    }
}

/// Reading global flags from position `i`: `-V` asks for the version, `-L` and the socket
/// name after it are passed over, and the first other word is the subcommand.
pub open spec fn request_from(args: Seq<Seq<char>>, i: int) -> Request
    decreases args.len() + 1 - i,
{
    if i < 0 || i >= args.len() {
        Request::Banner
    } else if args[i] == "-V"@ {
        Request::Version
    } else if args[i] == "-L"@ {
        request_from(args, i + 2)
    } else {
        Request::Command(args[i], args.skip(i + 1))
    }
}

/// The request that a whole command line makes.
pub open spec fn spec_request(args: Seq<Seq<char>>) -> Request {
    request_from(args, 0)
}

/// Reads the global flags and finds the subcommand.
pub fn parse_invocation(args: &Vec<String>) -> (r: Invocation)
    ensures
        request_of(r) == spec_request(views(args@)),
{
    let ghost a = views(args@);
    let mut i: usize = 0;
    while i < args.len()
        invariant
            a == views(args@),
            request_from(a, 0) == request_from(a, i as int),
        decreases args.len() - i,
    {
        if same(&args[i], "-V") {
            return Invocation::Version;
        } else if same(&args[i], "-L") {
            if args.len() - i < 2 {
                assert(request_from(a, i + 2) == Request::Banner);
                return Invocation::Banner;
            }
            i += 2;
        } else {
            let name = args[i].clone();
            let mut rest: Vec<String> = Vec::new();
            let mut j = i + 1;
            while j < args.len()
                invariant
                    i < j <= args@.len(),
                    a == views(args@),
                    views(rest@) == a.subrange(i + 1, j as int),
                decreases args.len() - j,
            {
                let ghost old_rest = rest@;
                rest.push(args[j].clone());
                assert(rest@ =~= old_rest.push(args@[j as int]));
                assert(views(rest@) =~= views(old_rest).push(a[j as int]));
                assert(views(rest@) =~= a.subrange(i + 1, j + 1));
                j += 1;
            }
            assert(a.skip(i + 1) =~= a.subrange(i + 1, args@.len() as int));
            return Invocation::Command { name, rest };
        }
    }
    Invocation::Banner
}

/// A cursor over the arguments of a subcommand, read one at a time.
pub struct ArgCursor {
    pub args: Vec<String>,
    pub pos: usize,
}

impl ArgCursor {
    pub fn new(args: &Vec<String>) -> (r: ArgCursor)
        ensures
            r.args@ == args@,
            r.pos == 0,
    {
        ArgCursor { args: args.clone(), pos: 0 }
    }
}

/// The value of a flag: the next argument, if there is one.
pub fn parse_flag_value(cursor: &mut ArgCursor) -> (r: Option<String>)
    ensures
        final(cursor).args@ == old(cursor).args@,
        old(cursor).pos < old(cursor).args@.len() ==> r == Some(old(cursor).args@[old(
            cursor,
        ).pos as int]) && final(cursor).pos == old(cursor).pos + 1,
        old(cursor).pos >= old(cursor).args@.len() ==> r is None && final(cursor).pos == old(
            cursor,
        ).pos,
{
    if cursor.pos < cursor.args.len() {
        let v = cursor.args[cursor.pos].clone();
        cursor.pos = cursor.pos + 1;
        Some(v)
    } else {
        None
    }
}

/// The value of the first `-t`, if an argument follows it.
pub open spec fn first_target_from(args: Seq<Seq<char>>, i: int) -> Option<Seq<char>>
    decreases args.len() - i,
{
    if i < 0 || i >= args.len() {
        None
    } else if args[i] == "-t"@ {
        if i + 1 < args.len() {
            Some(args[i + 1])
        } else {
            None
        }
    } else {
        first_target_from(args, i + 1)
    }
}

pub open spec fn first_target(args: Seq<Seq<char>>) -> Seq<char> {
    match first_target_from(args, 0) {
        Some(t) => t,
        None => Seq::empty(),
    }
}

/// Scanning from `i`, where each `-t` followed by an argument sets the target to that
/// argument and passes over it: the target that the scan ends with.
pub open spec fn last_target_from(args: Seq<Seq<char>>, i: int, acc: Seq<char>) -> Seq<char>
    decreases args.len() - i,
{
    if i < 0 || i >= args.len() {
        acc
    } else if args[i] == "-t"@ && i + 1 < args.len() {
        last_target_from(args, i + 2, args[i + 1])
    } else {
        last_target_from(args, i + 1, acc)
    }
}

pub open spec fn last_target(args: Seq<Seq<char>>) -> Seq<char> {
    last_target_from(args, 0, Seq::empty())
}

/// The target of the first `-t` as given (empty when there is none).
pub fn parse_target_flag_raw(args: &Vec<String>) -> (r: String)
    ensures
        r@ == first_target(views(args@)),
{
    let ghost a = views(args@);
    let mut cursor = ArgCursor::new(args);
    while cursor.pos < cursor.args.len()
        invariant
            cursor.args@ == args@,
            a == views(args@),
            cursor.pos <= args@.len(),
            first_target_from(a, 0) == first_target_from(a, cursor.pos as int),
        decreases args.len() - cursor.pos,
    {
        let i = cursor.pos;
        let arg = cursor.args[i].clone();
        cursor.pos = i + 1;
        if same(&arg, "-t") {
            match parse_flag_value(&mut cursor) {
                Some(t) => {
                    return t;
                },
                None => {
                    assert(first_target_from(a, i as int) is None);
                    return String::new();
                },
            }
        }
    }
    String::new()
}

/// The target of the first `-t`, with a leading `%` taken off.
pub fn parse_target_flag(args: &Vec<String>) -> (r: String)
    ensures
        r@ == spec_strip_pane_prefix(first_target(views(args@))),
{
    let raw = parse_target_flag_raw(args);
    strip_pane_prefix(raw.as_str())
}

/// The target that the last `-t` with an argument after it sets, as given.
pub fn last_target_flag(args: &Vec<String>) -> (r: String)
    ensures
        r@ == last_target(views(args@)),
{
    let ghost a = views(args@);
    let mut target = String::new();
    let mut i: usize = 0;
    while i < args.len()
        invariant
            a == views(args@),
            i <= args@.len() + 1,
            last_target(a) == last_target_from(a, i as int, target@),
        decreases args.len() + 1 - i,
    {
        if same(&args[i], "-t") && args.len() - i >= 2 {
            target = args[i + 1].clone();
            i += 2;
        } else {
            i += 1;
        }
    }
    target
}

} // verus!

verus! {

proof fn lemma_request_shift(a: Seq<Seq<char>>, rest: Seq<Seq<char>>, i: int)
    requires
        0 <= i,
        a.len() == rest.len() + 2,
        forall|m: int| 0 <= m < rest.len() ==> a[m + 2] == rest[m],
    ensures
        request_from(a, i + 2) == request_from(rest, i),
    decreases rest.len() + 1 - i,
{
    if i < rest.len() {
        assert(a[i + 2] == rest[i]);
        if rest[i] == "-L"@ {
            lemma_request_shift(a, rest, i + 2);
        } else if rest[i] != "-V"@ {
            assert(a.skip(i + 3) =~= rest.skip(i + 1));
        }
    }
}

/// A socket name given with `-L` changes nothing: the bridge talks to the one multiplexer.
pub proof fn law_socket_flag_ignored(socket: Seq<char>, rest: Seq<Seq<char>>)
    ensures
        spec_request(seq!["-L"@, socket] + rest) == spec_request(rest),
{
    reveal_strlit("-L");
    reveal_strlit("-V");
    let a = seq!["-L"@, socket] + rest;
    assert(a[0] == "-L"@);
    assert("-L"@ != "-V"@) by {
        assert("-L"@[1] != "-V"@[1]);
    }
    lemma_request_shift(a, rest, 0);
}


proof fn lemma_first_skips(a: Seq<Seq<char>>, i: int, p: int)
    requires
        0 <= i <= p <= a.len(),
        forall|m: int| i <= m < p ==> a[m] != "-t"@,
    ensures
        first_target_from(a, i) == first_target_from(a, p),
    decreases p - i,
{
    if i < p {
        lemma_first_skips(a, i + 1, p);
    }
}

proof fn lemma_last_skips(a: Seq<Seq<char>>, i: int, p: int, acc: Seq<char>)
    requires
        0 <= i <= p <= a.len(),
        forall|m: int| i <= m < p ==> a[m] != "-t"@,
    ensures
        last_target_from(a, i, acc) == last_target_from(a, p, acc),
    decreases p - i,
{
    if i < p {
        lemma_last_skips(a, i + 1, p, acc);
    }
}

/// Where `-t` is given once, with a value after it, the first `-t` and the last one name
/// the same target: the two bridges then act on the same pane.
pub proof fn law_lone_target_agrees(before: Seq<Seq<char>>, target: Seq<char>, after: Seq<Seq<char>>)
    requires
        !before.contains("-t"@),
        !after.contains("-t"@),
    ensures
        first_target(before + seq!["-t"@, target] + after) == target,
        last_target(before + seq!["-t"@, target] + after) == target,
{
    let a = before + seq!["-t"@, target] + after;
    let p = before.len() as int;
    assert forall|m: int| 0 <= m < p implies a[m] != "-t"@ by {
        assert(a[m] == before[m]);
    }
    assert forall|m: int| p + 2 <= m < a.len() implies a[m] != "-t"@ by {
        assert(a[m] == after[m - p - 2]);
    }
    assert(a[p] == "-t"@);
    assert(a[p + 1] == target);
    lemma_first_skips(a, 0, p);
    lemma_last_skips(a, 0, p, Seq::empty());
    lemma_last_skips(a, p + 2, a.len() as int, target);
}

} // verus!
