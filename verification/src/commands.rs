//! How the subcommands that read their arguments the same way in both bridges parse
//! them, and the steps that follow from what they parsed.

use vstd::prelude::*;
use crate::refs::{pane_id, spec_strip_pane_prefix, strip_pane_prefix};
use crate::text::{
    find, find_in, join, join_strings, same, to_chars,
    views,
};

verus! {

/// One thing a bridge does while it carries out a subcommand.
pub enum Step {
    /// Run `cmux` with these arguments; its reply is not needed.
    Run(Vec<String>),
    /// Wait this many milliseconds, for the multiplexer to settle.
    Pause(u64),
    /// Print this line.
    Say(String),
    /// Ask the multiplexer which surface the caller is on, and print it as a pane id if
    /// it names one.
    ShowSurface,
}

/// A [`Step`] over the views of its strings.
pub ghost enum Action {
    Run(Seq<Seq<char>>),
    Pause(nat),
    Say(Seq<char>),
    ShowSurface,
}

pub open spec fn action(s: Step) -> Action {
    match s {
        Step::Run(a) => Action::Run(views(a@)),
        Step::Pause(ms) => Action::Pause(ms as nat),
        Step::Say(l) => Action::Say(l@),
        Step::ShowSurface => Action::ShowSurface,
    }
}

pub open spec fn actions(v: Seq<Step>) -> Seq<Action> {
    v.map_values(|s: Step| action(s))
}

/// A string holding the literal `s`.
pub fn lit(s: &str) -> (r: String)
    ensures
        r@ == s@,
{
    s.to_owned()
}

/// Appends a step and keeps the view of the list in step.
pub fn push_step(v: &mut Vec<Step>, s: Step)
    ensures
        actions(final(v)@) == actions(old(v)@).push(action(s)),
{
    let ghost before = v@;
    v.push(s);
    assert(v@ =~= before.push(s));
    assert(actions(v@) =~= actions(before).push(action(s)));
}

/// Appends a string and keeps the views of the list in step.
pub fn push_str(v: &mut Vec<String>, s: String)
    ensures
        views(final(v)@) == views(old(v)@).push(s@),
{
    let ghost before = v@;
    v.push(s);
    assert(v@ =~= before.push(s));
    assert(views(v@) =~= views(before).push(s@));
}

/// A copy of `args[from..]`.
pub fn tail_of(args: &Vec<String>, from: usize) -> (r: Vec<String>)
    requires
        from <= args@.len(),
    ensures
        views(r@) == views(args@).skip(from as int),
{
    let mut r: Vec<String> = Vec::new();
    let mut j = from;
    while j < args.len()
        invariant
            from <= j <= args@.len(),
            views(r@) == views(args@).subrange(from as int, j as int),
        decreases args.len() - j,
    {
        push_str(&mut r, args[j].clone());
        assert(views(args@).subrange(from as int, j + 1) =~= views(args@).subrange(
            from as int,
            j as int,
        ).push(views(args@)[j as int]));
        j += 1;
    }
    assert(views(args@).skip(from as int) =~= views(args@).subrange(
        from as int,
        args@.len() as int,
    ));
    r
}

/// Text printed as tmux prints a captured screen or a list: as it is, with a newline
/// added when it does not end with one.
pub open spec fn spec_text_block(text: Seq<char>) -> Seq<char> {
    if text.len() > 0 && text.last() == '\n' {
        text
    } else {
        text.push('\n')
    }
}

/// Printed text always ends a line, begins with the text itself, and is left as it is when
/// printed again.
pub proof fn law_text_block_ends_line(text: Seq<char>)
    ensures
        spec_text_block(text).len() > 0,
        spec_text_block(text).last() == '\n',
        spec_text_block(text).take(text.len() as int) == text,
        spec_text_block(spec_text_block(text)) == spec_text_block(text),
{
    assert(spec_text_block(text).take(text.len() as int) =~= text);
}

pub fn text_block(text: &str) -> (r: String)
    ensures
        r@ == spec_text_block(text@),
{
    let n = text.unicode_len();
    let mut r = text.to_owned();
    if n == 0 || text.get_char(n - 1) != '\n' {
        crate::text::push_char(&mut r, '\n');
    }
    r
}

// ---------------------------------------------------------------------------------------
// select-pane

/// What `select-pane` reads: `-t` target (its `%` removed) and `-T` title; `-P` and its
/// style are passed over.
pub ghost struct PaneSelection {
    pub target: Seq<char>,
    pub title: Seq<char>,
}

pub open spec fn select_scan(args: Seq<Seq<char>>, i: int, st: PaneSelection) -> PaneSelection
    decreases args.len() + 1 - i,
{
    if i < 0 || i >= args.len() {
        st
    } else if args[i] == "-t"@ && i + 1 < args.len() {
        select_scan(
            args,
            i + 2,
            PaneSelection { target: spec_strip_pane_prefix(args[i + 1]), ..st },
        )
    } else if args[i] == "-P"@ {
        select_scan(args, i + 2, st)
    } else if args[i] == "-T"@ && i + 1 < args.len() {
        select_scan(args, i + 2, PaneSelection { title: args[i + 1], ..st })
    } else {
        select_scan(args, i + 1, st)
    }
}

pub open spec fn spec_select_pane(args: Seq<Seq<char>>) -> Option<Seq<Seq<char>>> {
    let sel = select_scan(args, 0, PaneSelection { target: Seq::empty(), title: Seq::empty() });
    if sel.title.len() > 0 && sel.target.len() > 0 {
        Some(seq!["rename-tab"@, "--surface"@, sel.target, sel.title])
    } else {
        None
    }
}

/// `select-pane`: renames the target's tab when both a target and a title are given;
/// nothing else it asks for has a counterpart in cmux.
pub fn cmd_select_pane(args: &Vec<String>) -> (r: Option<Vec<String>>)
    ensures
        match spec_select_pane(views(args@)) {
            Some(c) => r is Some && views(r->0@) == c,
            None => r is None,
        },
{
    let ghost a = views(args@);
    let mut target = String::new();
    let mut title = String::new();
    let mut i: usize = 0;
    while i < args.len()
        invariant
            a == views(args@),
            i <= args@.len() + 1,
            select_scan(a, 0, PaneSelection { target: Seq::empty(), title: Seq::empty() })
                == select_scan(a, i as int, PaneSelection { target: target@, title: title@ }),
        decreases args.len() + 1 - i,
    {
        let has_next = args.len() - i >= 2;
        let ghost st = PaneSelection { target: target@, title: title@ };
        if same(&args[i], "-t") && has_next {
            target = strip_pane_prefix(args[i + 1].as_str());
            assert(select_scan(a, i as int, st) == select_scan(a, i + 2, PaneSelection { target: target@, title: title@ }));
            i += 2;
        } else if same(&args[i], "-P") {
            assert(select_scan(a, i as int, st) == select_scan(a, i + 2, st));
            i = if has_next { i + 2 } else { args.len() };
        } else if same(&args[i], "-T") && has_next {
            title = args[i + 1].clone();
            i += 2;
        } else {
            i += 1;
        }
    }
    if title.as_str().unicode_len() > 0 && target.as_str().unicode_len() > 0 {
        let mut c: Vec<String> = Vec::new();
        push_str(&mut c, lit("rename-tab"));
        push_str(&mut c, lit("--surface"));
        push_str(&mut c, target);
        push_str(&mut c, title);
        Some(c)
    } else {
        None
    }
}


/// The argument starts with `-`.
pub open spec fn is_flag(a: Seq<char>) -> bool {
    a.len() > 0 && a[0] == '-'
}

pub fn flag_like(a: &String) -> (r: bool)
    ensures
        r == is_flag(a@),
{
    crate::text::first_char(a.as_str()) == Some('-')
}

/// `s` holds `p` somewhere.
pub open spec fn contains(s: Seq<char>, p: Seq<char>) -> bool {
    find(s, p) is Some
}

pub fn contains_str(s: &str, p: &str) -> (r: bool)
    ensures
        r == contains(s@, p@),
{
    let sc = to_chars(s);
    let pc = to_chars(p);
    find_in(&sc, &pc, 0).is_some()
}

// ---------------------------------------------------------------------------------------
// split-window

/// What `split-window` reads from its arguments.
pub struct SplitOptions {
    /// `-v` splits downwards; `-h` (the default) to the right.
    pub down: bool,
    /// `-P`: print the new pane's id.
    pub print_id: bool,
    /// `-t`, with its `%` removed.
    pub target: String,
    /// `-l` or `-p`: the size asked for the new pane.
    pub size_spec: String,
    /// The command to type into the new pane: everything after `--`, or from the first
    /// argument that is not a flag.
    pub command_args: Vec<String>,
}

pub ghost struct SplitRequest {
    pub down: bool,
    pub print_id: bool,
    pub target: Seq<char>,
    pub size: Seq<char>,
    pub command: Seq<Seq<char>>,
}

pub open spec fn split_request(o: SplitOptions) -> SplitRequest {
    SplitRequest {
        down: o.down,
        print_id: o.print_id,
        target: o.target@,
        size: o.size_spec@,
        command: views(o.command_args@),
    }
}

pub open spec fn split_start() -> SplitRequest {
    SplitRequest {
        down: false,
        print_id: false,
        target: Seq::empty(),
        size: Seq::empty(),
        command: Seq::empty(),
    }
}

/// Reading `split-window` arguments from position `i`.
pub open spec fn split_scan(args: Seq<Seq<char>>, i: int, st: SplitRequest) -> SplitRequest
    decreases args.len() + 1 - i,
{
    if i < 0 || i >= args.len() {
        st
    } else {
        let a = args[i];
        let has_next = i + 1 < args.len();
        if a == "-h"@ {
            split_scan(args, i + 1, SplitRequest { down: false, ..st })
        } else if a == "-v"@ {
            split_scan(args, i + 1, SplitRequest { down: true, ..st })
        } else if a == "-P"@ {
            split_scan(args, i + 1, SplitRequest { print_id: true, ..st })
        } else if a == "-F"@ {
            split_scan(args, i + 2, st)
        } else if a == "-t"@ {
            if has_next {
                split_scan(
                    args,
                    i + 2,
                    SplitRequest { target: spec_strip_pane_prefix(args[i + 1]), ..st },
                )
            } else {
                st
            }
        } else if a == "-l"@ || a == "-p"@ {
            if has_next {
                split_scan(args, i + 2, SplitRequest { size: args[i + 1], ..st })
            } else {
                st
            }
        } else if a == "--"@ {
            SplitRequest { command: args.skip(i + 1), ..st }
        } else if is_flag(a) {
            split_scan(args, i + 1, st)
        } else {
            SplitRequest { command: args.skip(i), ..st }
        }
    }
}

pub open spec fn spec_split_options(args: Seq<Seq<char>>) -> SplitRequest {
    split_scan(args, 0, split_start())
}

/// Reads the arguments of `split-window`.
pub fn parse_split_window(args: &Vec<String>) -> (r: SplitOptions)
    ensures
        split_request(r) == spec_split_options(views(args@)),
{
    let ghost a = views(args@);
    let mut o = SplitOptions {
        down: false,
        print_id: false,
        target: String::new(),
        size_spec: String::new(),
        command_args: Vec::new(),
    };
    assert(views(o.command_args@) =~= Seq::<Seq<char>>::empty());
    assert(split_request(o) == split_start());
    let mut i: usize = 0;
    while i < args.len()
        invariant
            a == views(args@),
            i <= args@.len(),
            split_scan(a, 0, split_start()) == split_scan(a, i as int, split_request(o)),
            o.command_args@.len() == 0,
        decreases args.len() - i,
    {
        let has_next = args.len() - i >= 2;
        let ghost st = split_request(o);
        let arg = &args[i];
        if same(arg, "-h") {
            o.down = false;
            assert(split_scan(a, i as int, st) == split_scan(a, i + 1, split_request(o)));
            i += 1;
        } else if same(arg, "-v") {
            o.down = true;
            assert(split_scan(a, i as int, st) == split_scan(a, i + 1, split_request(o)));
            i += 1;
        } else if same(arg, "-P") {
            o.print_id = true;
            assert(split_scan(a, i as int, st) == split_scan(a, i + 1, split_request(o)));
            i += 1;
        } else if same(arg, "-F") {
            assert(split_scan(a, i as int, st) == split_scan(a, i + 2, st));
            i = if has_next { i + 2 } else { args.len() };
        } else if same(arg, "-t") {
            if !has_next {
                return o;
            }
            o.target = strip_pane_prefix(args[i + 1].as_str());
            assert(split_scan(a, i as int, st) == split_scan(a, i + 2, split_request(o)));
            i += 2;
        } else if same(arg, "-l") || same(arg, "-p") {
            if !has_next {
                return o;
            }
            o.size_spec = args[i + 1].clone();
            assert(split_scan(a, i as int, st) == split_scan(a, i + 2, split_request(o)));
            i += 2;
        } else if same(arg, "--") {
            o.command_args = tail_of(args, i + 1);
            assert(split_scan(a, i as int, st) == split_request(o));
            return o;
        } else if flag_like(arg) {
            assert(split_scan(a, i as int, st) == split_scan(a, i + 1, st));
            i += 1;
        } else {
            o.command_args = tail_of(args, i);
            assert(split_scan(a, i as int, st) == split_request(o));
            return o;
        }
    }
    o
}

pub open spec fn surface_args(target: Seq<char>) -> Seq<Seq<char>> {
    if target.len() == 0 {
        Seq::empty()
    } else {
        seq!["--surface"@, target]
    }
}

/// The `new-split` call that `split-window` makes.
pub open spec fn spec_split_call(req: SplitRequest) -> Seq<Seq<char>> {
    seq!["new-split"@, if req.down { "down"@ } else { "right"@ }] + surface_args(req.target)
}

pub fn split_window_call(o: &SplitOptions) -> (r: Vec<String>)
    ensures
        views(r@) == spec_split_call(split_request(*o)),
{
    let mut c: Vec<String> = Vec::new();
    push_str(&mut c, lit("new-split"));
    if o.down {
        push_str(&mut c, lit("down"));
    } else {
        push_str(&mut c, lit("right"));
    }
    if o.target.as_str().unicode_len() > 0 {
        push_str(&mut c, lit("--surface"));
        push_str(&mut c, o.target.clone());
    }
    assert(views(c@) =~= spec_split_call(split_request(*o)));
    c
}

/// The surface that a `new-split` reply names; empty when the call failed or the reply
/// names none.
pub open spec fn spec_new_surface(reply: Option<Seq<char>>) -> Seq<char> {
    match reply {
        Some(text) => match crate::refs::spec_parse_surface(text) {
            Some(s) => s,
            None => Seq::empty(),
        },
        None => Seq::empty(),
    }
}

pub fn new_surface_from(reply: &Option<String>) -> (r: String)
    ensures
        r@ == spec_new_surface(crate::text::opt_view(*reply)),
{
    match reply {
        Some(text) => match crate::refs::parse_surface_from_response(text.as_str()) {
            Some(s) => s,
            None => String::new(),
        },
        None => String::new(),
    }
}

/// The steps after the split: type the command into the new surface and press enter,
/// then print the new pane's id if `-P` asked for it; nothing of either without a
/// surface.
pub open spec fn spec_split_followup(req: SplitRequest, surface: Seq<char>) -> Seq<Action> {
    (if req.command.len() > 0 && surface.len() > 0 {
        seq![
            Action::Pause(400),
            Action::Run(seq!["send"@, "--surface"@, surface, join(req.command, " "@)]),
            Action::Run(seq!["send-key"@, "--surface"@, surface, "enter"@]),
        ]
    } else {
        Seq::empty()
    }) + (if req.print_id && surface.len() > 0 {
        seq![Action::Say(pane_id(surface))]
    } else {
        Seq::empty()
    })
}

pub fn split_window_followup(o: &SplitOptions, surface: &str) -> (r: Vec<Step>)
    ensures
        actions(r@) == spec_split_followup(split_request(*o), surface@),
{
    let mut steps: Vec<Step> = Vec::new();
    let has_surface = surface.unicode_len() > 0;
    if o.command_args.len() > 0 && has_surface {
        push_step(&mut steps, Step::Pause(400));
        let mut send: Vec<String> = Vec::new();
        push_str(&mut send, lit("send"));
        push_str(&mut send, lit("--surface"));
        push_str(&mut send, surface.to_owned());
        push_str(&mut send, join_strings(&o.command_args, " "));
        assert(views(send@) =~= seq!["send"@, "--surface"@, surface@, join(views(o.command_args@), " "@)]);
        push_step(&mut steps, Step::Run(send));
        let mut enter: Vec<String> = Vec::new();
        push_str(&mut enter, lit("send-key"));
        push_str(&mut enter, lit("--surface"));
        push_str(&mut enter, surface.to_owned());
        push_str(&mut enter, lit("enter"));
        assert(views(enter@) =~= seq!["send-key"@, "--surface"@, surface@, "enter"@]);
        push_step(&mut steps, Step::Run(enter));
    } else {
        assert(actions(steps@) =~= Seq::<Action>::empty());
    }
    let ghost req = split_request(*o);
    let ghost first = if req.command.len() > 0 && surface@.len() > 0 {
        seq![
            Action::Pause(400),
            Action::Run(seq!["send"@, "--surface"@, surface@, join(req.command, " "@)]),
            Action::Run(seq!["send-key"@, "--surface"@, surface@, "enter"@]),
        ]
    } else {
        Seq::empty()
    };
    assert(actions(steps@) =~= first);
    if o.print_id && has_surface {
        push_step(&mut steps, Step::Say(crate::refs::pane_id_line(surface)));
    }
    assert(actions(steps@) =~= spec_split_followup(split_request(*o), surface@));
    steps
}


// ---------------------------------------------------------------------------------------
// new-window and new-session

/// What `new-window` reads from its arguments.
pub struct WindowOptions {
    /// `-n`: the name for the new workspace.
    pub name: String,
    /// `-P`: print the new pane's id.
    pub print_id: bool,
    /// The command to type into the new workspace.
    pub command_args: Vec<String>,
}

pub ghost struct WindowRequest {
    pub name: Seq<char>,
    pub print_id: bool,
    pub command: Seq<Seq<char>>,
}

pub open spec fn window_request(o: WindowOptions) -> WindowRequest {
    WindowRequest { name: o.name@, print_id: o.print_id, command: views(o.command_args@) }
}

/// Reading `new-window` arguments from position `i`.
pub open spec fn window_scan(args: Seq<Seq<char>>, i: int, st: WindowRequest) -> WindowRequest
    decreases args.len() + 1 - i,
{
    if i < 0 || i >= args.len() {
        st
    } else {
        let a = args[i];
        if a == "-n"@ && i + 1 < args.len() {
            window_scan(args, i + 2, WindowRequest { name: args[i + 1], ..st })
        } else if a == "-t"@ || a == "-F"@ {
            window_scan(args, i + 2, st)
        } else if a == "-P"@ {
            window_scan(args, i + 1, WindowRequest { print_id: true, ..st })
        } else if a == "--"@ {
            WindowRequest { command: args.skip(i + 1), ..st }
        } else if is_flag(a) {
            window_scan(args, i + 1, st)
        } else {
            WindowRequest { command: args.skip(i), ..st }
        }
    }
}

pub open spec fn spec_window_options(args: Seq<Seq<char>>) -> WindowRequest {
    window_scan(
        args,
        0,
        WindowRequest { name: Seq::empty(), print_id: false, command: Seq::empty() },
    )
}

/// Reads the arguments of `new-window`.
pub fn parse_new_window(args: &Vec<String>) -> (r: WindowOptions)
    ensures
        window_request(r) == spec_window_options(views(args@)),
{
    let ghost a = views(args@);
    let mut o = WindowOptions { name: String::new(), print_id: false, command_args: Vec::new() };
    assert(views(o.command_args@) =~= Seq::<Seq<char>>::empty());
    let mut i: usize = 0;
    while i < args.len()
        invariant
            a == views(args@),
            i <= args@.len(),
            spec_window_options(a) == window_scan(a, i as int, window_request(o)),
        decreases args.len() - i,
    {
        let has_next = args.len() - i >= 2;
        let ghost st = window_request(o);
        let arg = &args[i];
        if same(arg, "-n") && has_next {
            o.name = args[i + 1].clone();
            assert(window_scan(a, i as int, st) == window_scan(a, i + 2, window_request(o)));
            i += 2;
        } else if same(arg, "-t") || same(arg, "-F") {
            assert(window_scan(a, i as int, st) == window_scan(a, i + 2, st));
            i = if has_next { i + 2 } else { args.len() };
        } else if same(arg, "-P") {
            o.print_id = true;
            assert(window_scan(a, i as int, st) == window_scan(a, i + 1, window_request(o)));
            i += 1;
        } else if same(arg, "--") {
            o.command_args = tail_of(args, i + 1);
            assert(window_scan(a, i as int, st) == window_request(o));
            return o;
        } else if flag_like(arg) {
            assert(window_scan(a, i as int, st) == window_scan(a, i + 1, st));
            i += 1;
        } else {
            o.command_args = tail_of(args, i);
            assert(window_scan(a, i as int, st) == window_request(o));
            return o;
        }
    }
    o
}

/// What `new-window` does: create a workspace; name it (after a pause) when `-n` gave a
/// name; type the command into it (after a pause) and press enter when one was given;
/// report the caller's surface when `-P` asked for it.
pub open spec fn spec_window_steps(req: WindowRequest) -> Seq<Action> {
    seq![Action::Run(seq!["new-workspace"@])] + (if req.name.len() > 0 {
        seq![Action::Pause(300), Action::Run(seq!["rename-workspace"@, req.name])]
    } else {
        Seq::empty()
    }) + (if req.command.len() > 0 {
        seq![
            Action::Pause(400),
            Action::Run(seq!["send"@, join(req.command, " "@)]),
            Action::Run(seq!["send-key"@, "enter"@]),
        ]
    } else {
        Seq::empty()
    }) + (if req.print_id {
        seq![Action::ShowSurface]
    } else {
        Seq::empty()
    })
}

pub fn new_window_steps(o: &WindowOptions) -> (r: Vec<Step>)
    ensures
        actions(r@) == spec_window_steps(window_request(*o)),
{
    let ghost req = window_request(*o);
    let mut steps: Vec<Step> = Vec::new();
    let mut create: Vec<String> = Vec::new();
    push_str(&mut create, lit("new-workspace"));
    assert(views(create@) =~= seq!["new-workspace"@]);
    push_step(&mut steps, Step::Run(create));
    let ghost p1 = seq![Action::Run(seq!["new-workspace"@])];
    assert(actions(steps@) =~= p1);
    if o.name.as_str().unicode_len() > 0 {
        push_step(&mut steps, Step::Pause(300));
        let mut rename: Vec<String> = Vec::new();
        push_str(&mut rename, lit("rename-workspace"));
        push_str(&mut rename, o.name.clone());
        assert(views(rename@) =~= seq!["rename-workspace"@, req.name]);
        push_step(&mut steps, Step::Run(rename));
    }
    let ghost p2 = p1 + (if req.name.len() > 0 {
        seq![Action::Pause(300), Action::Run(seq!["rename-workspace"@, req.name])]
    } else {
        Seq::empty()
    });
    assert(actions(steps@) =~= p2);
    if o.command_args.len() > 0 {
        push_step(&mut steps, Step::Pause(400));
        let mut send: Vec<String> = Vec::new();
        push_str(&mut send, lit("send"));
        push_str(&mut send, join_strings(&o.command_args, " "));
        assert(views(send@) =~= seq!["send"@, join(req.command, " "@)]);
        push_step(&mut steps, Step::Run(send));
        let mut enter: Vec<String> = Vec::new();
        push_str(&mut enter, lit("send-key"));
        push_str(&mut enter, lit("enter"));
        assert(views(enter@) =~= seq!["send-key"@, "enter"@]);
        push_step(&mut steps, Step::Run(enter));
    }
    let ghost p3 = p2 + (if req.command.len() > 0 {
        seq![
            Action::Pause(400),
            Action::Run(seq!["send"@, join(req.command, " "@)]),
            Action::Run(seq!["send-key"@, "enter"@]),
        ]
    } else {
        Seq::empty()
    });
    assert(actions(steps@) =~= p3);
    if o.print_id {
        push_step(&mut steps, Step::ShowSurface);
    }
    assert(actions(steps@) =~= spec_window_steps(req));
    steps
}

/// What `new-session` reads from its arguments.
pub struct SessionOptions {
    /// `-s`: the session name.
    pub session_name: String,
    /// `-n`: the window name.
    pub window_name: String,
    /// `-P`: print the new pane's id.
    pub print_id: bool,
}

pub ghost struct SessionRequest {
    pub session_name: Seq<char>,
    pub window_name: Seq<char>,
    pub print_id: bool,
}

pub open spec fn session_request(o: SessionOptions) -> SessionRequest {
    SessionRequest {
        session_name: o.session_name@,
        window_name: o.window_name@,
        print_id: o.print_id,
    }
}

/// Reading `new-session` arguments from position `i`; `-d`, `--die-with-parent` and
/// other words are passed over one at a time.
pub open spec fn session_scan(args: Seq<Seq<char>>, i: int, st: SessionRequest) -> SessionRequest
    decreases args.len() + 1 - i,
{
    if i < 0 || i >= args.len() {
        st
    } else {
        let a = args[i];
        let has_next = i + 1 < args.len();
        if a == "-s"@ && has_next {
            session_scan(args, i + 2, SessionRequest { session_name: args[i + 1], ..st })
        } else if a == "-n"@ && has_next {
            session_scan(args, i + 2, SessionRequest { window_name: args[i + 1], ..st })
        } else if a == "-P"@ {
            session_scan(args, i + 1, SessionRequest { print_id: true, ..st })
        } else if a == "-F"@ {
            session_scan(args, i + 2, st)
        } else {
            session_scan(args, i + 1, st)
        }
    }
}

pub open spec fn spec_session_options(args: Seq<Seq<char>>) -> SessionRequest {
    session_scan(
        args,
        0,
        SessionRequest { session_name: Seq::empty(), window_name: Seq::empty(), print_id: false },
    )
}

/// Reads the arguments of `new-session`.
pub fn parse_new_session(args: &Vec<String>) -> (r: SessionOptions)
    ensures
        session_request(r) == spec_session_options(views(args@)),
{
    let ghost a = views(args@);
    let mut o = SessionOptions {
        session_name: String::new(),
        window_name: String::new(),
        print_id: false,
    };
    let mut i: usize = 0;
    while i < args.len()
        invariant
            a == views(args@),
            i <= args@.len(),
            spec_session_options(a) == session_scan(a, i as int, session_request(o)),
        decreases args.len() - i,
    {
        let has_next = args.len() - i >= 2;
        let ghost st = session_request(o);
        let arg = &args[i];
        if same(arg, "-s") && has_next {
            o.session_name = args[i + 1].clone();
            assert(session_scan(a, i as int, st) == session_scan(a, i + 2, session_request(o)));
            i += 2;
        } else if same(arg, "-n") && has_next {
            o.window_name = args[i + 1].clone();
            assert(session_scan(a, i as int, st) == session_scan(a, i + 2, session_request(o)));
            i += 2;
        } else if same(arg, "-P") {
            o.print_id = true;
            assert(session_scan(a, i as int, st) == session_scan(a, i + 1, session_request(o)));
            i += 1;
        } else if same(arg, "-F") {
            assert(session_scan(a, i as int, st) == session_scan(a, i + 2, st));
            i = if has_next { i + 2 } else { args.len() };
        } else {
            assert(session_scan(a, i as int, st) == session_scan(a, i + 1, st));
            i += 1;
        }
    }
    o
}

/// The name the new workspace gets: the window name if one was given, else the session
/// name (possibly empty).
pub open spec fn session_workspace_name(req: SessionRequest) -> Seq<char> {
    if req.window_name.len() > 0 {
        req.window_name
    } else {
        req.session_name
    }
}

/// What `new-session` does: create a workspace, name it (after a pause) when a name was
/// given, and report the caller's surface when `-P` asked for it.
pub open spec fn spec_session_steps(req: SessionRequest) -> Seq<Action> {
    let name = session_workspace_name(req);
    seq![Action::Run(seq!["new-workspace"@])] + (if name.len() > 0 {
        seq![Action::Pause(300), Action::Run(seq!["rename-workspace"@, name])]
    } else {
        Seq::empty()
    }) + (if req.print_id {
        seq![Action::ShowSurface]
    } else {
        Seq::empty()
    })
}

pub fn new_session_steps(o: &SessionOptions) -> (r: Vec<Step>)
    ensures
        actions(r@) == spec_session_steps(session_request(*o)),
{
    let ghost req = session_request(*o);
    let mut steps: Vec<Step> = Vec::new();
    let mut create: Vec<String> = Vec::new();
    push_str(&mut create, lit("new-workspace"));
    assert(views(create@) =~= seq!["new-workspace"@]);
    push_step(&mut steps, Step::Run(create));
    let ghost p1 = seq![Action::Run(seq!["new-workspace"@])];
    assert(actions(steps@) =~= p1);
    let name = if o.window_name.as_str().unicode_len() > 0 {
        o.window_name.clone()
    } else {
        o.session_name.clone()
    };
    assert(name@ == session_workspace_name(req));
    if name.as_str().unicode_len() > 0 {
        push_step(&mut steps, Step::Pause(300));
        let mut rename: Vec<String> = Vec::new();
        push_str(&mut rename, lit("rename-workspace"));
        push_str(&mut rename, name);
        assert(views(rename@) =~= seq!["rename-workspace"@, session_workspace_name(req)]);
        push_step(&mut steps, Step::Run(rename));
    }
    let ghost p2 = p1 + (if session_workspace_name(req).len() > 0 {
        seq![
            Action::Pause(300),
            Action::Run(seq!["rename-workspace"@, session_workspace_name(req)]),
        ]
    } else {
        Seq::empty()
    });
    assert(actions(steps@) =~= p2);
    if o.print_id {
        push_step(&mut steps, Step::ShowSurface);
    }
    assert(actions(steps@) =~= spec_session_steps(req));
    steps
}

// ---------------------------------------------------------------------------------------
// display-message

/// What `display-message` answers.
pub enum DisplayPlan {
    /// Nothing is printed (no `-p`, or no format).
    Nothing,
    /// The format asks for `session_name` and `window_index`: print the caller's window
    /// ref and workspace ref, joined by `:`.
    WindowAndWorkspace,
    /// The format asks for `pane_id`: print the caller's surface as a pane id.
    PaneId,
    /// Any other format goes to `cmux display-message -p`; its reply is printed, or the
    /// format itself when the call fails.
    Forward(String),
}

pub ghost enum DisplayKind {
    Nothing,
    WindowAndWorkspace,
    PaneId,
    Forward(Seq<char>),
}

pub open spec fn display_kind(p: DisplayPlan) -> DisplayKind {
    match p {
        DisplayPlan::Nothing => DisplayKind::Nothing,
        DisplayPlan::WindowAndWorkspace => DisplayKind::WindowAndWorkspace,
        DisplayPlan::PaneId => DisplayKind::PaneId,
        DisplayPlan::Forward(f) => DisplayKind::Forward(f@),
    }
}

/// Reading `display-message` arguments from position `i`: whether `-p` was given, and the
/// format, which is the last word that is neither `-p` nor `-t` and its target.
pub open spec fn display_scan(args: Seq<Seq<char>>, i: int, print: bool, format: Seq<char>) -> (
    bool,
    Seq<char>,
)
    decreases args.len() + 1 - i,
{
    if i < 0 || i >= args.len() {
        (print, format)
    } else if args[i] == "-p"@ {
        display_scan(args, i + 1, true, format)
    } else if args[i] == "-t"@ {
        display_scan(args, i + 2, print, format)
    } else {
        display_scan(args, i + 1, print, args[i])
    }
}

pub open spec fn spec_display_plan(args: Seq<Seq<char>>) -> DisplayKind {
    let (print, format) = display_scan(args, 0, false, Seq::empty());
    if print && format.len() > 0 {
        if contains(format, "session_name"@) && contains(format, "window_index"@) {
            DisplayKind::WindowAndWorkspace
        } else if contains(format, "pane_id"@) {
            DisplayKind::PaneId
        } else {
            DisplayKind::Forward(format)
        }
    } else {
        DisplayKind::Nothing
    }
}

/// Reads the arguments of `display-message` and decides what it answers.
pub fn display_message_plan(args: &Vec<String>) -> (r: DisplayPlan)
    ensures
        display_kind(r) == spec_display_plan(views(args@)),
{
    let ghost a = views(args@);
    let mut print = false;
    let mut format = String::new();
    let mut i: usize = 0;
    while i < args.len()
        invariant
            a == views(args@),
            i <= args@.len(),
            display_scan(a, 0, false, Seq::empty()) == display_scan(a, i as int, print, format@),
        decreases args.len() - i,
    {
        let ghost before = (print, format@);
        if same(&args[i], "-p") {
            print = true;
            assert(display_scan(a, i as int, before.0, before.1) == display_scan(a, i + 1, print, format@));
            i += 1;
        } else if same(&args[i], "-t") {
            assert(display_scan(a, i as int, before.0, before.1) == display_scan(a, i + 2, print, format@));
            i = if args.len() - i >= 2 { i + 2 } else { args.len() };
        } else {
            format = args[i].clone();
            assert(display_scan(a, i as int, before.0, before.1) == display_scan(a, i + 1, print, format@));
            i += 1;
        }
    }
    if print && format.as_str().unicode_len() > 0 {
        if contains_str(format.as_str(), "session_name") && contains_str(
            format.as_str(),
            "window_index",
        ) {
            DisplayPlan::WindowAndWorkspace
        } else if contains_str(format.as_str(), "pane_id") {
            DisplayPlan::PaneId
        } else {
            DisplayPlan::Forward(format)
        }
    } else {
        DisplayPlan::Nothing
    }
}

/// The line that answers a format asking for the window and the session.
pub fn window_workspace_line(window: &str, workspace: &str) -> (r: String)
    ensures
        r@ == window@ + seq![':'] + workspace@,
{
    let mut r = window.to_owned();
    crate::text::push_char(&mut r, ':');
    r.append(workspace);
    r
}

/// The `display-message` call that a forwarded format makes.
pub fn display_call(format: &str) -> (r: Vec<String>)
    ensures
        views(r@) == seq!["display-message"@, "-p"@, format@],
{
    let mut c: Vec<String> = Vec::new();
    push_str(&mut c, lit("display-message"));
    push_str(&mut c, lit("-p"));
    push_str(&mut c, format.to_owned());
    assert(views(c@) =~= seq!["display-message"@, "-p"@, format@]);
    c
}

// ---------------------------------------------------------------------------------------
// resize-pane

/// What `resize-pane` reads from its arguments.
pub struct ResizeOptions {
    /// `-t`, with its `%` removed.
    pub target: String,
    /// The last of `-L`, `-R`, `-U`, `-D`.
    pub direction: String,
    /// The last word that is not a flag: how many cells to move.
    pub amount: String,
    /// `-x`: an absolute width.
    pub width: String,
    /// `-y`: an absolute height.
    pub height: String,
}

pub ghost struct ResizeRequest {
    pub target: Seq<char>,
    pub direction: Seq<char>,
    pub amount: Seq<char>,
    pub width: Seq<char>,
    pub height: Seq<char>,
}

pub open spec fn resize_request(o: ResizeOptions) -> ResizeRequest {
    ResizeRequest {
        target: o.target@,
        direction: o.direction@,
        amount: o.amount@,
        width: o.width@,
        height: o.height@,
    }
}

pub open spec fn is_direction(a: Seq<char>) -> bool {
    a == "-L"@ || a == "-R"@ || a == "-U"@ || a == "-D"@
}

/// Reading `resize-pane` arguments from position `i`.
pub open spec fn resize_scan(args: Seq<Seq<char>>, i: int, st: ResizeRequest) -> ResizeRequest
    decreases args.len() + 1 - i,
{
    if i < 0 || i >= args.len() {
        st
    } else {
        let a = args[i];
        let has_next = i + 1 < args.len();
        if a == "-t"@ && has_next {
            resize_scan(
                args,
                i + 2,
                ResizeRequest { target: spec_strip_pane_prefix(args[i + 1]), ..st },
            )
        } else if is_direction(a) {
            resize_scan(args, i + 1, ResizeRequest { direction: a, ..st })
        } else if a == "-x"@ {
            resize_scan(
                args,
                i + 2,
                if has_next {
                    ResizeRequest { width: args[i + 1], ..st }
                } else {
                    st
                },
            )
        } else if a == "-y"@ {
            resize_scan(
                args,
                i + 2,
                if has_next {
                    ResizeRequest { height: args[i + 1], ..st }
                } else {
                    st
                },
            )
        } else if !is_flag(a) {
            resize_scan(args, i + 1, ResizeRequest { amount: a, ..st })
        } else {
            resize_scan(args, i + 1, st)
        }
    }
}

pub open spec fn spec_resize_options(args: Seq<Seq<char>>) -> ResizeRequest {
    resize_scan(
        args,
        0,
        ResizeRequest {
            target: Seq::empty(),
            direction: Seq::empty(),
            amount: Seq::empty(),
            width: Seq::empty(),
            height: Seq::empty(),
        },
    )
}

/// Reads the arguments of `resize-pane`.
pub fn parse_resize_pane(args: &Vec<String>) -> (r: ResizeOptions)
    ensures
        resize_request(r) == spec_resize_options(views(args@)),
{
    let ghost a = views(args@);
    let mut o = ResizeOptions {
        target: String::new(),
        direction: String::new(),
        amount: String::new(),
        width: String::new(),
        height: String::new(),
    };
    let mut i: usize = 0;
    while i < args.len()
        invariant
            a == views(args@),
            i <= args@.len(),
            spec_resize_options(a) == resize_scan(a, i as int, resize_request(o)),
        decreases args.len() - i,
    {
        let has_next = args.len() - i >= 2;
        let ghost st = resize_request(o);
        let arg = &args[i];
        if same(arg, "-t") && has_next {
            o.target = strip_pane_prefix(args[i + 1].as_str());
            assert(resize_scan(a, i as int, st) == resize_scan(a, i + 2, resize_request(o)));
            i += 2;
        } else if same(arg, "-L") || same(arg, "-R") || same(arg, "-U") || same(arg, "-D") {
            o.direction = arg.clone();
            assert(resize_scan(a, i as int, st) == resize_scan(a, i + 1, resize_request(o)));
            i += 1;
        } else if same(arg, "-x") {
            if has_next {
                o.width = args[i + 1].clone();
            }
            assert(resize_scan(a, i as int, st) == resize_scan(a, i + 2, resize_request(o)));
            i = if has_next { i + 2 } else { args.len() };
        } else if same(arg, "-y") {
            if has_next {
                o.height = args[i + 1].clone();
            }
            assert(resize_scan(a, i as int, st) == resize_scan(a, i + 2, resize_request(o)));
            i = if has_next { i + 2 } else { args.len() };
        } else if !flag_like(arg) {
            o.amount = arg.clone();
            assert(resize_scan(a, i as int, st) == resize_scan(a, i + 1, resize_request(o)));
            i += 1;
        } else {
            assert(resize_scan(a, i as int, st) == resize_scan(a, i + 1, st));
            i += 1;
        }
    }
    o
}

/// The relative `resize-pane` call: none without a direction; otherwise the direction,
/// preceded by `--pane` and the target when there is one, and followed by `--amount` and
/// the amount when there is one.
pub open spec fn spec_resize_call(req: ResizeRequest) -> Option<Seq<Seq<char>>> {
    if req.direction.len() == 0 {
        None
    } else {
        Some(
            seq!["resize-pane"@] + (if req.target.len() > 0 {
                seq!["--pane"@, req.target]
            } else {
                Seq::empty()
            }) + seq![req.direction] + (if req.amount.len() > 0 {
                seq!["--amount"@, req.amount]
            } else {
                Seq::empty()
            }),
        )
    }
}

pub fn resize_call(o: &ResizeOptions) -> (r: Option<Vec<String>>)
    ensures
        match spec_resize_call(resize_request(*o)) {
            Some(c) => r is Some && views(r->0@) == c,
            None => r is None,
        },
{
    if o.direction.as_str().unicode_len() == 0 {
        return None;
    }
    let ghost req = resize_request(*o);
    let mut c: Vec<String> = Vec::new();
    push_str(&mut c, lit("resize-pane"));
    if o.target.as_str().unicode_len() > 0 {
        push_str(&mut c, lit("--pane"));
        push_str(&mut c, o.target.clone());
    }
    push_str(&mut c, o.direction.clone());
    let ghost head = seq!["resize-pane"@] + (if req.target.len() > 0 {
        seq!["--pane"@, req.target]
    } else {
        Seq::empty()
    }) + seq![req.direction];
    assert(views(c@) =~= head);
    if o.amount.as_str().unicode_len() > 0 {
        push_str(&mut c, lit("--amount"));
        push_str(&mut c, o.amount.clone());
    }
    assert(views(c@) =~= spec_resize_call(req)->0);
    Some(c)
}

// ---------------------------------------------------------------------------------------
// list-panes and list-sessions

/// Reading `list-panes` arguments from position `i`: the last `-t` with a value sets the
/// target (as given); `-F` and its format are passed over.
pub open spec fn list_scan(args: Seq<Seq<char>>, i: int, target: Seq<char>) -> Seq<char>
    decreases args.len() + 1 - i,
{
    if i < 0 || i >= args.len() {
        target
    } else if args[i] == "-t"@ && i + 1 < args.len() {
        list_scan(args, i + 2, args[i + 1])
    } else if args[i] == "-F"@ {
        list_scan(args, i + 2, target)
    } else {
        list_scan(args, i + 1, target)
    }
}

/// The workspace that `list-panes` asks about: the `workspace:N` inside its target, or
/// empty for the current workspace.
pub open spec fn spec_list_workspace(args: Seq<Seq<char>>) -> Seq<char> {
    let target = list_scan(args, 0, Seq::empty());
    if target.len() > 0 {
        match crate::refs::spec_extract_workspace_ref(target) {
            Some(w) => w,
            None => Seq::empty(),
        }
    } else {
        Seq::empty()
    }
}

pub fn list_panes_workspace(args: &Vec<String>) -> (r: String)
    ensures
        r@ == spec_list_workspace(views(args@)),
{
    let ghost a = views(args@);
    let mut target = String::new();
    let mut i: usize = 0;
    while i < args.len()
        invariant
            a == views(args@),
            i <= args@.len(),
            list_scan(a, 0, Seq::empty()) == list_scan(a, i as int, target@),
        decreases args.len() - i,
    {
        let has_next = args.len() - i >= 2;
        let ghost before = target@;
        if same(&args[i], "-t") && has_next {
            target = args[i + 1].clone();
            assert(list_scan(a, i as int, before) == list_scan(a, i + 2, target@));
            i += 2;
        } else if same(&args[i], "-F") {
            assert(list_scan(a, i as int, before) == list_scan(a, i + 2, target@));
            i = if has_next { i + 2 } else { args.len() };
        } else {
            assert(list_scan(a, i as int, before) == list_scan(a, i + 1, target@));
            i += 1;
        }
    }
    if target.as_str().unicode_len() > 0 {
        match crate::refs::extract_workspace_ref(target.as_str()) {
            Some(w) => w,
            None => String::new(),
        }
    } else {
        String::new()
    }
}

/// A call made of `head`, then `--workspace` and the workspace when there is one.
pub open spec fn with_workspace(head: Seq<Seq<char>>, workspace: Seq<char>) -> Seq<Seq<char>> {
    head + (if workspace.len() > 0 {
        seq!["--workspace"@, workspace]
    } else {
        Seq::empty()
    })
}

/// `has-session`: whether cmux answers a ping decides; the session asked for plays no part,
/// as there is one multiplexer.
pub fn cmd_has_session(args: &Vec<String>) -> (r: Vec<String>)
    ensures
        views(r@) == seq!["ping"@],
{
    let mut c: Vec<String> = Vec::new();
    push_str(&mut c, lit("ping"));
    assert(views(c@) =~= seq!["ping"@]);
    c
}

/// `list-sessions`: the workspaces, listed with the arguments passed on.
pub fn cmd_list_sessions(args: &Vec<String>) -> (r: Vec<String>)
    ensures
        views(r@) == seq!["list-workspaces"@] + views(args@),
{
    let mut c: Vec<String> = Vec::new();
    push_str(&mut c, lit("list-workspaces"));
    let mut j: usize = 0;
    while j < args.len()
        invariant
            j <= args@.len(),
            views(c@) == seq!["list-workspaces"@] + views(args@).take(j as int),
        decreases args.len() - j,
    {
        push_str(&mut c, args[j].clone());
        assert(views(args@).take(j + 1) =~= views(args@).take(j as int).push(views(args@)[j as int]));
        assert(views(c@) =~= seq!["list-workspaces"@] + views(args@).take(j + 1));
        j += 1;
    }
    assert(views(args@).take(args@.len() as int) =~= views(args@));
    c
}

/// A subcommand that the bridge does not know is passed to cmux as it stands.
pub fn forward_call(name: &String, rest: &Vec<String>) -> (r: Vec<String>)
    ensures
        views(r@) == seq![name@] + views(rest@),
{
    let mut c: Vec<String> = Vec::new();
    push_str(&mut c, name.clone());
    let mut j: usize = 0;
    while j < rest.len()
        invariant
            j <= rest@.len(),
            views(c@) == seq![name@] + views(rest@).take(j as int),
        decreases rest.len() - j,
    {
        push_str(&mut c, rest[j].clone());
        assert(views(rest@).take(j + 1) =~= views(rest@).take(j as int).push(views(rest@)[j as int]));
        assert(views(c@) =~= seq![name@] + views(rest@).take(j + 1));
        j += 1;
    }
    assert(views(rest@).take(rest@.len() as int) =~= views(rest@));
    c
}


// ---------------------------------------------------------------------------------------
// dispatch

/// The subcommands a bridge carries out itself; the others are ignored or passed on.
#[derive(Debug, PartialEq, Eq, Structural)]
pub enum Command {
    SplitWindow,
    SendKeys,
    SelectPane,
    ListPanes,
    HasSession,
    KillPane,
    KillSession,
    ListSessions,
    NewWindow,
    NewSession,
    DisplayMessage,
    CapturePane,
    ResizePane,
    SelectLayout,
    KillWindow,
    /// Accepted and not acted on (`set-option`, `break-pane`, ...).
    Ignore,
    /// Passed to cmux as it stands.
    Forward,
}

/// Which subcommand a name asks for; `select-layout` is carried out only where `layouts`
/// says the bridge arranges layouts, and ignored elsewhere.
pub open spec fn spec_command(name: Seq<char>, layouts: bool) -> Command {
    if name == "split-window"@ {
        Command::SplitWindow
    } else if name == "send-keys"@ {
        Command::SendKeys
    } else if name == "select-pane"@ {
        Command::SelectPane
    } else if name == "list-panes"@ {
        Command::ListPanes
    } else if name == "has-session"@ || name == "-has-session"@ {
        Command::HasSession
    } else if name == "kill-pane"@ {
        Command::KillPane
    } else if name == "kill-session"@ {
        Command::KillSession
    } else if name == "ls"@ || name == "list-sessions"@ {
        Command::ListSessions
    } else if name == "new-window"@ {
        Command::NewWindow
    } else if name == "new-session"@ {
        Command::NewSession
    } else if name == "display-message"@ {
        Command::DisplayMessage
    } else if name == "capture-pane"@ {
        Command::CapturePane
    } else if name == "resize-pane"@ {
        Command::ResizePane
    } else if name == "set-option"@ || name == "set"@ {
        Command::Ignore
    } else if name == "select-layout"@ {
        if layouts {
            Command::SelectLayout
        } else {
            Command::Ignore
        }
    } else if name == "break-pane"@ || name == "join-pane"@ {
        Command::Ignore
    } else if name == "kill-window"@ {
        Command::KillWindow
    } else {
        Command::Forward
    }
}

pub fn command_for(name: &String, layouts: bool) -> (r: Command)
    ensures
        r == spec_command(name@, layouts),
{
    if same(name, "split-window") {
        Command::SplitWindow
    } else if same(name, "send-keys") {
        Command::SendKeys
    } else if same(name, "select-pane") {
        Command::SelectPane
    } else if same(name, "list-panes") {
        Command::ListPanes
    } else if same(name, "has-session") || same(name, "-has-session") {
        Command::HasSession
    } else if same(name, "kill-pane") {
        Command::KillPane
    } else if same(name, "kill-session") {
        Command::KillSession
    } else if same(name, "ls") || same(name, "list-sessions") {
        Command::ListSessions
    } else if same(name, "new-window") {
        Command::NewWindow
    } else if same(name, "new-session") {
        Command::NewSession
    } else if same(name, "display-message") {
        Command::DisplayMessage
    } else if same(name, "capture-pane") {
        Command::CapturePane
    } else if same(name, "resize-pane") {
        Command::ResizePane
    } else if same(name, "set-option") || same(name, "set") {
        Command::Ignore
    } else if same(name, "select-layout") {
        if layouts {
            Command::SelectLayout
        } else {
            Command::Ignore
        }
    } else if same(name, "break-pane") || same(name, "join-pane") {
        Command::Ignore
    } else if same(name, "kill-window") {
        Command::KillWindow
    } else {
        Command::Forward
    }
}

/// The call that asks the multiplexer who the caller is.
pub fn identify_call() -> (r: Vec<String>)
    ensures
        views(r@) == seq!["identify"@, "--json"@],
{
    let mut c: Vec<String> = Vec::new();
    push_str(&mut c, lit("identify"));
    push_str(&mut c, lit("--json"));
    assert(views(c@) =~= seq!["identify"@, "--json"@]);
    c
}

/// The identify reply as text: what the call printed, or empty when it failed.
pub fn identify_json(reply: Option<String>) -> (r: String)
    ensures
        r@ == match reply {
            Some(t) => t@,
            None => Seq::empty(),
        },
{
    match reply {
        Some(t) => t,
        None => String::new(),
    }
}

// ---------------------------------------------------------------------------------------
// send-keys

/// Reading `send-keys` arguments from position `i`: a `-t` with a value sets the target
/// (its `%` removed) and every other word is a key. A `-t` that ends the line is a key
/// where `lone_target_is_key` holds and is dropped elsewhere.
pub open spec fn keys_scan(
    args: Seq<Seq<char>>,
    i: int,
    target: Seq<char>,
    keys: Seq<Seq<char>>,
    lone_target_is_key: bool,
) -> (Seq<char>, Seq<Seq<char>>)
    decreases args.len() + 1 - i,
{
    if i < 0 || i >= args.len() {
        (target, keys)
    } else if args[i] == "-t"@ && i + 1 < args.len() {
        keys_scan(args, i + 2, spec_strip_pane_prefix(args[i + 1]), keys, lone_target_is_key)
    } else if args[i] == "-t"@ && !lone_target_is_key {
        keys_scan(args, i + 1, target, keys, lone_target_is_key)
    } else {
        keys_scan(args, i + 1, target, keys.push(args[i]), lone_target_is_key)
    }
}

pub open spec fn spec_keys(args: Seq<Seq<char>>, lone_target_is_key: bool) -> (
    Seq<char>,
    Seq<Seq<char>>,
) {
    keys_scan(args, 0, Seq::empty(), Seq::empty(), lone_target_is_key)
}

/// The target and the keys that `send-keys` was given.
pub fn parse_send_keys(args: &Vec<String>, lone_target_is_key: bool) -> (r: (String, Vec<String>))
    ensures
        (r.0@, views(r.1@)) == spec_keys(views(args@), lone_target_is_key),
{
    let ghost a = views(args@);
    let mut target = String::new();
    let mut keys: Vec<String> = Vec::new();
    assert(views(keys@) =~= Seq::<Seq<char>>::empty());
    let mut i: usize = 0;
    while i < args.len()
        invariant
            a == views(args@),
            i <= args@.len(),
            spec_keys(a, lone_target_is_key) == keys_scan(
                a,
                i as int,
                target@,
                views(keys@),
                lone_target_is_key,
            ),
        decreases args.len() - i,
    {
        let ghost t0 = target@;
        let ghost k0 = views(keys@);
        let is_t = same(&args[i], "-t");
        if is_t && args.len() - i >= 2 {
            target = strip_pane_prefix(args[i + 1].as_str());
            assert(keys_scan(a, i as int, t0, k0, lone_target_is_key) == keys_scan(
                a,
                i + 2,
                target@,
                views(keys@),
                lone_target_is_key,
            ));
            i += 2;
        } else if is_t && !lone_target_is_key {
            assert(keys_scan(a, i as int, t0, k0, lone_target_is_key) == keys_scan(
                a,
                i + 1,
                target@,
                views(keys@),
                lone_target_is_key,
            ));
            i += 1;
        } else {
            push_str(&mut keys, args[i].clone());
            assert(keys_scan(a, i as int, t0, k0, lone_target_is_key) == keys_scan(
                a,
                i + 1,
                target@,
                views(keys@),
                lone_target_is_key,
            ));
            i += 1;
        }
    }
    (target, keys)
}

/// The tmux key names that cmux knows under another name or sends as a control char.
pub open spec fn is_named_key(key: Seq<char>) -> bool {
    key == "Enter"@ || key == "enter"@ || key == "Escape"@ || key == "escape"@ || key == "C-c"@
        || key == "C-d"@ || key == "Space"@ || key == "Tab"@ || key == "BSpace"@
}

/// How one key is sent: which cmux verb, and what it sends. Named keys map to cmux key
/// names or control chars; any other word is typed as text.
pub open spec fn key_verb_payload(key: Seq<char>) -> (Seq<char>, Seq<char>) {
    if key == "Enter"@ || key == "enter"@ {
        ("send-key"@, "enter"@)
    } else if key == "Escape"@ || key == "escape"@ || key == "C-c"@ {
        ("send-key"@, "escape"@)
    } else if key == "C-d"@ {
        ("send"@, "\x04"@)
    } else if key == "Space"@ {
        ("send"@, " "@)
    } else if key == "Tab"@ {
        ("send-key"@, "tab"@)
    } else if key == "BSpace"@ {
        ("send-key"@, "backspace"@)
    } else {
        ("send"@, key)
    }
}

/// The call that sends one key to the target (the focused surface when it is empty).
pub open spec fn key_call(key: Seq<char>, target: Seq<char>) -> Seq<Seq<char>> {
    let (verb, payload) = key_verb_payload(key);
    seq![verb] + surface_args(target) + seq![payload]
}

/// A call made of `verb`, the surface arguments for `target`, and `payload`.
pub fn verb_call(verb: &str, target: &String, payload: &str) -> (r: Vec<String>)
    ensures
        views(r@) == seq![verb@] + surface_args(target@) + seq![payload@],
{
    let mut c: Vec<String> = Vec::new();
    push_str(&mut c, verb.to_owned());
    if target.as_str().unicode_len() > 0 {
        push_str(&mut c, lit("--surface"));
        push_str(&mut c, target.clone());
    }
    push_str(&mut c, payload.to_owned());
    assert(views(c@) =~= seq![verb@] + surface_args(target@) + seq![payload@]);
    c
}

pub fn send_key_call(key: &String, target: &String) -> (r: Vec<String>)
    ensures
        views(r@) == key_call(key@, target@),
        is_named_key(key@) || views(r@) == seq!["send"@] + surface_args(target@) + seq![key@],
{
    if same(key, "Enter") || same(key, "enter") {
        verb_call("send-key", target, "enter")
    } else if same(key, "Escape") || same(key, "escape") || same(key, "C-c") {
        verb_call("send-key", target, "escape")
    } else if same(key, "C-d") {
        verb_call("send", target, "\x04")
    } else if same(key, "Space") {
        verb_call("send", target, " ")
    } else if same(key, "Tab") {
        verb_call("send-key", target, "tab")
    } else if same(key, "BSpace") {
        verb_call("send-key", target, "backspace")
    } else {
        verb_call("send", target, key.as_str())
    }
}

pub open spec fn call_views(calls: Seq<Vec<String>>) -> Seq<Seq<Seq<char>>> {
    calls.map_values(|c: Vec<String>| views(c@))
}

pub fn push_call(v: &mut Vec<Vec<String>>, c: Vec<String>)
    ensures
        call_views(final(v)@) == call_views(old(v)@).push(views(c@)),
{
    let ghost before = v@;
    v.push(c);
    assert(v@ =~= before.push(c));
    assert(call_views(v@) =~= call_views(before).push(views(c@)));
}

} // verus!

verus! {

/// After a split, `-P` prints the new surface's pane id as the last step, whether or not a
/// command was typed into it; without `-P`, or without a new surface, nothing is printed.
pub proof fn law_split_prints_new_pane(req: SplitRequest, surface: Seq<char>)
    ensures
        req.print_id && surface.len() > 0 ==> spec_split_followup(req, surface).len() > 0
            && spec_split_followup(req, surface).last() == Action::Say(pane_id(surface)),
        !(req.print_id && surface.len() > 0) ==> forall|j: int|
            0 <= j < spec_split_followup(req, surface).len() ==> !(
            #[trigger] spec_split_followup(req, surface)[j] is Say),
{
}

/// A key that is not a named key is typed as it stands; a named key is never typed as its
/// own name. Escape, escape and C-c all press the escape key.
pub proof fn law_keys_named_or_typed(key: Seq<char>, target: Seq<char>)
    ensures
        !is_named_key(key) ==> key_call(key, target) == seq!["send"@] + surface_args(target)
            + seq![key],
        is_named_key(key) ==> key_call(key, target) != seq!["send"@] + surface_args(target)
            + seq![key],
        key_call("Escape"@, target) == seq!["send-key"@] + surface_args(target) + seq![
            "escape"@,
        ],
        key_call("escape"@, target) == key_call("Escape"@, target),
        key_call("C-c"@, target) == key_call("Escape"@, target),
{
    reveal_strlit("send");
    reveal_strlit("send-key");
    reveal_strlit("C-d");
    reveal_strlit("\x04");
    reveal_strlit("Space");
    reveal_strlit(" ");
    reveal_strlit("Enter");
    reveal_strlit("enter");
    reveal_strlit("Escape");
    reveal_strlit("escape");
    reveal_strlit("C-c");
    assert("Escape"@.len() != "Enter"@.len() && "Escape"@.len() != "enter"@.len());
    assert("escape"@.len() != "Enter"@.len() && "escape"@.len() != "enter"@.len());
    assert("C-c"@.len() != "Enter"@.len() && "C-c"@.len() != "enter"@.len());
    if is_named_key(key) {
        let (verb, payload) = key_verb_payload(key);
        let plain = seq!["send"@] + surface_args(target) + seq![key];
        let call = key_call(key, target);
        assert(call[0] == verb);
        assert(plain[0] == "send"@);
        assert(call.len() == plain.len());
        assert(call.last() == payload);
        assert(plain.last() == key);
        if verb == "send"@ {
            assert(key == "C-d"@ || key == "Space"@);
            assert(payload.len() != key.len());
        } else {
            assert(verb.len() != ("send"@).len());
        }
    }
}

/// The relative `resize-pane` call carries the direction that was read, unchanged, right
/// after the target; there is a call exactly when a direction was read.
pub proof fn law_resize_keeps_direction(req: ResizeRequest)
    ensures
        spec_resize_call(req) is Some <==> req.direction.len() > 0,
        spec_resize_call(req) matches Some(c) ==> c[0] == "resize-pane"@ && c[if req.target.len()
            > 0 {
            3int
        } else {
            1int
        }] == req.direction,
        spec_resize_call(req) matches Some(c) ==> (req.target.len() > 0 ==> c[1] == "--pane"@
            && c[2] == req.target),
        spec_resize_call(req) matches Some(c) ==> (req.amount.len() > 0 ==> c.len() >= 3
            && c[c.len() - 2] == "--amount"@ && c.last() == req.amount) && (req.amount.len() == 0
            ==> c.last() == req.direction),
{
}

/// The direction that `resize-pane` reads is empty or one of `-L`, `-R`, `-U`, `-D`, and
/// is then one of the arguments given.
pub proof fn law_resize_direction_given(args: Seq<Seq<char>>)
    ensures
        spec_resize_options(args).direction.len() == 0 || (is_direction(
            spec_resize_options(args).direction,
        ) && args.contains(spec_resize_options(args).direction)),
{
    lemma_resize_direction(args, 0, ResizeRequest {
        target: Seq::empty(),
        direction: Seq::empty(),
        amount: Seq::empty(),
        width: Seq::empty(),
        height: Seq::empty(),
    });
}

proof fn lemma_resize_direction(args: Seq<Seq<char>>, i: int, st: ResizeRequest)
    requires
        0 <= i,
        st.direction.len() == 0 || (is_direction(st.direction) && args.contains(st.direction)),
    ensures
        resize_scan(args, i, st).direction.len() == 0 || (is_direction(
            resize_scan(args, i, st).direction,
        ) && args.contains(resize_scan(args, i, st).direction)),
    decreases args.len() + 1 - i,
{
    if i < args.len() {
        let a = args[i];
        let has_next = i + 1 < args.len();
        if a == "-t"@ && has_next {
            lemma_resize_direction(
                args,
                i + 2,
                ResizeRequest { target: spec_strip_pane_prefix(args[i + 1]), ..st },
            );
        } else if is_direction(a) {
            assert(args.contains(a));
            lemma_resize_direction(args, i + 1, ResizeRequest { direction: a, ..st });
        } else if a == "-x"@ {
            if has_next {
                lemma_resize_direction(args, i + 2, ResizeRequest { width: args[i + 1], ..st });
            } else {
                lemma_resize_direction(args, i + 2, st);
            }
        } else if a == "-y"@ {
            if has_next {
                lemma_resize_direction(args, i + 2, ResizeRequest { height: args[i + 1], ..st });
            } else {
                lemma_resize_direction(args, i + 2, st);
            }
        } else if !is_flag(a) {
            lemma_resize_direction(args, i + 1, ResizeRequest { amount: a, ..st });
        } else {
            lemma_resize_direction(args, i + 1, st);
        }
    }
}

/// `display-message` answers with the window and workspace only when the format names both
/// `session_name` and `window_index`; a format that names at most one of them is forwarded,
/// unless it asks for `pane_id`. Nothing is answered without `-p` or without a format.
pub proof fn law_display_needs_both_names(args: Seq<Seq<char>>)
    ensures
        ({
            let (print, format) = display_scan(args, 0, false, Seq::empty());
            &&& spec_display_plan(args) is WindowAndWorkspace ==> print && contains(
                format,
                "session_name"@,
            ) && contains(format, "window_index"@)
            &&& print && format.len() > 0 && !(contains(format, "session_name"@) && contains(
                format,
                "window_index"@,
            )) && !contains(format, "pane_id"@) ==> spec_display_plan(args) == DisplayKind::Forward(
                format,
            )
            &&& !(print && format.len() > 0) ==> spec_display_plan(args) is Nothing
        }),
{
}

} // verus!
