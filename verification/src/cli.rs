use vstd::prelude::*;
use crate::text::{text_eq, starts_with_dash, texts};

verus! {

/// What the program is asked to do.
#[derive(Clone, Copy, PartialEq, Eq, Debug)]
pub enum Action {
    Compile,
    AddChapter,
    ListChapters,
    Stats,
    CalcFile,
    CalcWords,
    CalcPages,
    Read,
}

/// The kinds of command-line arguments the program looks for.
#[derive(Clone, Copy, PartialEq, Eq, Debug)]
pub enum ArgKind {
    /// A flag that selects an action.
    Command(Action),
    Help,
    Chapter,
    Word,
    Page,
    View,
}

/// Whether the argument `s` is one of the kind `k`.
pub open spec fn arg_is(k: ArgKind, s: Seq<char>) -> bool {
    match k {
        ArgKind::Command(a) => match a {
            Action::Compile => s == "--compile"@,
            Action::AddChapter => s == "--add-chapter"@ || s == "--add_chapter"@ || s == "-a"@,
            Action::ListChapters => s == "--list-chapters"@ || s == "-l"@ || s == "--chapters"@,
            Action::Stats => s == "--stats"@ || s == "-s"@,
            Action::CalcFile => s == "--calc"@,
            Action::CalcWords => s == "--calc-words"@ || s == "-cw"@,
            Action::CalcPages => s == "--calc-pages"@ || s == "-cp"@,
            Action::Read => false,
        },
        ArgKind::Help => s == "-h"@ || s == "--help"@,
        ArgKind::Chapter => s == "-c"@ || s == "--chapter"@,
        ArgKind::Word => s == "-w"@ || s == "--word"@,
        ArgKind::Page => s == "-p"@ || s == "--page"@ || s == "--pages"@,
        ArgKind::View => s == "--view"@ || s == "-v"@,
    }
}

/// Whether the argument `s` is one of the kind `k`.
pub fn arg_matches(k: ArgKind, s: &str) -> (r: bool)
    ensures
        r == arg_is(k, s@),
{
    match k {
        ArgKind::Command(a) => match a {
            Action::Compile => text_eq(s, "--compile"),
            Action::AddChapter => text_eq(s, "--add-chapter") || text_eq(s, "--add_chapter") || text_eq(s, "-a"),
            Action::ListChapters => text_eq(s, "--list-chapters") || text_eq(s, "-l") || text_eq(s, "--chapters"),
            Action::Stats => text_eq(s, "--stats") || text_eq(s, "-s"),
            Action::CalcFile => text_eq(s, "--calc"),
            Action::CalcWords => text_eq(s, "--calc-words") || text_eq(s, "-cw"),
            Action::CalcPages => text_eq(s, "--calc-pages") || text_eq(s, "-cp"),
            Action::Read => false,
        },
        ArgKind::Help => text_eq(s, "-h") || text_eq(s, "--help"),
        ArgKind::Chapter => text_eq(s, "-c") || text_eq(s, "--chapter"),
        ArgKind::Word => text_eq(s, "-w") || text_eq(s, "--word"),
        ArgKind::Page => text_eq(s, "-p") || text_eq(s, "--page") || text_eq(s, "--pages"),
        ArgKind::View => text_eq(s, "--view") || text_eq(s, "-v"),
    }
}

/// The position of the first argument, from `k` on, of the kind `kind`.
pub open spec fn first_arg(args: Seq<Seq<char>>, kind: ArgKind, k: int) -> Option<int>
    decreases args.len() - k,
{
    if k < 0 || k >= args.len() {
        None
    } else if arg_is(kind, args[k]) {
        Some(k)
    } else {
        first_arg(args, kind, k + 1)
    }
}

proof fn lemma_first_arg_range(args: Seq<Seq<char>>, kind: ArgKind, k: int)
    ensures
        first_arg(args, kind, k) matches Some(i) ==> k <= i < args.len() && arg_is(kind, args[i]),
    decreases args.len() - k,
{
    if 0 <= k < args.len() && !arg_is(kind, args[k]) {
        lemma_first_arg_range(args, kind, k + 1);
    }
}

/// The position of the first argument of the kind `kind`.
pub fn find_arg(args: &Vec<String>, kind: ArgKind) -> (r: Option<usize>)
    ensures
        r is Some == first_arg(texts(args@), kind, 0) is Some,
        r matches Some(i) ==> first_arg(texts(args@), kind, 0) == Some(i as int),
        r matches Some(i) ==> i < args.len() && arg_is(kind, args@[i as int]@),
{
    let ghost t = texts(args@);
    let n = args.len();
    let mut k: usize = 0;
    while k < n
        invariant
            n == args@.len(),
            t == texts(args@),
            t.len() == n,
            k <= n,
            first_arg(t, kind, 0) == first_arg(t, kind, k as int),
        decreases n - k,
    {
        assert(t[k as int] == args@[k as int]@);
        proof {
            lemma_first_arg_range(t, kind, k as int);
        }
        if arg_matches(kind, args[k].as_str()) {
            return Some(k);
        }
        k = k + 1;
    }
    None
}

/// The actions chosen by flags, in the order in which they are tried.
pub open spec fn command_actions() -> Seq<Action> {
    seq![
        Action::Compile,
        Action::AddChapter,
        Action::ListChapters,
        Action::Stats,
        Action::CalcFile,
        Action::CalcWords,
        Action::CalcPages,
    ]
}

/// How many arguments must follow the flag of an action.
pub open spec fn required_args(a: Action) -> int {
    match a {
        Action::Compile => 1,
        Action::AddChapter => 2,
        Action::CalcFile => 1,
        Action::CalcWords => 2,
        Action::CalcPages => 2,
        _ => 0,
    }
}

/// Whether an action works on a target file named by the first argument.
pub open spec fn requires_file(a: Action) -> bool {
    !(a == Action::CalcWords || a == Action::CalcPages)
}

/// The first action, in the order of `command_actions` from `k` on, whose
/// flag occurs among the arguments, with the position of that flag.
pub open spec fn matched_command(args: Seq<Seq<char>>, k: int) -> Option<(Action, int)>
    decreases 7 - k,
{
    if k < 0 || k >= 7 {
        None
    } else {
        match first_arg(args, ArgKind::Command(command_actions()[k]), 0) {
            Some(i) => Some((command_actions()[k], i)),
            None => matched_command(args, k + 1),
        }
    }
}

/// How the program answers its arguments before it does any work.
#[derive(Clone, Copy, PartialEq, Eq, Debug)]
pub enum Dispatch {
    /// Show the usage text.
    Help,
    /// The flag at `flag_index` lacks the arguments that must follow it.
    MissingArguments { action: Action, flag_index: usize },
    /// The flag at `flag_index` needs a target file as first argument.
    NeedsTargetFile { action: Action, flag_index: usize },
    /// Reading needs a target file as first argument.
    NoTargetFile,
    /// Do `action`, chosen by the flag at `flag_index` (0 for reading).
    Run { action: Action, flag_index: usize },
}

/// How the program answers the arguments `args`, the program's own name
/// first: with fewer than two arguments or with `-h` or `--help` it shows
/// its usage; otherwise the first action whose flag occurs is chosen, and
/// reading when none does.
pub open spec fn dispatch_of(args: Seq<Seq<char>>) -> Dispatch {
    if args.len() < 2 || first_arg(args, ArgKind::Help, 0) is Some {
        Dispatch::Help
    } else {
        let first_is_option = args[1].len() > 0 && args[1][0] == '-';
        match matched_command(args, 0) {
            Some((a, i)) => if args.len() <= i + required_args(a) {
                Dispatch::MissingArguments { action: a, flag_index: i as usize }
            } else if requires_file(a) && first_is_option {
                Dispatch::NeedsTargetFile { action: a, flag_index: i as usize }
            } else {
                Dispatch::Run { action: a, flag_index: i as usize }
            },
            None => if first_is_option {
                Dispatch::NoTargetFile
            } else {
                Dispatch::Run { action: Action::Read, flag_index: 0 }
            },
        }
    }
}

fn command_action(k: usize) -> (a: Action)
    requires
        k < 7,
    ensures
        a == command_actions()[k as int],
{
    match k {
        0 => Action::Compile,
        1 => Action::AddChapter,
        2 => Action::ListChapters,
        3 => Action::Stats,
        4 => Action::CalcFile,
        5 => Action::CalcWords,
        _ => Action::CalcPages,
    }
}

/// How many arguments must follow the flag of an action.
pub fn action_required_args(a: Action) -> (n: usize)
    ensures
        n == required_args(a),
{
    match a {
        Action::Compile => 1,
        Action::AddChapter => 2,
        Action::CalcFile => 1,
        Action::CalcWords => 2,
        Action::CalcPages => 2,
        _ => 0,
    }
}

/// Decides how the program answers its arguments.
pub fn dispatch(args: &Vec<String>) -> (d: Dispatch)
    ensures
        d == dispatch_of(texts(args@)),
{
    let ghost t = texts(args@);
    if args.len() < 2 || find_arg(args, ArgKind::Help).is_some() {
        return Dispatch::Help;
    }
    assert(t[1] == args@[1]@);
    let first_is_option = starts_with_dash(args[1].as_str());
    let mut k: usize = 0;
    while k < 7
        invariant
            t == texts(args@),
            args@.len() >= 2,
            k <= 7,
            matched_command(t, 0) == matched_command(t, k as int),
            t.len() == args@.len(),
            first_arg(t, ArgKind::Help, 0) is None,
            first_is_option == (t[1].len() > 0 && t[1][0] == '-'),
        decreases 7 - k,
    {
        let a = command_action(k);
        proof {
            lemma_first_arg_range(t, ArgKind::Command(a), 0);
        }
        match find_arg(args, ArgKind::Command(a)) {
            Some(i) => {
                let req = action_required_args(a);
                if args.len() - i <= req {
                    return Dispatch::MissingArguments { action: a, flag_index: i };
                }
                let needs_file = match a {
                    Action::CalcWords | Action::CalcPages => false,
                    _ => true,
                };
                if needs_file && first_is_option {
                    return Dispatch::NeedsTargetFile { action: a, flag_index: i };
                }
                return Dispatch::Run { action: a, flag_index: i };
            },
            None => {},
        }
        k = k + 1;
    }
    if first_is_option {
        Dispatch::NoTargetFile
    } else {
        Dispatch::Run { action: Action::Read, flag_index: 0 }
    }
}

/// Whether the words are to be shown in the scrolling reader view
/// rather than one at a time: `--view` or `-v` among the arguments.
pub fn wants_viewer(args: &Vec<String>) -> (r: bool)
    ensures
        r == (first_arg(texts(args@), ArgKind::View, 0) is Some),
{
    find_arg(args, ArgKind::View).is_some()
}

proof fn lemma_first_arg_finds(args: Seq<Seq<char>>, kind: ArgKind, from: int, k: int)
    requires
        0 <= from <= k < args.len(),
        arg_is(kind, args[k]),
    ensures
        first_arg(args, kind, from) matches Some(i) && from <= i <= k,
    decreases k - from,
{
    if !arg_is(kind, args[from]) {
        lemma_first_arg_finds(args, kind, from + 1, k);
    }
}

/// Whether an argument of the kind `kind` is found at or before `k`.
pub open spec fn found_by(args: Seq<Seq<char>>, kind: ArgKind, k: int) -> bool {
    first_arg(args, kind, 0) matches Some(i) && i <= k
}

/// Every documented flag is recognised wherever it stands: the search for
/// its kind finds it, or an earlier flag of the same kind.
pub proof fn documented_flags_are_recognised(args: Seq<Seq<char>>, k: int)
    requires
        0 <= k < args.len(),
    ensures
        args[k] == "--view"@ || args[k] == "-v"@ ==> found_by(args, ArgKind::View, k),
        args[k] == "-h"@ || args[k] == "--help"@ ==> found_by(args, ArgKind::Help, k),
        args[k] == "-c"@ || args[k] == "--chapter"@ ==> found_by(args, ArgKind::Chapter, k),
        args[k] == "-w"@ || args[k] == "--word"@ ==> found_by(args, ArgKind::Word, k),
        args[k] == "-p"@ || args[k] == "--page"@ || args[k] == "--pages"@ ==> found_by(args, ArgKind::Page, k),
        args[k] == "--compile"@ ==> found_by(args, ArgKind::Command(Action::Compile), k),
        args[k] == "--add-chapter"@ || args[k] == "--add_chapter"@ || args[k] == "-a"@ ==> found_by(args, ArgKind::Command(Action::AddChapter), k),
        args[k] == "--list-chapters"@ || args[k] == "-l"@ || args[k] == "--chapters"@ ==> found_by(args, ArgKind::Command(Action::ListChapters), k),
        args[k] == "--stats"@ || args[k] == "-s"@ ==> found_by(args, ArgKind::Command(Action::Stats), k),
        args[k] == "--calc"@ ==> found_by(args, ArgKind::Command(Action::CalcFile), k),
        args[k] == "--calc-words"@ || args[k] == "-cw"@ ==> found_by(args, ArgKind::Command(Action::CalcWords), k),
        args[k] == "--calc-pages"@ || args[k] == "-cp"@ ==> found_by(args, ArgKind::Command(Action::CalcPages), k),
{
    let kinds = seq![
        ArgKind::View,
        ArgKind::Help,
        ArgKind::Chapter,
        ArgKind::Word,
        ArgKind::Page,
        ArgKind::Command(Action::Compile),
        ArgKind::Command(Action::AddChapter),
        ArgKind::Command(Action::ListChapters),
        ArgKind::Command(Action::Stats),
        ArgKind::Command(Action::CalcFile),
        ArgKind::Command(Action::CalcWords),
        ArgKind::Command(Action::CalcPages),
    ];
    assert forall|j: int| 0 <= j < kinds.len() && arg_is(#[trigger] kinds[j], args[k]) implies found_by(args, kinds[j], k) by {
        lemma_first_arg_finds(args, kinds[j], 0, k);
    }
    assert(kinds[0] == ArgKind::View);
    assert(kinds[1] == ArgKind::Help);
    assert(kinds[2] == ArgKind::Chapter);
    assert(kinds[3] == ArgKind::Word);
    assert(kinds[4] == ArgKind::Page);
    assert(kinds[5] == ArgKind::Command(Action::Compile));
    assert(kinds[6] == ArgKind::Command(Action::AddChapter));
    assert(kinds[7] == ArgKind::Command(Action::ListChapters));
    assert(kinds[8] == ArgKind::Command(Action::Stats));
    assert(kinds[9] == ArgKind::Command(Action::CalcFile));
    assert(kinds[10] == ArgKind::Command(Action::CalcWords));
    assert(kinds[11] == ArgKind::Command(Action::CalcPages));
}

/// `-h` or `--help` anywhere among at least two arguments shows the usage.
pub proof fn help_flag_shows_usage(args: Seq<Seq<char>>, k: int)
    requires
        0 <= k < args.len(),
        args[k] == "-h"@ || args[k] == "--help"@,
    ensures
        dispatch_of(args) == Dispatch::Help,
{
    lemma_first_arg_finds(args, ArgKind::Help, 0, k);
}

/// `--compile` followed by an output name, with a target file first and
/// no help flag, compiles: no other flag takes precedence over it.
pub proof fn compile_flag_compiles(args: Seq<Seq<char>>, k: int)
    requires
        2 <= k + 1 < args.len(),
        args[k] == "--compile"@,
        first_arg(args, ArgKind::Help, 0) is None,
        !(args[1].len() > 0 && args[1][0] == '-'),
    ensures
        dispatch_of(args) matches Dispatch::Run { action, flag_index } && action == Action::Compile && flag_index
            <= k,
{
    lemma_first_arg_finds(args, ArgKind::Command(Action::Compile), 0, k);
    lemma_first_arg_range(args, ArgKind::Command(Action::Compile), 0);
    assert(command_actions()[0] == Action::Compile);
}

} // verus!
