//! The command line: `[--ts <ms>] <file>`.

use vstd::prelude::*;

use crate::decimal::{number, parse_number};
use crate::text::{same_text, views};

verus! {

/// What the program is told to do.
pub struct Config {
    /// The file that utterances are appended to.
    pub output_file: String,
    /// The pause, in milliseconds, that begins a new timestamped line. `None` writes no timestamps.
    pub timestamp_gap_ms: Option<u64>,
}

/// What a command line asks for.
pub enum Invocation {
    /// The usage is shown and the program ends with this code.
    Usage(i32),
    /// The message is shown and the program ends with code 1.
    Refused(String),
    /// The program runs.
    Run(Config),
}

/// What a command line asks for, with texts as sequences of characters.
pub enum InvocationView {
    Usage(i32),
    Refused(Seq<char>),
    Run(Seq<char>, Option<u64>),
}

impl View for Invocation {
    type V = InvocationView;

    open spec fn view(&self) -> InvocationView {
        match self {
            Invocation::Usage(code) => InvocationView::Usage(*code),
            Invocation::Refused(message) => InvocationView::Refused(message@),
            Invocation::Run(config) => InvocationView::Run(
                config.output_file@,
                config.timestamp_gap_ms,
            ),
        }
    }
}

/// What the arguments from `at` on ask for, when those before gave `file` and `gap`. The last file
/// and the last gap count.
pub open spec fn options_from(
    args: Seq<Seq<char>>,
    at: int,
    file: Option<Seq<char>>,
    gap: Option<u64>,
) -> InvocationView
    decreases args.len() - at,
{
    if at >= args.len() {
        match file {
            Some(file) => InvocationView::Run(file, gap),
            None => InvocationView::Refused("Error: No output file specified"@),
        }
    } else if args[at] == "--ts"@ {
        if at + 1 < args.len() {
            match number(args[at + 1]) {
                Some(ms) => options_from(args, at + 2, file, Some(ms)),
                None => InvocationView::Refused(
                    "Error: --ts requires a numeric value in milliseconds"@,
                ),
            }
        } else {
            InvocationView::Refused("Error: --ts requires a value"@)
        }
    } else if args[at].len() == 0 || args[at][0] != '-' {
        options_from(args, at + 1, Some(args[at]), gap)
    } else {
        InvocationView::Refused("Error: Unknown option "@ + args[at])
    }
}

/// What a command line, with the name of the program in front, asks for.
pub open spec fn invocation(args: Seq<Seq<char>>) -> InvocationView {
    if args.len() < 2 {
        InvocationView::Usage(1)
    } else if args[1] == "--help"@ || args[1] == "-h"@ {
        InvocationView::Usage(0)
    } else {
        options_from(args, 1, None, None)
    }
}

/// Whether a text begins with a hyphen.
pub fn is_option(arg: &str) -> (yes: bool)
    ensures
        yes == (arg@.len() > 0 && arg@[0] == '-'),
{
    arg.unicode_len() > 0 && arg.get_char(0) == '-'
}

/// The characters of a text that may be missing.
pub open spec fn option_view(text: Option<String>) -> Option<Seq<char>> {
    match text {
        Some(text) => Some(text@),
        None => None,
    }
}

/// Reads a command line, with the name of the program in front.
pub fn parse_args(args: &Vec<String>) -> (out: Invocation)
    ensures
        out@ == invocation(views(args@)),
{
    let ghost all = views(args@);
    if args.len() < 2 {
        return Invocation::Usage(1);
    }
    if same_text(args[1].as_str(), "--help") || same_text(args[1].as_str(), "-h") {
        return Invocation::Usage(0);
    }
    let mut output_file: Option<String> = None;
    let mut timestamp_gap_ms: Option<u64> = None;
    let mut i: usize = 1;
    while i < args.len()
        invariant
            i <= args.len(),
            all == views(args@),
            invocation(all) == options_from(
                all,
                i as int,
                option_view(output_file),
                timestamp_gap_ms,
            ),
        decreases args.len() - i,
    {
        let arg = args[i].as_str();
        assert(all[i as int] == arg@);
        if same_text(arg, "--ts") {
            if args.len() - i > 1 {
                assert(all[i + 1] == args@[i + 1]@);
                timestamp_gap_ms = parse_number(args[i + 1].as_str());
                if timestamp_gap_ms.is_none() {
                    return Invocation::Refused(
                        "Error: --ts requires a numeric value in milliseconds".to_owned(),
                    );
                }
                i = i + 2;
            } else {
                return Invocation::Refused("Error: --ts requires a value".to_owned());
            }
        } else if !is_option(arg) {
            output_file = Some(args[i].clone());
            i = i + 1;
        } else {
            let mut message = "Error: Unknown option ".to_owned();
            message.append(arg);
            return Invocation::Refused(message);
        }
    }
    match output_file {
        Some(output_file) => Invocation::Run(Config { output_file, timestamp_gap_ms }),
        None => Invocation::Refused("Error: No output file specified".to_owned()),
    }
}

// ---------------------------------------------------------------------------
// Laws
// ---------------------------------------------------------------------------

/// A file name that does not begin with a hyphen is all that is needed; without `--ts` there are
/// no timestamps.
pub proof fn law_file_alone(program: Seq<char>, file: Seq<char>)
    requires
        file.len() == 0 || file[0] != '-',
    ensures
        invocation(seq![program, file]) == InvocationView::Run(file, None),
{
    let args = seq![program, file];
    lemma_literals();
    reveal_with_fuel(options_from, 3);
    assert(args[1] == file);
}

/// `--ts` with a number sets the gap, before the file or behind it.
pub proof fn law_gap_before_or_behind_file(
    program: Seq<char>,
    ms: Seq<char>,
    file: Seq<char>,
)
    requires
        number(ms) is Some,
        file.len() == 0 || file[0] != '-',
    ensures
        invocation(seq![program, "--ts"@, ms, file]) == InvocationView::Run(file, number(ms)),
        invocation(seq![program, file, "--ts"@, ms]) == InvocationView::Run(file, number(ms)),
{
    let before = seq![program, "--ts"@, ms, file];
    let behind = seq![program, file, "--ts"@, ms];
    lemma_literals();
    reveal_with_fuel(options_from, 4);
    assert(before[1] == "--ts"@ && before[2] == ms && before[3] == file);
    assert(behind[1] == file && behind[2] == "--ts"@ && behind[3] == ms);
}

/// The program runs only with a file that is one of its arguments.
pub proof fn law_run_names_a_file(args: Seq<Seq<char>>)
    ensures
        invocation(args) matches InvocationView::Run(file, _) ==> exists|i: int|
            1 <= i < args.len() && #[trigger] args[i] == file && (file.len() == 0 || file[0] != '-'),
{
    if args.len() >= 2 && args[1] != "--help"@ && args[1] != "-h"@ {
        lemma_file_among_args(args, 1, None, None);
    }
}

proof fn lemma_file_among_args(
    args: Seq<Seq<char>>,
    at: int,
    file: Option<Seq<char>>,
    gap: Option<u64>,
)
    requires
        1 <= at,
        file matches Some(f) ==> exists|i: int|
            1 <= i < args.len() && #[trigger] args[i] == f && (f.len() == 0 || f[0] != '-'),
    ensures
        options_from(args, at, file, gap) matches InvocationView::Run(f, _) ==> exists|i: int|
            1 <= i < args.len() && #[trigger] args[i] == f && (f.len() == 0 || f[0] != '-'),
    decreases args.len() - at,
{
    if at < args.len() {
        if args[at] == "--ts"@ {
            if at + 1 < args.len() && number(args[at + 1]) is Some {
                lemma_file_among_args(args, at + 2, file, number(args[at + 1]));
            }
        } else if args[at].len() == 0 || args[at][0] != '-' {
            lemma_file_among_args(args, at + 1, Some(args[at]), gap);
        }
    }
}

/// The literals that arguments are compared with begin with a hyphen.
proof fn lemma_literals()
    ensures
        "--ts"@.len() == 4 && "--ts"@[0] == '-' && "--ts"@[1] == '-' && "--ts"@[2] == 't',
        "--help"@.len() == 6 && "--help"@[0] == '-',
        "-h"@.len() == 2 && "-h"@[0] == '-',
{
    reveal_strlit("--ts");
    reveal_strlit("--help");
    reveal_strlit("-h");
}

/// A part of a command line: a file, or `--ts` with what follows it.
pub enum Part {
    File(Seq<char>),
    Gap(Seq<char>),
}

impl Part {
    /// Whether the part is accepted: the file does not begin with a hyphen, the gap is a number.
    pub open spec fn accepted(self) -> bool {
        match self {
            Part::File(file) => file.len() == 0 || file[0] != '-',
            Part::Gap(ms) => number(ms) is Some,
        }
    }

    /// The arguments of the part.
    pub open spec fn arguments(self) -> Seq<Seq<char>> {
        match self {
            Part::File(file) => seq![file],
            Part::Gap(ms) => seq!["--ts"@, ms],
        }
    }
}

/// The arguments of parts, one behind the other.
pub open spec fn arguments_of(parts: Seq<Part>) -> Seq<Seq<char>>
    decreases parts.len(),
{
    if parts.len() == 0 {
        Seq::empty()
    } else {
        parts[0].arguments() + arguments_of(parts.drop_first())
    }
}

/// The last file among parts.
pub open spec fn last_file(parts: Seq<Part>) -> Option<Seq<char>>
    decreases parts.len(),
{
    if parts.len() == 0 {
        None
    } else {
        match parts.last() {
            Part::File(file) => Some(file),
            Part::Gap(_) => last_file(parts.drop_last()),
        }
    }
}

/// The last gap among parts.
pub open spec fn last_gap(parts: Seq<Part>) -> Option<u64>
    decreases parts.len(),
{
    if parts.len() == 0 {
        None
    } else {
        match parts.last() {
            Part::File(_) => last_gap(parts.drop_last()),
            Part::Gap(ms) => number(ms),
        }
    }
}

proof fn lemma_arguments_of_last(parts: Seq<Part>)
    requires
        parts.len() > 0,
    ensures
        arguments_of(parts) == arguments_of(parts.drop_last()) + parts.last().arguments(),
    decreases parts.len(),
{
    let init = parts.drop_last();
    if parts.len() == 1 {
        assert(parts.drop_first() =~= Seq::empty());
        assert(arguments_of(init) + parts.last().arguments() =~= parts[0].arguments()
            + arguments_of(parts.drop_first()));
    } else {
        lemma_arguments_of_last(parts.drop_first());
        assert(parts.drop_first().drop_last() =~= init.drop_first());
        assert(init[0] == parts[0]);
        assert(arguments_of(parts) =~= arguments_of(init) + parts.last().arguments());
    }
}

/// Parts in front have been dealt with once their arguments have.
proof fn lemma_parts_are_read(program: Seq<char>, parts: Seq<Part>, tail: Seq<Seq<char>>)
    requires
        forall|i: int| 0 <= i < parts.len() ==> (#[trigger] parts[i]).accepted(),
    ensures
        ({
            let args = seq![program] + arguments_of(parts) + tail;
            options_from(args, 1, None, None) == options_from(
                args,
                1 + arguments_of(parts).len() as int,
                last_file(parts),
                last_gap(parts),
            )
        }),
    decreases parts.len(),
{
    if parts.len() > 0 {
        let init = parts.drop_last();
        let last = parts[parts.len() - 1];
        let args = seq![program] + arguments_of(parts) + tail;
        assert forall|i: int| 0 <= i < init.len() implies (#[trigger] init[i]).accepted() by {
            assert(init[i] == parts[i]);
        }
        lemma_arguments_of_last(parts);
        lemma_parts_are_read(program, init, last.arguments() + tail);
        assert(args =~= seq![program] + arguments_of(init) + (last.arguments() + tail));
        let at = 1 + arguments_of(init).len() as int;
        assert(last.accepted());
        lemma_literals();
        match last {
            Part::File(file) => {
                assert(args[at] == file);
            },
            Part::Gap(ms) => {
                assert(args[at] == "--ts"@);
                assert(args[at + 1] == ms);
            },
        }
    }
}

/// No part asks for the usage.
proof fn lemma_first_part(program: Seq<char>, parts: Seq<Part>, tail: Seq<Seq<char>>)
    requires
        parts.len() > 0,
        parts[0].accepted(),
    ensures
        ({
            let args = seq![program] + arguments_of(parts) + tail;
            args.len() >= 2 && args[1] != "--help"@ && args[1] != "-h"@
        }),
{
    let args = seq![program] + arguments_of(parts) + tail;
    lemma_literals();
    match parts[0] {
        Part::File(file) => {
            assert(args[1] == file);
        },
        Part::Gap(ms) => {
            assert(args[1] == "--ts"@);
        },
    }
}

/// Files and gaps may come in any number and any order. The last file and the last gap count, and
/// there has to be a file.
pub proof fn law_last_file_and_gap_count(program: Seq<char>, parts: Seq<Part>)
    requires
        parts.len() > 0,
        forall|i: int| 0 <= i < parts.len() ==> (#[trigger] parts[i]).accepted(),
    ensures
        invocation(seq![program] + arguments_of(parts)) == match last_file(parts) {
            Some(file) => InvocationView::Run(file, last_gap(parts)),
            None => InvocationView::Refused("Error: No output file specified"@),
        },
{
    let none = Seq::<Seq<char>>::empty();
    assert(parts[0].accepted());
    lemma_first_part(program, parts, none);
    lemma_parts_are_read(program, parts, none);
    assert(seq![program] + arguments_of(parts) + none =~= seq![program] + arguments_of(parts));
}

/// `--ts` needs a value, and the value has to be a number; what stands behind does not matter then.
pub proof fn law_gap_is_a_number(
    program: Seq<char>,
    parts: Seq<Part>,
    ms: Seq<char>,
    rest: Seq<Seq<char>>,
)
    requires
        forall|i: int| 0 <= i < parts.len() ==> (#[trigger] parts[i]).accepted(),
        number(ms) is None,
    ensures
        invocation(seq![program] + arguments_of(parts) + seq!["--ts"@]) == InvocationView::Refused(
            "Error: --ts requires a value"@,
        ),
        invocation(seq![program] + arguments_of(parts) + (seq!["--ts"@, ms] + rest))
            == InvocationView::Refused("Error: --ts requires a numeric value in milliseconds"@),
{
    lemma_literals();
    let at = 1 + arguments_of(parts).len() as int;
    let missing = seq![program] + arguments_of(parts) + seq!["--ts"@];
    let wrong = seq![program] + arguments_of(parts) + (seq!["--ts"@, ms] + rest);
    lemma_parts_are_read(program, parts, seq!["--ts"@]);
    lemma_parts_are_read(program, parts, seq!["--ts"@, ms] + rest);
    assert(missing[at] == "--ts"@);
    assert(wrong[at] == "--ts"@ && wrong[at + 1] == ms);
    if parts.len() > 0 {
        assert(parts[0].accepted());
        lemma_first_part(program, parts, seq!["--ts"@]);
        lemma_first_part(program, parts, seq!["--ts"@, ms] + rest);
    }
}

/// Any other argument that begins with a hyphen is refused by its name, unless it asks for the
/// usage in the first place.
pub proof fn law_unknown_option_is_refused(
    program: Seq<char>,
    parts: Seq<Part>,
    option: Seq<char>,
    rest: Seq<Seq<char>>,
)
    requires
        forall|i: int| 0 <= i < parts.len() ==> (#[trigger] parts[i]).accepted(),
        option.len() > 0,
        option[0] == '-',
        option != "--ts"@,
        parts.len() == 0 ==> option != "--help"@ && option != "-h"@,
    ensures
        invocation(seq![program] + arguments_of(parts) + (seq![option] + rest))
            == InvocationView::Refused("Error: Unknown option "@ + option),
{
    let at = 1 + arguments_of(parts).len() as int;
    let args = seq![program] + arguments_of(parts) + (seq![option] + rest);
    lemma_parts_are_read(program, parts, seq![option] + rest);
    assert(args[at] == option);
    if parts.len() > 0 {
        assert(parts[0].accepted());
        lemma_first_part(program, parts, seq![option] + rest);
    }
}

/// The usage is shown if and only if nothing is asked for, and then the program ends with code 1,
/// or the first argument is `--help` or `-h`, and then it ends with code 0.
pub proof fn law_usage(args: Seq<Seq<char>>)
    ensures
        args.len() < 2 ==> invocation(args) == InvocationView::Usage(1),
        args.len() >= 2 && (args[1] == "--help"@ || args[1] == "-h"@) ==> invocation(args)
            == InvocationView::Usage(0),
        args.len() >= 2 && args[1] != "--help"@ && args[1] != "-h"@ ==> !(invocation(
            args,
        ) is Usage),
{
    lemma_options_show_no_usage(args, 1, None, None);
}

proof fn lemma_options_show_no_usage(
    args: Seq<Seq<char>>,
    at: int,
    file: Option<Seq<char>>,
    gap: Option<u64>,
)
    ensures
        !(options_from(args, at, file, gap) is Usage),
    decreases args.len() - at,
{
    if at < args.len() {
        if args[at] == "--ts"@ {
            if at + 1 < args.len() && number(args[at + 1]) is Some {
                lemma_options_show_no_usage(args, at + 2, file, number(args[at + 1]));
            }
        } else if args[at].len() == 0 || args[at][0] != '-' {
            lemma_options_show_no_usage(args, at + 1, Some(args[at]), gap);
        }
    }
}

/// What a command line asks for is taken as it is.
pub proof fn law_invocation_views(code: i32, message: String, config: Config)
    ensures
        Invocation::Usage(code)@ == InvocationView::Usage(code),
        Invocation::Refused(message)@ == InvocationView::Refused(message@),
        Invocation::Run(config)@ == InvocationView::Run(
            config.output_file@,
            config.timestamp_gap_ms,
        ),
{
}

} // verus!
