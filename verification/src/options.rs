//! The command line.

use crate::text::joined;
use vstd::prelude::*;
use vstd::string::*;

verus! {

/// The commit timeout, in seconds, where the command line gives none.
pub const DEFAULT_TIMEOUT: &'static str = "4.0";

/// A command-line argument, and whether it reads as a number. Numbers are
/// kept as text here: only the clock needs their value.
pub struct Arg {
    pub text: String,
    pub is_number: bool,
}

/// What an [`Arg`] stands for.
pub struct ArgView {
    pub text: Seq<char>,
    pub is_number: bool,
}

impl View for Arg {
    type V = ArgView;

    open spec fn view(&self) -> ArgView {
        ArgView { text: self.text@, is_number: self.is_number }
    }
}

/// What the command line asks for.
pub enum Outcome {
    /// Print the usage and exit.
    Help,
    /// Run, with or without trace output, and with this commit timeout in
    /// seconds.
    Run { trace: bool, timeout: String },
    /// `--timeout` is the last argument.
    MissingTimeout,
    /// What follows `--timeout` is not a number.
    InvalidTimeout(String),
    /// An argument that the program does not know.
    UnknownOption(String),
}

/// What an [`Outcome`] stands for.
pub enum OutcomeView {
    Help,
    Run { trace: bool, timeout: Seq<char> },
    MissingTimeout,
    InvalidTimeout(Seq<char>),
    UnknownOption(Seq<char>),
}

impl View for Outcome {
    type V = OutcomeView;

    open spec fn view(&self) -> OutcomeView {
        match self {
            Outcome::Help => OutcomeView::Help,
            Outcome::Run { trace, timeout } => OutcomeView::Run {
                trace: *trace,
                timeout: timeout@,
            },
            Outcome::MissingTimeout => OutcomeView::MissingTimeout,
            Outcome::InvalidTimeout(text) => OutcomeView::InvalidTimeout(text@),
            Outcome::UnknownOption(text) => OutcomeView::UnknownOption(text@),
        }
    }
}

/// A program that ends before it has begun: its exit code, and what it prints.
pub struct Exit {
    pub code: i32,
    pub text: String,
}

/// `--help` or its short form.
pub open spec fn asks_help(text: Seq<char>) -> bool {
    text == "--help"@ || text == "-h"@
}

/// `--trace`.
pub open spec fn asks_trace(text: Seq<char>) -> bool {
    text == "--trace"@
}

/// `--timeout` or its short form.
pub open spec fn asks_timeout(text: Seq<char>) -> bool {
    text == "--timeout"@ || text == "-t"@
}

/// What `args` ask for, read from the left, where the settings so far are
/// `trace` and `timeout`. The first argument that asks for help or is wrong
/// decides; a timeout takes the argument after it.
pub open spec fn parsed(args: Seq<ArgView>, trace: bool, timeout: Seq<char>) -> OutcomeView
    decreases args.len(),
{
    if args.len() == 0 {
        OutcomeView::Run { trace, timeout }
    } else if asks_help(args[0].text) {
        OutcomeView::Help
    } else if asks_trace(args[0].text) {
        parsed(args.skip(1), true, timeout)
    } else if asks_timeout(args[0].text) {
        if args.len() == 1 {
            OutcomeView::MissingTimeout
        } else if !args[1].is_number {
            OutcomeView::InvalidTimeout(args[1].text)
        } else {
            parsed(args.skip(2), trace, args[1].text)
        }
    } else {
        OutcomeView::UnknownOption(args[0].text)
    }
}

/// Whether `text` is `word`.
fn is_word(text: &String, word: &str) -> (same: bool)
    ensures
        same == (text@ == word@),
{
    *text == word.to_owned()
}

/// Reads the command line, the program's name left out.
pub fn parse_args(args: &Vec<Arg>) -> (outcome: Outcome)
    ensures
        outcome@ == parsed(args@.map_values(|arg: Arg| arg@), false, DEFAULT_TIMEOUT@),
{
    let ghost all = args@.map_values(|arg: Arg| arg@);
    let mut trace: bool = false;
    let mut timeout: String = DEFAULT_TIMEOUT.to_owned();
    let mut i: usize = 0;
    assert(all.skip(0) =~= all);
    while i < args.len()
        invariant
            i <= args.len(),
            all == args@.map_values(|arg: Arg| arg@),
            parsed(all.skip(i as int), trace, timeout@) == parsed(all, false, DEFAULT_TIMEOUT@),
        decreases args.len() - i,
    {
        let text: &String = &args[i].text;
        proof {
            assert(all.skip(i as int)[0] == args@[i as int]@);
            assert(all.skip(i as int).skip(1) =~= all.skip(i + 1));
            if i + 1 < args.len() {
                assert(all.skip(i as int)[1] == args@[i + 1]@);
                assert(all.skip(i as int).skip(2) =~= all.skip(i + 2));
            }
        }
        if is_word(text, "--help") || is_word(text, "-h") {
            return Outcome::Help;
        } else if is_word(text, "--trace") {
            trace = true;
        } else if is_word(text, "--timeout") || is_word(text, "-t") {
            i += 1;
            if i >= args.len() {
                return Outcome::MissingTimeout;
            }
            if !args[i].is_number {
                return Outcome::InvalidTimeout(args[i].text.clone());
            }
            timeout = args[i].text.clone();
        } else {
            return Outcome::UnknownOption(text.clone());
        }
        i += 1;
    }
    assert(all.skip(i as int).len() == 0);
    Outcome::Run { trace, timeout }
}

/// The usage text.
pub open spec fn usage_text() -> Seq<char> {
    "Usage: sway-tab [OPTIONS]\n\nOptions:\n  --trace          Enable verbose trace logging to stderr\n  --timeout N, -t N  Commit timeout in seconds (default: "@
        + DEFAULT_TIMEOUT@ + ")\n  --help, -h       Print this help and exit"@
}

/// The usage text.
pub fn usage() -> (text: String)
    ensures
        text@ == usage_text(),
{
    let mut text: String = joined(
        "Usage: sway-tab [OPTIONS]\n\nOptions:\n  --trace          Enable verbose trace logging to stderr\n  --timeout N, -t N  Commit timeout in seconds (default: ",
        DEFAULT_TIMEOUT,
    );
    text.append(")\n  --help, -h       Print this help and exit");
    text
}

impl Outcome {
    /// How the program ends if it is not to run: with the usage and success if
    /// help was asked for, with an error message and failure otherwise.
    pub fn exit(&self) -> (exit: Option<Exit>)
        ensures
            match self@ {
                OutcomeView::Run { .. } => exit is None,
                OutcomeView::Help => exit matches Some(e) && e.code == 0 && e.text@ == usage_text(),
                OutcomeView::MissingTimeout => exit matches Some(e) && e.code == 1 && e.text@
                    == "Error: --timeout requires a value"@,
                OutcomeView::InvalidTimeout(text) => exit matches Some(e) && e.code == 1 && e.text@
                    == "Error: invalid timeout value: "@ + text,
                OutcomeView::UnknownOption(text) => exit matches Some(e) && e.code == 1 && e.text@
                    == "Error: unknown option: "@ + text,
            },
    {
        match self {
            Outcome::Run { .. } => None,
            Outcome::Help => Some(Exit { code: 0, text: usage() }),
            Outcome::MissingTimeout => Some(
                Exit { code: 1, text: "Error: --timeout requires a value".to_owned() },
            ),
            Outcome::InvalidTimeout(text) => Some(
                Exit { code: 1, text: joined("Error: invalid timeout value: ", text.as_str()) },
            ),
            Outcome::UnknownOption(text) => Some(
                Exit { code: 1, text: joined("Error: unknown option: ", text.as_str()) },
            ),
        }
    }
}

/// Options are read from the left, and later ones override earlier ones: after
/// `first`, if it does not end in the middle of an option, `second` is read
/// with the settings that `first` left, unless `first` already ended the
/// program.
pub proof fn law_options_are_read_in_order(
    first: Seq<ArgView>,
    second: Seq<ArgView>,
    trace: bool,
    timeout: Seq<char>,
)
    requires
        !(parsed(first, trace, timeout) is MissingTimeout),
    ensures
        parsed(first + second, trace, timeout) == match parsed(first, trace, timeout) {
            OutcomeView::Run { trace: t, timeout: s } => parsed(second, t, s),
            other => other,
        },
    decreases first.len(),
{
    let all = first + second;
    if first.len() == 0 {
        assert(all =~= second);
    } else {
        assert(all[0] == first[0]);
        assert(all.skip(1) =~= first.skip(1) + second);
        if first.len() >= 2 {
            assert(all[1] == first[1]);
            assert(all.skip(2) =~= first.skip(2) + second);
        }
        if asks_help(first[0].text) {
        } else if asks_trace(first[0].text) {
            law_options_are_read_in_order(first.skip(1), second, true, timeout);
        } else if asks_timeout(first[0].text) {
            if first.len() >= 2 && first[1].is_number {
                law_options_are_read_in_order(first.skip(2), second, trace, first[1].text);
            }
        }
    }
}

/// The timeout that a program runs with is the default one or a number from
/// the command line.
pub proof fn law_timeout_is_default_or_given(args: Seq<ArgView>, trace: bool, timeout: Seq<char>)
    ensures
        parsed(args, trace, timeout) matches OutcomeView::Run { timeout: t, .. } ==> t == timeout
            || exists|i: int|
            0 <= i < args.len() && (#[trigger] args[i]).is_number && args[i].text == t,
    decreases args.len(),
{
    if args.len() > 0 && !asks_help(args[0].text) {
        if asks_trace(args[0].text) {
            let rest = args.skip(1);
            law_timeout_is_default_or_given(rest, true, timeout);
            assert forall|i: int| 0 <= i < rest.len() implies #[trigger] rest[i] == args[i + 1] by {}
            if let OutcomeView::Run { timeout: t, .. } = parsed(args, trace, timeout) {
                if t != timeout {
                    let i = choose|i: int|
                        0 <= i < rest.len() && (#[trigger] rest[i]).is_number && rest[i].text == t;
                    assert(args[i + 1].is_number);
                }
            }
        } else if asks_timeout(args[0].text) && args.len() >= 2 && args[1].is_number {
            let rest = args.skip(2);
            law_timeout_is_default_or_given(rest, trace, args[1].text);
            if let OutcomeView::Run { timeout: t, .. } = parsed(args, trace, timeout) {
                if t != args[1].text {
                    let i = choose|i: int|
                        0 <= i < rest.len() && (#[trigger] rest[i]).is_number && rest[i].text == t;
                    assert(args[i + 2].is_number);
                }
            }
        }
    }
}

/// The words of the command line, as far as they can be told apart.
proof fn lemma_words()
    ensures
        "--help"@.len() == 6,
        "-h"@.len() == 2,
        "--trace"@.len() == 7,
        "--timeout"@.len() == 9,
        "-t"@.len() == 2,
        "-h"@ != "-t"@,
{
    reveal_strlit("--help");
    reveal_strlit("-h");
    reveal_strlit("--trace");
    reveal_strlit("--timeout");
    reveal_strlit("-t");
    assert("-h"@[1] != "-t"@[1]);
}

/// No arguments change no setting.
pub proof fn law_empty_line_keeps_settings(trace: bool, timeout: Seq<char>)
    ensures
        parsed(Seq::empty(), trace, timeout) == (OutcomeView::Run { trace, timeout }),
{
}

/// `--trace` behind an accepted command line turns the trace on and keeps the
/// timeout.
pub proof fn law_appended_trace(
    first: Seq<ArgView>,
    option: ArgView,
    trace: bool,
    timeout: Seq<char>,
    t: bool,
    s: Seq<char>,
)
    requires
        parsed(first, trace, timeout) == (OutcomeView::Run { trace: t, timeout: s }),
        option.text == "--trace"@,
    ensures
        parsed(first.push(option), trace, timeout) == (OutcomeView::Run { trace: true, timeout: s }),
{
    lemma_words();
    let second = seq![option];
    law_options_are_read_in_order(first, second, trace, timeout);
    assert(first + second =~= first.push(option));
    assert(second.skip(1) =~= Seq::<ArgView>::empty());
    law_empty_line_keeps_settings(true, s);
}

/// A timeout behind an accepted command line is the timeout that the program
/// runs with, whatever else stands on the line, and keeps the trace setting.
pub proof fn law_appended_timeout(
    first: Seq<ArgView>,
    option: ArgView,
    value: ArgView,
    trace: bool,
    timeout: Seq<char>,
    t: bool,
    s: Seq<char>,
)
    requires
        parsed(first, trace, timeout) == (OutcomeView::Run { trace: t, timeout: s }),
        option.text == "--timeout"@ || option.text == "-t"@,
        value.is_number,
    ensures
        parsed(first.push(option).push(value), trace, timeout) == (OutcomeView::Run {
            trace: t,
            timeout: value.text,
        }),
{
    lemma_words();
    let second = seq![option, value];
    law_options_are_read_in_order(first, second, trace, timeout);
    assert(first + second =~= first.push(option).push(value));
    assert(second.skip(2) =~= Seq::<ArgView>::empty());
    law_empty_line_keeps_settings(t, value.text);
}

/// A timeout that is not a number, behind an accepted command line, is refused
/// and named, whatever follows.
pub proof fn law_appended_bad_timeout(
    first: Seq<ArgView>,
    option: ArgView,
    value: ArgView,
    rest: Seq<ArgView>,
    trace: bool,
    timeout: Seq<char>,
)
    requires
        parsed(first, trace, timeout) is Run,
        option.text == "--timeout"@ || option.text == "-t"@,
        !value.is_number,
    ensures
        parsed(first.push(option).push(value) + rest, trace, timeout)
            == OutcomeView::InvalidTimeout(value.text),
{
    lemma_words();
    let second = seq![option, value] + rest;
    law_options_are_read_in_order(first, second, trace, timeout);
    assert(first + second =~= first.push(option).push(value) + rest);
    assert(second[0] == option && second[1] == value);
}

/// A timeout option at the end of the line lacks its value.
pub proof fn law_appended_dangling_timeout(
    first: Seq<ArgView>,
    option: ArgView,
    trace: bool,
    timeout: Seq<char>,
)
    requires
        parsed(first, trace, timeout) is Run,
        option.text == "--timeout"@ || option.text == "-t"@,
    ensures
        parsed(first.push(option), trace, timeout) is MissingTimeout,
{
    lemma_words();
    let second = seq![option];
    law_options_are_read_in_order(first, second, trace, timeout);
    assert(first + second =~= first.push(option));
}

/// A request for help behind an accepted command line is granted, whatever
/// follows.
pub proof fn law_appended_help(
    first: Seq<ArgView>,
    option: ArgView,
    rest: Seq<ArgView>,
    trace: bool,
    timeout: Seq<char>,
)
    requires
        parsed(first, trace, timeout) is Run,
        option.text == "--help"@ || option.text == "-h"@,
    ensures
        parsed(first.push(option) + rest, trace, timeout) is Help,
{
    let second = seq![option] + rest;
    law_options_are_read_in_order(first, second, trace, timeout);
    assert(first + second =~= first.push(option) + rest);
    assert(second[0] == option);
}

/// An argument that is none of the options, behind an accepted command line, is
/// refused and named, whatever follows.
pub proof fn law_appended_unknown_option(
    first: Seq<ArgView>,
    option: ArgView,
    rest: Seq<ArgView>,
    trace: bool,
    timeout: Seq<char>,
)
    requires
        parsed(first, trace, timeout) is Run,
        option.text != "--help"@,
        option.text != "-h"@,
        option.text != "--trace"@,
        option.text != "--timeout"@,
        option.text != "-t"@,
    ensures
        parsed(first.push(option) + rest, trace, timeout) == OutcomeView::UnknownOption(
            option.text,
        ),
{
    let second = seq![option] + rest;
    law_options_are_read_in_order(first, second, trace, timeout);
    assert(first + second =~= first.push(option) + rest);
    assert(second[0] == option);
}

/// A view holds what the fields hold.
pub proof fn law_views_hold_the_fields(arg: Arg, outcome: Outcome)
    ensures
        arg@.text == arg.text@,
        arg@.is_number == arg.is_number,
        outcome is Help <==> outcome@ is Help,
        outcome is MissingTimeout <==> outcome@ is MissingTimeout,
        outcome matches Outcome::Run { trace, timeout } ==> outcome@ == (OutcomeView::Run {
            trace,
            timeout: timeout@,
        }),
        outcome matches Outcome::InvalidTimeout(text) ==> outcome@ == OutcomeView::InvalidTimeout(
            text@,
        ),
        outcome matches Outcome::UnknownOption(text) ==> outcome@ == OutcomeView::UnknownOption(
            text@,
        ),
{
}

} // verus!
