//! The command line.

use crate::text::{
    all_digits, decimal, decimal_text, digits_value, is_text, law_decimal_reads_back,
};
use vstd::prelude::*;

verus! {

/// Where to listen, and whether to open a browser.
#[derive(Debug, Clone)]
pub struct Args {
    pub host: String,
    pub port: u16,
    pub open_browser: bool,
}

/// The contents of [`Args`].
pub struct ArgsView {
    pub host: Seq<char>,
    pub port: u16,
    pub open_browser: bool,
}

impl View for Args {
    type V = ArgsView;

    open spec fn view(&self) -> ArgsView {
        ArgsView { host: self.host@, port: self.port, open_browser: self.open_browser }
    }
}

/// What a command line asks for.
pub enum Invocation {
    /// Run.
    Run(Args),
    /// Print the help.
    Help,
    /// Complain of this argument.
    Unknown(String),
}

/// The contents of an [`Invocation`].
pub enum InvocationView {
    Run(ArgsView),
    Help,
    Unknown(Seq<char>),
}

impl View for Invocation {
    type V = InvocationView;

    open spec fn view(&self) -> InvocationView {
        match self {
            Invocation::Run(args) => InvocationView::Run(args@),
            Invocation::Help => InvocationView::Help,
            Invocation::Unknown(arg) => InvocationView::Unknown(arg@),
        }
    }
}

/// The digits of a number that may have a plus sign before it.
pub open spec fn unsigned_digits(text: Seq<char>) -> Seq<char> {
    if text.len() > 0 && text[0] == '+' {
        text.skip(1)
    } else {
        text
    }
}

/// The port number that a text stands for: decimal digits, with or without a plus sign
/// before them, up to 65535.
pub open spec fn port_of(text: Seq<char>) -> Option<u16> {
    let digits = unsigned_digits(text);
    if digits.len() > 0 && all_digits(digits) && digits_value(digits) <= u16::MAX {
        Some(digits_value(digits) as u16)
    } else {
        None
    }
}

proof fn lemma_value_grows(digits: Seq<char>, len: int)
    requires
        0 <= len <= digits.len(),
        all_digits(digits),
    ensures
        digits_value(digits.take(len)) <= digits_value(digits),
    decreases digits.len(),
{
    if len == digits.len() {
        assert(digits.take(len) =~= digits);
    } else {
        let shorter = digits.drop_last();
        assert forall|i: int| 0 <= i < shorter.len() implies '0' <= #[trigger] shorter[i] <= '9' by {
            assert(shorter[i] == digits[i]);
        }
        lemma_value_grows(shorter, len);
        assert(shorter.take(len) =~= digits.take(len));
        assert('0' <= digits[digits.len() - 1] <= '9');
    }
}

/// Reads a port number.
pub fn parse_port(text: &str) -> (port: Option<u16>)
    ensures
        port == port_of(text@),
{
    let len: usize = text.unicode_len();
    let start: usize = if len > 0 && text.get_char(0) == '+' {
        1
    } else {
        0
    };
    let ghost digits = unsigned_digits(text@);
    assert(digits =~= text@.skip(start as int));
    if start == len {
        return None;
    }
    let mut value: u32 = 0;
    let mut i: usize = start;
    assert(digits.take(0) =~= Seq::empty());
    while i < len
        invariant
            len == text@.len(),
            start <= i <= len,
            digits == unsigned_digits(text@),
            digits == text@.skip(start as int),
            all_digits(digits.take(i - start)),
            value == digits_value(digits.take(i - start)),
            value <= u16::MAX,
        decreases len - i,
    {
        let c: char = text.get_char(i);
        let ghost at = i - start;
        assert(digits[at] == c);
        if c < '0' || c > '9' {
            return None;
        }
        let ghost next = digits.take(at + 1);
        assert(next.drop_last() =~= digits.take(at));
        value = value * 10 + (c as u32 - 48);
        assert(value == digits_value(next));
        assert forall|k: int| 0 <= k < next.len() implies '0' <= #[trigger] next[k] <= '9' by {
            if k < at {
                assert(next[k] == digits.take(at)[k]);
            }
        }
        if value > 65535 {
            proof {
                if all_digits(digits) {
                    lemma_value_grows(digits, at + 1);
                }
            }
            return None;
        }
        i = i + 1;
    }
    assert(digits.take(len - start) =~= digits);
    Some(value as u16)
}

/// A port number that is written in decimal is read back.
pub proof fn law_port_reads_back(port: u16)
    ensures
        port_of(decimal(port as nat)) == Some(port),
{
    law_decimal_reads_back(port as nat);
    assert('0' <= decimal(port as nat)[0] <= '9');
}

/// What the rest of a command line asks for, when what came before it asked for `so_far`.
pub open spec fn read_args(args: Seq<String>, so_far: ArgsView) -> InvocationView
    decreases args.len(),
{
    if args.len() == 0 {
        InvocationView::Run(so_far)
    } else {
        let arg = args[0]@;
        let rest = args.skip(1);
        if arg == "--host"@ || arg == "-H"@ {
            if rest.len() == 0 {
                InvocationView::Run(so_far)
            } else {
                read_args(rest.skip(1), ArgsView { host: rest[0]@, ..so_far })
            }
        } else if arg == "--port"@ || arg == "-p"@ {
            if rest.len() == 0 {
                InvocationView::Run(so_far)
            } else {
                read_args(
                    rest.skip(1),
                    ArgsView {
                        port: match port_of(rest[0]@) {
                            Some(port) => port,
                            None => so_far.port,
                        },
                        ..so_far
                    },
                )
            }
        } else if arg == "--no-open"@ {
            read_args(rest, ArgsView { open_browser: false, ..so_far })
        } else if arg == "--help"@ || arg == "-h"@ {
            InvocationView::Help
        } else {
            InvocationView::Unknown(arg)
        }
    }
}

/// What is asked for where nothing is said.
pub open spec fn default_args() -> ArgsView {
    ArgsView { host: "127.0.0.1"@, port: 8080, open_browser: true }
}

impl Args {
    /// Reads a command line, without the program's name. An option that lacks its value, or
    /// a port that is none, changes nothing.
    pub fn parse(args: &Vec<String>) -> (invocation: Invocation)
        ensures
            invocation@ == read_args(args@, default_args()),
    {
        let mut result: Args = Args {
            host: "127.0.0.1".to_owned(),
            port: 8080,
            open_browser: true,
        };
        let mut i: usize = 0;
        assert(args@.skip(0) =~= args@);
        while i < args.len()
            invariant
                i <= args@.len(),
                read_args(args@.skip(i as int), result@) == read_args(args@, default_args()),
            decreases args@.len() - i,
        {
            let ghost left = args@.skip(i as int);
            let ghost rest = left.skip(1);
            assert(rest =~= args@.skip(i + 1));
            let arg: &String = &args[i];
            if is_text(arg, "--host") || is_text(arg, "-H") {
                if i + 1 < args.len() {
                    assert(rest.skip(1) =~= args@.skip(i + 2));
                    result.host = args[i + 1].clone();
                    i = i + 2;
                } else {
                    return Invocation::Run(result);
                }
            } else if is_text(arg, "--port") || is_text(arg, "-p") {
                if i + 1 < args.len() {
                    assert(rest.skip(1) =~= args@.skip(i + 2));
                    if let Some(port) = parse_port(args[i + 1].as_str()) {
                        result.port = port;
                    }
                    i = i + 2;
                } else {
                    return Invocation::Run(result);
                }
            } else if is_text(arg, "--no-open") {
                result.open_browser = false;
                i = i + 1;
            } else if is_text(arg, "--help") || is_text(arg, "-h") {
                return Invocation::Help;
            } else {
                return Invocation::Unknown(arg.clone());
            }
        }
        Invocation::Run(result)
    }

    /// The address to listen on, as text.
    pub fn address(&self) -> (text: String)
        ensures
            text@ == self.host@ + ":"@ + decimal(self.port as nat),
    {
        let mut text: String = self.host.clone();
        text.append(":");
        text.append(decimal_text(self.port as u64).as_str());
        text
    }
}

/// Every number up to 65535 is a port, with or without a plus sign before it; a larger one is
/// none.
pub proof fn law_which_numbers_are_ports(n: nat)
    ensures
        n <= 65535 ==> port_of(decimal(n)) == Some(n as u16) && port_of(
            seq!['+'] + decimal(n),
        ) == Some(n as u16),
        n > 65535 ==> port_of(decimal(n)) is None && port_of(seq!['+'] + decimal(n)) is None,
{
    law_decimal_reads_back(n);
    assert('0' <= decimal(n)[0] <= '9');
    assert((seq!['+'] + decimal(n)).skip(1) =~= decimal(n));
}

/// A text that has no digit, or a character that is neither a digit nor a plus sign in front, is
/// no port.
pub proof fn law_which_texts_are_no_ports(text: Seq<char>, i: int)
    requires
        text.len() == 0 || text == seq!['+'] || 0 <= i < text.len() && !('0' <= text[i] <= '9')
            && !(i == 0 && text[i] == '+'),
    ensures
        port_of(text) is None,
{
    let digits = unsigned_digits(text);
    if text.len() > 0 && text != seq!['+'] {
        let at = if text[0] == '+' {
            i - 1
        } else {
            i
        };
        assert(digits[at] == text[i]);
    }
}

/// Each option changes what it is for and nothing else: the host becomes the word that follows,
/// the port becomes the number that follows, if it is one, and the browser stays closed. Help
/// ends it, and so does a word that is no option.
pub proof fn law_what_options_change(args: Seq<String>, so_far: ArgsView)
    requires
        args.len() > 0,
    ensures
        ({
            let word = args[0]@;
            let result = read_args(args, so_far);
            if word == "--host"@ || word == "-H"@ {
                if args.len() == 1 {
                    result == InvocationView::Run(so_far)
                } else {
                    result == read_args(
                        args.skip(2),
                        ArgsView {
                            host: args[1]@,
                            port: so_far.port,
                            open_browser: so_far.open_browser,
                        },
                    )
                }
            } else if word == "--port"@ || word == "-p"@ {
                if args.len() == 1 {
                    result == InvocationView::Run(so_far)
                } else {
                    result == read_args(
                        args.skip(2),
                        ArgsView {
                            host: so_far.host,
                            port: if port_of(args[1]@) is Some {
                                port_of(args[1]@)->0
                            } else {
                                so_far.port
                            },
                            open_browser: so_far.open_browser,
                        },
                    )
                }
            } else if word == "--no-open"@ {
                result == read_args(
                    args.skip(1),
                    ArgsView { host: so_far.host, port: so_far.port, open_browser: false },
                )
            } else if word == "--help"@ || word == "-h"@ {
                result is Help
            } else {
                result == InvocationView::Unknown(word)
            }
        }),
{
    lemma_options_differ();
    if args.len() > 1 {
        assert(args.skip(1).skip(1) =~= args.skip(2));
    }
}

proof fn lemma_options_differ()
    ensures
        "--host"@ != "--port"@,
        "--host"@ != "-p"@,
        "-H"@ != "--port"@,
        "-H"@ != "-p"@,
{
    reveal_strlit("--host");
    reveal_strlit("--port");
    reveal_strlit("-H");
    reveal_strlit("-p");
    assert("--host"@[2] == 'h');
    assert("--port"@[2] == 'p');
    assert("-H"@[1] == 'H');
    assert("-p"@[1] == 'p');
}

/// Without a word the program listens on 127.0.0.1, port 8080, and opens the browser; and the
/// browser is opened unless it was told not to.
pub proof fn law_where_nothing_is_said(args: Seq<String>)
    ensures
        args.len() == 0 ==> read_args(args, default_args()) == InvocationView::Run(
            ArgsView { host: "127.0.0.1"@, port: 8080, open_browser: true },
        ),
        (forall|i: int| 0 <= i < args.len() ==> (#[trigger] args[i])@ != "--no-open"@) ==> (
        read_args(args, default_args()) matches InvocationView::Run(v) ==> v.open_browser),
{
    lemma_browser(args, default_args());
}

proof fn lemma_browser(args: Seq<String>, so_far: ArgsView)
    requires
        so_far.open_browser,
    ensures
        (forall|i: int| 0 <= i < args.len() ==> (#[trigger] args[i])@ != "--no-open"@) ==> (
        read_args(args, so_far) matches InvocationView::Run(v) ==> v.open_browser),
    decreases args.len(),
{
    if args.len() > 0 && (forall|i: int|
        0 <= i < args.len() ==> (#[trigger] args[i])@ != "--no-open"@) {
        law_what_options_change(args, so_far);
        assert(args[0]@ != "--no-open"@);
        if args.len() > 1 {
            let rest = args.skip(2);
            assert forall|i: int| 0 <= i < rest.len() implies (#[trigger] rest[i])@ != "--no-open"@ by {
                assert(rest[i] == args[i + 2]);
            }
            lemma_browser(rest, ArgsView { host: args[1]@, ..so_far });
            lemma_browser(
                rest,
                ArgsView {
                    port: if port_of(args[1]@) is Some {
                        port_of(args[1]@)->0
                    } else {
                        so_far.port
                    },
                    ..so_far
                },
            );
        }
    }
}

/// Zeros in front of a number make no difference.
pub proof fn law_zeros_in_front(digits: Seq<char>)
    requires
        digits.len() > 0,
        all_digits(digits),
    ensures
        port_of(seq!['0'] + digits) == port_of(digits),
{
    let longer = seq!['0'] + digits;
    assert('0' <= digits[0] <= '9');
    assert(longer[0] == '0');
    assert(unsigned_digits(longer) == longer);
    assert(unsigned_digits(digits) == digits);
    assert forall|i: int| 0 <= i < longer.len() implies '0' <= #[trigger] longer[i] <= '9' by {
        if i > 0 {
            assert(longer[i] == digits[i - 1]);
        }
    }
    lemma_zero_in_front(digits);
}

proof fn lemma_zero_in_front(digits: Seq<char>)
    ensures
        digits_value(seq!['0'] + digits) == digits_value(digits),
    decreases digits.len(),
{
    let longer = seq!['0'] + digits;
    if digits.len() == 0 {
        assert(longer.drop_last() =~= Seq::empty());
        assert(digits_value(Seq::<char>::empty()) == 0);
    } else {
        lemma_zero_in_front(digits.drop_last());
        assert(longer.drop_last() =~= seq!['0'] + digits.drop_last());
    }
}

/// The contents of a command line are all of it.
pub proof fn law_contents_of_invocations(invocation: Invocation)
    ensures
        match invocation {
            Invocation::Run(args) => invocation@ == InvocationView::Run(
                ArgsView { host: args.host@, port: args.port, open_browser: args.open_browser },
            ),
            Invocation::Help => invocation@ is Help,
            Invocation::Unknown(word) => invocation@ == InvocationView::Unknown(word@),
        },
{
}

} // verus!
