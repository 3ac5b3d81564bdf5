//! The diagnostic collector: accumulates rendered error messages and a
//! global "had error" flag.  It knows nothing of scanning internals; the
//! caller decides after a run whether any recorded diagnostic is fatal.

use vstd::prelude::*;
use vstd::string::StringExecFns;

verus! {

/// The decimal character for a single digit value.
pub open spec fn digit_char(d: nat) -> char {
    if d == 0 {
        '0'
    } else if d == 1 {
        '1'
    } else if d == 2 {
        '2'
    } else if d == 3 {
        '3'
    } else if d == 4 {
        '4'
    } else if d == 5 {
        '5'
    } else if d == 6 {
        '6'
    } else if d == 7 {
        '7'
    } else if d == 8 {
        '8'
    } else {
        '9'
    }
}

/// The decimal spelling of a number, most significant digit first,
/// without leading zeros (a single `'0'` for zero).
pub open spec fn dec_str(n: nat) -> Seq<char>
    decreases n,
{
    if n < 10 {
        seq![digit_char(n)]
    } else {
        dec_str(n / 10).push(digit_char(n % 10))
    }
}

/// The full rendered form of one diagnostic:
/// `[line <line>] Error<location>: <message>`.
pub open spec fn render_msg(line: nat, location: Seq<char>, message: Seq<char>) -> Seq<char> {
    "[line "@ + dec_str(line) + "] Error"@ + location + ": "@ + message
}

fn digit_str(d: usize) -> (s: &'static str)
    requires
        d < 10,
    ensures
        s@ == seq![digit_char(d as nat)],
{
    let s: &'static str = if d == 0 {
        "0"
    } else if d == 1 {
        "1"
    } else if d == 2 {
        "2"
    } else if d == 3 {
        "3"
    } else if d == 4 {
        "4"
    } else if d == 5 {
        "5"
    } else if d == 6 {
        "6"
    } else if d == 7 {
        "7"
    } else if d == 8 {
        "8"
    } else {
        "9"
    };
    proof {
        reveal_strlit("0");
        reveal_strlit("1");
        reveal_strlit("2");
        reveal_strlit("3");
        reveal_strlit("4");
        reveal_strlit("5");
        reveal_strlit("6");
        reveal_strlit("7");
        reveal_strlit("8");
        reveal_strlit("9");
        assert(s@ =~= seq![digit_char(d as nat)]);
    }
    s
}

fn to_decimal(n: usize) -> (s: String)
    ensures
        s@ == dec_str(n as nat),
    decreases n,
{
    if n < 10 {
        String::from_str(digit_str(n))
    } else {
        let mut s = to_decimal(n / 10);
        s.append(digit_str(n % 10));
        proof {
            assert(s@ =~= dec_str(n as nat));
        }
        s
    }
}

/// Run-scoped mutable diagnostic state: every report sets the flag and
/// appends one rendered message; nothing is ever removed.
pub struct ErrorReporter {
    pub had_error: bool,
    pub messages: Vec<String>,
}

impl ErrorReporter {
    /// The views of the recorded messages, in the order they were reported.
    pub open spec fn messages_views(&self) -> Seq<Seq<char>> {
        self.messages@.map_values(|m: String| m@)
    }

    pub fn new() -> (r: ErrorReporter)
        ensures
            !r.had_error,
            r.messages_views() == Seq::<Seq<char>>::empty(),
    {
        let r = ErrorReporter { had_error: false, messages: Vec::new() };
        proof {
            assert(r.messages_views() =~= Seq::<Seq<char>>::empty());
        }
        r
    }

    /// Records `[line <line>] Error<location>: <message>` and raises the flag.
    pub fn report(&mut self, line: usize, location: &str, message: &str)
        ensures
            final(self).had_error,
            final(self).messages_views() == old(self).messages_views().push(
                render_msg(line as nat, location@, message@),
            ),
    {
        let mut text = String::from_str("[line ");
        let num = to_decimal(line);
        text.append(num.as_str());
        text.append("] Error");
        text.append(location);
        text.append(": ");
        text.append(message);
        proof {
            assert(text@ =~= render_msg(line as nat, location@, message@));
        }
        self.messages.push(text);
        self.had_error = true;
        proof {
            assert(final(self).messages_views() =~= old(self).messages_views().push(
                render_msg(line as nat, location@, message@),
            ));
        }
    }

    /// Records a diagnostic with an empty location label.
    pub fn error(&mut self, line: usize, message: &str)
        ensures
            final(self).had_error,
            final(self).messages_views() == old(self).messages_views().push(
                render_msg(line as nat, ""@, message@),
            ),
    {
        self.report(line, "", message);
    }
}

} // verus!
