//! Rendering of a caught panic into the details string of an exception
//! result.
//!
//! The surrounding process installs the panic hook, holds the slot with the
//! captured backtrace, source location and thread name, and extracts the
//! panic message from the caught value; this module renders those plain
//! values into the report, character for character.

use vstd::prelude::*;
use vstd::string::StringExecFns;

verus! {

/// The decimal digit characters of `n`, most significant first.
pub open spec fn dec_chars(n: nat) -> Seq<char>
    decreases n,
{
    if n < 10 {
        seq![dec_char(n)]
    } else {
        dec_chars(n / 10) + seq![dec_char(n % 10)]
    }
}

/// The character for one decimal digit.
pub open spec fn dec_char(d: nat) -> char
    recommends
        d < 10,
{
    if d == 0 {
        '0'
    } else if d == 1 {
        '1'
    } else if d == 2 {
        '2'
    } else if d == 3 {
        '3'
    } else if d == 4 {
        '4'
    } else if d == 5 {
        '5'
    } else if d == 6 {
        '6'
    } else if d == 7 {
        '7'
    } else if d == 8 {
        '8'
    } else {
        '9'
    }
}

/// The panic report: who panicked, where, with what message, and the
/// backtrace.
pub open spec fn format_panic_spec(
    thread_name: Option<Seq<char>>,
    location: Option<(Seq<char>, u32, u32)>,
    message: Option<Seq<char>>,
    backtrace: Seq<char>,
) -> Seq<char> {
    (match thread_name {
        Some(n) => "Thread '"@ + n + "' p"@,
        None => "P"@,
    }) + "anicked"@ + (match location {
        Some((f, l, c)) => " at "@ + f + ":"@ + dec_chars(l as nat) + ":"@ + dec_chars(c as nat),
        None => Seq::<char>::empty(),
    }) + ":\n"@ + (match message {
        Some(m) => m,
        None => "<unknown panic info>."@,
    }) + "\nBacktrace:\n"@ + backtrace
}

/// Appends one decimal digit character.
fn append_digit(out: &mut String, d: u32)
    requires
        d < 10,
    ensures
        final (out)@ == old(out)@ + seq![dec_char(d as nat)],
{
    proof {
        reveal_strlit("0");
        reveal_strlit("1");
        reveal_strlit("2");
        reveal_strlit("3");
        reveal_strlit("4");
        reveal_strlit("5");
        reveal_strlit("6");
        reveal_strlit("7");
        reveal_strlit("8");
        reveal_strlit("9");
    }
    if d == 0 {
        out.append("0");
    } else if d == 1 {
        out.append("1");
    } else if d == 2 {
        out.append("2");
    } else if d == 3 {
        out.append("3");
    } else if d == 4 {
        out.append("4");
    } else if d == 5 {
        out.append("5");
    } else if d == 6 {
        out.append("6");
    } else if d == 7 {
        out.append("7");
    } else if d == 8 {
        out.append("8");
    } else {
        out.append("9");
    }
    assert(out@ =~= old(out)@ + seq![dec_char(d as nat)]);
}

/// Appends the decimal digits of `n`.
fn append_u32_dec(out: &mut String, n: u32)
    ensures
        final (out)@ == old(out)@ + dec_chars(n as nat),
    decreases n,
{
    if n < 10 {
        append_digit(out, n);
    } else {
        append_u32_dec(out, n / 10);
        append_digit(out, n % 10);
        assert(out@ =~= old(out)@ + dec_chars(n as nat));
    }
}

/// Renders the report of a caught panic: the thread that panicked (if its
/// name was captured), the source location (if captured), the panic message
/// (or a placeholder when the caught value held none), and the backtrace.
pub fn format_panic(
    thread_name: Option<String>,
    location: Option<(String, u32, u32)>,
    message: Option<String>,
    backtrace: String,
) -> (r: String)
    ensures
        r@ == format_panic_spec(
            match thread_name {
                Some(n) => Some(n@),
                None => None,
            },
            match location {
                Some((f, l, c)) => Some((f@, l, c)),
                None => None,
            },
            match message {
                Some(m) => Some(m@),
                None => None,
            },
            backtrace@,
        ),
{
    let mut out = String::new();
    match &thread_name {
        Some(n) => {
            out.append("Thread '");
            out.append(n.as_str());
            out.append("' p");
        },
        None => {
            out.append("P");
        },
    }
    out.append("anicked");
    match &location {
        Some((f, l, c)) => {
            out.append(" at ");
            out.append(f.as_str());
            out.append(":");
            append_u32_dec(&mut out, *l);
            out.append(":");
            append_u32_dec(&mut out, *c);
        },
        None => {},
    }
    out.append(":\n");
    match &message {
        Some(m) => {
            out.append(m.as_str());
        },
        None => {
            out.append("<unknown panic info>.");
        },
    }
    out.append("\nBacktrace:\n");
    out.append(backtrace.as_str());
    proof {
        assert(out@ =~= format_panic_spec(
            match thread_name {
                Some(n) => Some(n@),
                None => None,
            },
            match location {
                Some((f, l, c)) => Some((f@, l, c)),
                None => None,
            },
            match message {
                Some(m) => Some(m@),
                None => None,
            },
            backtrace@,
        ));
    }
    out
}

} // verus!
