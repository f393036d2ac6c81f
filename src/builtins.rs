//! The built-in `abort` import: the text of the failure it raises.
use vstd::prelude::*;
use crate::error::{HandlerFailed, HostError, Trap};

verus! {

/// The decimal digit of `d`.
pub open spec fn digit_char(d: nat) -> char {
    if d == 0 { '0' } else if d == 1 { '1' } else if d == 2 { '2' } else if d == 3 { '3' } else if d == 4 { '4' }
    else if d == 5 { '5' } else if d == 6 { '6' } else if d == 7 { '7' } else if d == 8 { '8' } else { '9' }
}

/// The decimal text of `n`, without leading zeros.
pub open spec fn decimal(n: nat) -> Seq<char>
    decreases n,
{
    if n < 10 {
        seq![digit_char(n)]
    } else {
        decimal(n / 10).push(digit_char(n % 10))
    }
}

/// The text of the message part: `message: <msg>`, or `no message`.
pub open spec fn message_text(message: Option<Seq<char>>) -> Seq<char> {
    match message {
        Some(m) => "message: "@ + m,
        None => "no message"@,
    }
}

/// Whether the parts of a location can stand together: a line needs a file,
/// a column needs a line.
pub open spec fn location_parts_valid(file_name: Option<Seq<char>>, line_number: u32, column_number: u32) -> bool {
    (line_number != 0 ==> file_name is Some) && (column_number != 0 ==> line_number != 0)
}

/// The text of the location part: `<file>, line N, column M`, shortened as
/// parts are absent (0 for a line or a column), or `an unknown location`.
pub open spec fn location_text(file_name: Option<Seq<char>>, line_number: u32, column_number: u32) -> Seq<char> {
    match file_name {
        None => "an unknown location"@,
        Some(f) => if line_number == 0 {
            f
        } else if column_number == 0 {
            f + ", line "@ + decimal(line_number as nat)
        } else {
            f + ", line "@ + decimal(line_number as nat) + ", column "@ + decimal(column_number as nat)
        },
    }
}

fn digit_str(d: u32) -> (r: &'static str)
    requires
        d < 10,
    ensures
        r@ == seq![digit_char(d as nat)],
{
    proof {
        reveal_strlit("0");
        reveal_strlit("1");
        reveal_strlit("2");
        reveal_strlit("3");
        reveal_strlit("4");
        reveal_strlit("5");
        reveal_strlit("6");
        reveal_strlit("7");
        reveal_strlit("8");
        reveal_strlit("9");
    }
    if d == 0 { "0" } else if d == 1 { "1" } else if d == 2 { "2" } else if d == 3 { "3" } else if d == 4 { "4" }
    else if d == 5 { "5" } else if d == 6 { "6" } else if d == 7 { "7" } else if d == 8 { "8" } else { "9" }
}

/// Appends the decimal text of `n`.
pub fn push_decimal(s: &mut String, n: u32)
    ensures
        final(s)@ == old(s)@ + decimal(n as nat),
    decreases n,
{
    if n >= 10 {
        push_decimal(s, n / 10);
    }
    s.append(digit_str(n % 10));
    proof {
        if n >= 10 {
            assert(old(s)@ + decimal(n as nat) =~= old(s)@ + decimal((n / 10) as nat) + seq![digit_char((n % 10) as nat)]);
        } else {
            assert(decimal(n as nat) == seq![digit_char(n as nat)]);
        }
    }
}

/// The failure raised by `abort`, from what the guest passed: the message
/// and file name read from its memory (`None` for a null pointer), and the
/// line and column (0 when absent).
pub fn abort_error(message: Option<String>, file_name: Option<String>, line_number: u32, column_number: u32) -> (r: HostError)
    requires
        location_parts_valid(
            match file_name { Some(f) => Some(f@), None => None },
            line_number,
            column_number,
        ),
    ensures
        r matches HostError::MappingAborted { location, message: m } && location@ == location_text(
            match file_name { Some(f) => Some(f@), None => None },
            line_number,
            column_number,
        ) && m@ == message_text(match message { Some(x) => Some(x@), None => None }),
{
    let message = match message {
        Some(x) => {
            let mut t = "message: ".to_string();
            t.append(x.as_str());
            t
        },
        None => "no message".to_string(),
    };
    let location = match file_name {
        None => "an unknown location".to_string(),
        Some(f) => {
            let mut t = f;
            if line_number != 0 {
                t.append(", line ");
                push_decimal(&mut t, line_number);
                if column_number != 0 {
                    t.append(", column ");
                    push_decimal(&mut t, column_number);
                }
            }
            t
        },
    };
    HostError::MappingAborted { location, message }
}

/// The failure of a handler: its name and the trap that ended it.
pub fn handler_failed(handler_name: &str, underlying: Trap) -> (r: HandlerFailed)
    ensures
        r.handler_name@ == handler_name@,
        r.underlying == underlying,
{
    HandlerFailed { handler_name: handler_name.to_string(), underlying }
}

} // verus!
