use vstd::prelude::*;
use crate::SupError;

verus! {

/// Lowest candidate port of the fixed scan range.
pub const PORT_MIN: u16 = 8765;

/// Highest candidate port of the fixed scan range (inclusive).
pub const PORT_MAX: u16 = 8864;

/// The decimal character of one digit value.
pub open spec fn digit_char(d: u16) -> char {
    if d == 0 {
        '0'
    } else if d == 1 {
        '1'
    } else if d == 2 {
        '2'
    } else if d == 3 {
        '3'
    } else if d == 4 {
        '4'
    } else if d == 5 {
        '5'
    } else if d == 6 {
        '6'
    } else if d == 7 {
        '7'
    } else if d == 8 {
        '8'
    } else {
        '9'
    }
}

/// The four decimal digits of a candidate port (the whole range is
/// four digits wide).
pub open spec fn port_digits(p: u16) -> Seq<char> {
    seq![
        digit_char((p / 1000) % 10),
        digit_char((p / 100) % 10),
        digit_char((p / 10) % 10),
        digit_char(p % 10),
    ]
}

/// The loopback base URL a backend on the given port is reached at.
pub open spec fn base_url_chars(p: u16) -> Seq<char> {
    "http://127.0.0.1:"@ + port_digits(p)
}

fn digit_str(d: u16) -> (r: &'static str)
    requires
        d < 10,
    ensures
        r@ == seq![digit_char(d)],
{
    proof {
        reveal_strlit("0");
        reveal_strlit("1");
        reveal_strlit("2");
        reveal_strlit("3");
        reveal_strlit("4");
        reveal_strlit("5");
        reveal_strlit("6");
        reveal_strlit("7");
        reveal_strlit("8");
        reveal_strlit("9");
    }
    match d {
        0 => "0",
        1 => "1",
        2 => "2",
        3 => "3",
        4 => "4",
        5 => "5",
        6 => "6",
        7 => "7",
        8 => "8",
        _ => "9",
    }
}

/// The port as decimal text, as handed to the backend's environment.
pub fn port_to_string(port: u16) -> (r: String)
    requires
        1000 <= port <= 9999,
    ensures
        r@ == port_digits(port),
{
    let mut s = String::new();
    s.append(digit_str((port / 1000) % 10));
    s.append(digit_str((port / 100) % 10));
    s.append(digit_str((port / 10) % 10));
    s.append(digit_str(port % 10));
    proof {
        assert(s@ =~= port_digits(port));
    }
    s
}

/// Builds `http://127.0.0.1:<port>` for a freshly allocated port.
pub fn make_base_url(port: u16) -> (r: String)
    requires
        PORT_MIN <= port <= PORT_MAX,
    ensures
        r@ == base_url_chars(port),
{
    let mut s = String::from_str("http://127.0.0.1:");
    let digits = port_to_string(port);
    s.append(digits.as_str());
    proof {
        assert(s@ =~= base_url_chars(port));
    }
    s
}

/// Scans the candidate range in ascending order with the given bind
/// probe and returns the first port the probe reports free, so the
/// lowest free port wins.  With every candidate taken the whole
/// operation fails with `NoPortAvailable`.
pub fn find_open_port_with<F: Fn(u16) -> bool>(probe: &F) -> (r: Result<u16, SupError>)
    requires
        forall|p: u16| PORT_MIN <= p <= PORT_MAX ==> call_requires(*probe, (p,)),
    ensures
        match r {
            Ok(p) => PORT_MIN <= p <= PORT_MAX && call_ensures(*probe, (p,), true) && forall|
                q: u16,
            |
                PORT_MIN <= q < p ==> call_ensures(*probe, (q,), false),
            Err(e) => e is NoPortAvailable && forall|q: u16|
                PORT_MIN <= q <= PORT_MAX ==> call_ensures(*probe, (q,), false),
        },
{
    let mut port: u16 = PORT_MIN;
    loop
        invariant
            PORT_MIN <= port <= PORT_MAX + 1,
            forall|p: u16| PORT_MIN <= p <= PORT_MAX ==> call_requires(*probe, (p,)),
            forall|q: u16| PORT_MIN <= q < port ==> call_ensures(*probe, (q,), false),
        decreases PORT_MAX + 1 - port,
    {
        if port > PORT_MAX {
            return Err(SupError::NoPortAvailable);
        }
        if probe(port) {
            return Ok(port);
        }
        port = port + 1;
    }
}

} // verus!
