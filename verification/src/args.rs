//! The settings that the server starts with.

use vstd::prelude::*;
use vstd::string::*;

verus! {

/// The port of a server that was given none.
pub const DEFAULT_PORT: u32 = 8080;

/// Where the server listens.
#[derive(Debug)]
pub struct Args {
    /// Port that the server will run on
    pub port: u32,
    /// Host that the server will run on
    pub host: String,
}

/// The character for a digit.
pub open spec fn digit(d: int) -> char {
    if d == 0 {
        '0'
    } else if d == 1 {
        '1'
    } else if d == 2 {
        '2'
    } else if d == 3 {
        '3'
    } else if d == 4 {
        '4'
    } else if d == 5 {
        '5'
    } else if d == 6 {
        '6'
    } else if d == 7 {
        '7'
    } else if d == 8 {
        '8'
    } else {
        '9'
    }
}

/// A number written in decimal digits, without leading zeros.
pub open spec fn decimal(n: nat) -> Seq<char>
    decreases n,
{
    if n < 10 {
        seq![digit(n as int)]
    } else {
        decimal(n / 10).push(digit((n % 10) as int))
    }
}

/// The address to listen on: the host, a colon, and the port.
pub open spec fn address(host: Seq<char>, port: nat) -> Seq<char> {
    host + seq![':'] + decimal(port)
}

/// A digit as text.
fn digit_text(d: u32) -> (text: &'static str)
    requires
        d < 10,
    ensures
        text@ == seq![digit(d as int)],
{
    proof {
        reveal_strlit("0");
        reveal_strlit("1");
        reveal_strlit("2");
        reveal_strlit("3");
        reveal_strlit("4");
        reveal_strlit("5");
        reveal_strlit("6");
        reveal_strlit("7");
        reveal_strlit("8");
        reveal_strlit("9");
    }
    let text = if d == 0 {
        "0"
    } else if d == 1 {
        "1"
    } else if d == 2 {
        "2"
    } else if d == 3 {
        "3"
    } else if d == 4 {
        "4"
    } else if d == 5 {
        "5"
    } else if d == 6 {
        "6"
    } else if d == 7 {
        "7"
    } else if d == 8 {
        "8"
    } else {
        "9"
    };
    text
}

/// Writes a number in decimal digits.
pub fn to_decimal(n: u32) -> (text: String)
    ensures
        text@ == decimal(n as nat),
    decreases n,
{
    if n < 10 {
        digit_text(n).to_owned()
    } else {
        let text = to_decimal(n / 10).concat(digit_text(n % 10));
        text
    }
}

impl Args {
    /// The settings of a server that was given none: port 8080 on the local
    /// host.
    pub fn new() -> (args: Args)
        ensures
            args.port == DEFAULT_PORT,
            args.host@ == "localhost"@,
    {
        Args { port: DEFAULT_PORT, host: "localhost".to_owned() }
    }

    /// The address to listen on.
    pub fn bind_address(&self) -> (addr: String)
        ensures
            addr@ == address(self.host@, self.port as nat),
    {
        proof {
            reveal_strlit(":");
        }
        let addr = self.host.clone().concat(":").concat(to_decimal(self.port).as_str());
        addr
    }
}

} // verus!
