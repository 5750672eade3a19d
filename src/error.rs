use vstd::prelude::*;
use vstd::string::StringExecFns;
use crate::position::Position;
use crate::text::push_char;

verus! {

/// A diagnostic: its kind, its message and the grammar-source span it
/// refers to.
#[derive(Debug)]
pub struct Error {
    pub name: String,
    pub message: String,
    pub pos_start: Position,
    pub pos_end: Position,
}

/// An error with its texts seen as character sequences.
pub struct ErrorView {
    pub name: Seq<char>,
    pub message: Seq<char>,
    pub pos_start: Position,
    pub pos_end: Position,
}

impl View for Error {
    type V = ErrorView;

    open spec fn view(&self) -> ErrorView {
        ErrorView {
            name: self.name@,
            message: self.message@,
            pos_start: self.pos_start,
            pos_end: self.pos_end,
        }
    }
}

/// The decimal digits of `n`, most significant first.
pub open spec fn decimal(n: nat) -> Seq<char>
    decreases n,
{
    if n < 10 {
        seq![((48 + n) as u8) as char]
    } else {
        decimal(n / 10).push(((48 + n % 10) as u8) as char)
    }
}

fn to_decimal(n: u64) -> (r: String)
    ensures
        r@ == decimal(n as nat),
    decreases n,
{
    if n < 10 {
        let mut s = String::new();
        push_char(&mut s, ((48 + n) as u8) as char);
        proof {
            assert(s@ =~= decimal(n as nat));
        }
        s
    } else {
        let mut s = to_decimal(n / 10);
        push_char(&mut s, ((48 + n % 10) as u8) as char);
        s
    }
}

/// How an error is shown: its kind and message, then its span, on one line
/// when it starts and ends on the same line.
pub open spec fn rendered(e: ErrorView) -> Seq<char> {
    let head = "\n"@ + e.name + ": "@ + e.message;
    if e.pos_start.ln == e.pos_end.ln {
        head + "\nFrom line no: "@ + decimal(e.pos_start.ln as nat) + ", from column no: "@
            + decimal(e.pos_start.cn as nat) + " to column no: "@ + decimal(e.pos_end.cn as nat)
    } else {
        head + "\nFrom line no: "@ + decimal(e.pos_start.ln as nat) + ", at column no: "@
            + decimal(e.pos_start.cn as nat) + " to line no: "@ + decimal(e.pos_end.ln as nat)
            + ", at column no: "@ + decimal(e.pos_end.cn as nat)
    }
}

impl Error {
    /// The error as text, for diagnostics.
    pub fn render(&self) -> (r: String)
        ensures
            r@ == rendered(self@),
    {
        let s = String::from_str("\n").concat(self.name.as_str()).concat(": ").concat(
            self.message.as_str(),
        );
        if self.pos_start.ln == self.pos_end.ln {
            s.concat("\nFrom line no: ").concat(to_decimal(self.pos_start.ln).as_str()).concat(
                ", from column no: ",
            ).concat(to_decimal(self.pos_start.cn).as_str()).concat(" to column no: ").concat(
                to_decimal(self.pos_end.cn).as_str(),
            )
        } else {
            s.concat("\nFrom line no: ").concat(to_decimal(self.pos_start.ln).as_str()).concat(
                ", at column no: ",
            ).concat(to_decimal(self.pos_start.cn).as_str()).concat(" to line no: ").concat(
                to_decimal(self.pos_end.ln).as_str(),
            ).concat(", at column no: ").concat(to_decimal(self.pos_end.cn).as_str())
        }
    }

    pub fn copy(&self) -> (r: Error)
        ensures
            r == *self,
    {
        Error {
            name: self.name.clone(),
            message: self.message.clone(),
            pos_start: self.pos_start.copy(),
            pos_end: self.pos_end.copy(),
        }
    }
}

} // verus!
