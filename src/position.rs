use vstd::prelude::*;

verus! {

/// A place in a grammar source: the file, its whole text, the absolute
/// character offset, and the 1-based line and column.
#[derive(Debug)]
pub struct Position {
    pub filename: String,
    pub ftext: String,
    pub index: u64,
    pub ln: u64,
    pub cn: u64,
}

/// The position reached from `p` by reading the character `c`.
pub open spec fn advanced(p: Position, c: char) -> Position {
    Position {
        index: (p.index + 1) as u64,
        ln: if c == '\n' { (p.ln + 1) as u64 } else { p.ln },
        cn: if c == '\n' { 0 } else { (p.cn + 1) as u64 },
        ..p
    }
}

impl Position {
    /// Moves past `current_char`: the offset and column grow by one, and a
    /// newline moves to the next line and resets the column.
    pub fn advance(&mut self, current_char: char)
        requires
            old(self).index < u64::MAX,
            old(self).ln < u64::MAX,
            old(self).cn < u64::MAX,
        ensures
            *final(self) == advanced(*old(self), current_char),
    {
        self.index = self.index + 1;
        self.cn = self.cn + 1;
        if current_char == '\n' {
            self.ln = self.ln + 1;
            self.cn = 0;
        }
    }

    pub fn copy(&self) -> (r: Position)
        ensures
            r == *self,
    {
        Position {
            index: self.index,
            ln: self.ln,
            cn: self.cn,
            filename: self.filename.clone(),
            ftext: self.ftext.clone(),
        }
    }
}

} // verus!
