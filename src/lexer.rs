use vstd::prelude::*;
use vstd::string::StringExecFns;
use crate::error::Error;
use crate::position::{Position, advanced};
use crate::text::push_char;
use crate::token::{Token, TokenView, views};
use crate::error::ErrorView;
use crate::token_types::TokenTypes;

verus! {

/// Scans grammar source bytes into tokens.
#[derive(Debug)]
pub struct Lexer {
    pub current_index: usize,
    pub chars: Vec<u8>,
    pub position: Position,
}

/// The byte at `i`, or zero past the end.
pub open spec fn byte_at(chars: Seq<u8>, i: int) -> u8 {
    if 0 <= i < chars.len() {
        chars[i]
    } else {
        0
    }
}

pub open spec fn is_letter_byte(b: u8) -> bool {
    (97 <= b && b <= 122) || (65 <= b && b <= 90) || b == 95
}

pub open spec fn is_num_byte(b: u8) -> bool {
    (48 <= b && b <= 57) || b == 46
}

/// `l` moved one byte on; the position takes the byte moved onto.
pub open spec fn adv(l: Lexer) -> Lexer {
    Lexer {
        current_index: (l.current_index + 1) as usize,
        position: advanced(l.position, byte_at(l.chars@, l.current_index + 1) as char),
        chars: l.chars,
    }
}

/// `l` moved `k` bytes on.
pub open spec fn adv_n(l: Lexer, k: nat) -> Lexer
    decreases k,
{
    if k == 0 {
        l
    } else {
        adv(adv_n(l, (k - 1) as nat))
    }
}

/// Where a run of identifier bytes from `i` ends.
pub open spec fn ident_end(chars: Seq<u8>, i: int) -> int
    decreases chars.len() - i,
{
    if 0 <= i < chars.len() && (is_letter_byte(chars[i]) || is_num_byte(chars[i])) {
        ident_end(chars, i + 1)
    } else {
        i
    }
}

/// Where a quoted text from `i` ends: at the next `quote`, zero byte or end.
pub open spec fn string_end(chars: Seq<u8>, i: int, quote: char) -> int
    decreases chars.len() - i,
{
    if 0 <= i < chars.len() && !(chars[i] == 0 || chars[i] as char == quote) {
        string_end(chars, i + 1, quote)
    } else {
        i
    }
}

/// The bytes from `a` to `b`, as characters.
pub open spec fn chars_between(chars: Seq<u8>, a: int, b: int) -> Seq<char> {
    Seq::new((b - a) as nat, |k: int| byte_at(chars, a + k) as char)
}

pub open spec fn token_at(l: Lexer, tok: TokenTypes) -> (Lexer, TokenView) {
    (
        adv(l),
        TokenView {
            tok_type: tok,
            tok_value: Seq::empty(),
            pos_start: l.position,
            pos_end: adv(l).position,
        },
    )
}

pub open spec fn string_at(l: Lexer, quote: char) -> (Lexer, TokenView) {
    let e = string_end(l.chars@, l.current_index + 1, quote);
    let l2 = adv_n(l, (e - l.current_index + 1) as nat);
    (
        l2,
        TokenView {
            tok_type: TokenTypes::Str,
            tok_value: chars_between(l.chars@, l.current_index + 1, e),
            pos_start: l.position,
            pos_end: l2.position,
        },
    )
}

pub open spec fn ident_at(l: Lexer) -> (Lexer, TokenView) {
    let e = ident_end(l.chars@, l.current_index + 1);
    let l2 = adv_n(l, (e - l.current_index) as nat);
    (
        l2,
        TokenView {
            tok_type: TokenTypes::Identifier,
            tok_value: chars_between(l.chars@, l.current_index as int, e),
            pos_start: l.position,
            pos_end: l2.position,
        },
    )
}

pub open spec fn error_at(l: Lexer) -> (Lexer, ErrorView) {
    (
        adv(l),
        ErrorView {
            name: "IllegalCharacterError"@,
            message: "Illegal character '"@ + seq![l.cur() as char] + "'"@,
            pos_start: l.position,
            pos_end: adv(l).position,
        },
    )
}

/// The literal and `|` tokens of the first `k` characters of a
/// double-quoted set that starts at `l`.
pub open spec fn or_items(l: Lexer, k: nat) -> Seq<TokenView>
    decreases k,
{
    if k == 0 {
        Seq::empty()
    } else {
        let lk = adv_n(l, k);
        or_items(l, (k - 1) as nat).push(
            TokenView {
                tok_type: TokenTypes::Str,
                tok_value: seq![byte_at(l.chars@, l.current_index + k) as char],
                pos_start: l.position,
                pos_end: lk.position,
            },
        ).push(
            TokenView {
                tok_type: TokenTypes::Pipe,
                tok_value: Seq::empty(),
                pos_start: l.position,
                pos_end: lk.position,
            },
        )
    }
}

pub open spec fn orstring_at(l: Lexer) -> (Lexer, Seq<TokenView>) {
    let e = string_end(l.chars@, l.current_index + 1, '"');
    let n = (e - l.current_index - 1) as nat;
    let l2 = adv_n(l, n + 2);
    let open = TokenView {
        tok_type: TokenTypes::RParen,
        tok_value: Seq::empty(),
        pos_start: l.position,
        pos_end: l.position,
    };
    let close = TokenView {
        tok_type: TokenTypes::LParen,
        tok_value: Seq::empty(),
        pos_start: l.position,
        pos_end: l2.position,
    };
    (l2, (seq![open] + or_items(l, n)).drop_last().push(close))
}

/// One scanning step at a byte that is not zero: the lexer after it and the
/// tokens it gives, or the error.
pub open spec fn step(l: Lexer) -> Result<(Lexer, Seq<TokenView>), ErrorView> {
    let c = l.cur();
    let single = |t: TokenTypes| Ok((token_at(l, t).0, seq![token_at(l, t).1]));
    if c == 32 || c == 9 || c == 13 {
        Ok((adv(l), Seq::empty()))
    } else if is_letter_byte(c) {
        Ok((ident_at(l).0, seq![ident_at(l).1]))
    } else if c as char == '\n' {
        single(TokenTypes::Newline)
    } else if c as char == '\'' {
        Ok((string_at(l, '\'').0, seq![string_at(l, '\'').1]))
    } else if c as char == '"' {
        Ok(orstring_at(l))
    } else if c as char == '(' {
        single(TokenTypes::RParen)
    } else if c as char == ')' {
        single(TokenTypes::LParen)
    } else if c as char == ',' {
        single(TokenTypes::Comma)
    } else if c as char == '|' {
        single(TokenTypes::Pipe)
    } else if c as char == '*' {
        single(TokenTypes::Asterisk)
    } else if c as char == '+' {
        single(TokenTypes::Plus)
    } else if c as char == '?' {
        single(TokenTypes::QuestionMark)
    } else if c as char == ':' {
        if adv(l).cur() as char == '=' {
            Ok((token_at(adv(l), TokenTypes::Assign).0, seq![token_at(adv(l), TokenTypes::Assign).1]))
        } else {
            Err(error_at(adv(l)).1)
        }
    } else {
        Err(error_at(l).1)
    }
}

/// The tokens scanned from `l` on, after those in `acc`: up to the first
/// zero byte or the end, closed by an `Eof` token; or the first error.
pub open spec fn lex_from(l: Lexer, acc: Seq<TokenView>) -> Result<Seq<TokenView>, ErrorView>
    decreases l.chars@.len() + 3 - l.current_index,
{
    if l.current_index > l.chars@.len() + 2 {
        Ok(acc)
    } else if l.cur() == 0 {
        Ok(acc.push(token_at(l, TokenTypes::Eof).1))
    } else {
        match step(l) {
            Err(e) => Err(e),
            Ok((l2, toks)) => if l2.current_index > l.current_index && l2.chars@.len()
                == l.chars@.len() && l2.current_index <= l.chars@.len() + 3 {
                lex_from(l2, acc + toks)
            } else {
                Ok(acc)
            },
        }
    }
}

impl Lexer {
    /// The bytes are few enough, and the position far enough from the
    /// limits of its counters, that scanning to the end cannot overflow.
    pub open spec fn wf(&self) -> bool {
        let room = self.chars@.len() + 3 - self.current_index;
        &&& self.chars@.len() + 3 <= usize::MAX
        &&& self.current_index <= self.chars@.len() + 2
        &&& self.position.index + room <= u64::MAX
        &&& self.position.ln + room <= u64::MAX
        &&& self.position.cn + room <= u64::MAX
    }

    pub open spec fn cur(&self) -> u8 {
        byte_at(self.chars@, self.current_index as int)
    }

    /// `self` is `old` moved forward over the same bytes.
    pub open spec fn moved_on(&self, old: Lexer) -> bool {
        &&& self.chars == old.chars
        &&& self.current_index >= old.current_index
        &&& self.wf()
    }

    fn get_byte(&self) -> (r: Option<&u8>)
        ensures
            r == if self.current_index < self.chars@.len() {
                Some(&self.chars@[self.current_index as int])
            } else {
                None::<&u8>
            },
    {
        if self.current_index < self.chars.len() {
            Some(&self.chars[self.current_index])
        } else {
            None
        }
    }

    fn get_char(&self) -> (r: char)
        ensures
            r == self.cur() as char,
    {
        match self.get_byte() {
            Some(b) => *b as char,
            None => 0u8 as char,
        }
    }

    fn advance(&mut self)
        requires
            old(self).wf(),
            old(self).current_index <= old(self).chars@.len() + 1,
        ensures
            final(self).chars == old(self).chars,
            final(self).current_index == old(self).current_index + 1,
            final(self).position == advanced(old(self).position, final(self).cur() as char),
            final(self).wf(),
            *final(self) == adv(*old(self)),
    {
        self.current_index = self.current_index + 1;
        let c = self.get_char();
        self.position.advance(c);
    }

    fn is_num(&self) -> (r: bool)
        ensures
            r == is_num_byte(self.cur()),
    {
        let b: u8 = match self.get_byte() {
            Some(b) => *b,
            None => 0,
        };
        (48 <= b && b <= 57) || b == 46
    }

    fn is_space(&self) -> (r: bool)
        ensures
            r == (self.cur() == 32 || self.cur() == 9 || self.cur() == 13),
    {
        let c = self.get_char();
        c == ' ' || c == '\t' || c == '\r'
    }

    fn is_char(&self, chararater: char) -> (r: bool)
        ensures
            r == (self.cur() as char == chararater),
    {
        self.get_char() == chararater
    }

    fn is_ident(&self) -> (r: bool)
        ensures
            r == is_letter_byte(self.cur()),
    {
        let b: u8 = match self.get_byte() {
            Some(b) => *b,
            None => 0,
        };
        (97 <= b && b <= 122) || (65 <= b && b <= 90) || b == 95
    }

    fn make_token(&mut self, tok: TokenTypes) -> (r: Token)
        requires
            old(self).wf(),
            old(self).current_index <= old(self).chars@.len() + 1,
        ensures
            final(self).moved_on(*old(self)),
            final(self).current_index == old(self).current_index + 1,
            r.tok_type == tok,
            r.tok_value@ == Seq::<char>::empty(),
            r.pos_start == old(self).position,
            r.pos_end == final(self).position,
            (*final(self), r@) == token_at(*old(self), tok),
    {
        let pos_start = self.position.copy();
        self.advance();
        Token {
            tok_type: tok,
            tok_value: String::new(),
            pos_start: pos_start,
            pos_end: self.position.copy(),
        }
    }

    /// A quoted literal that starts at the current byte and ends at the next
    /// `quote`, or at the end of the input: its characters are those between.
    fn make_string(&mut self, quote: char) -> (r: Token)
        requires
            old(self).wf(),
            old(self).current_index < old(self).chars@.len(),
        ensures
            final(self).moved_on(*old(self)),
            final(self).current_index >= old(self).current_index + 2,
            final(self).current_index <= final(self).chars@.len() + 1,
            r.tok_type == TokenTypes::Str,
            r.pos_start == old(self).position,
            r.tok_value@.len() == final(self).current_index - old(self).current_index - 2,
            forall|k: int|
                0 <= k < r.tok_value@.len() ==> r.tok_value@[k] == byte_at(
                    old(self).chars@,
                    old(self).current_index + 1 + k,
                ) as char && r.tok_value@[k] != quote && r.tok_value@[k] != 0u8 as char,
            ({
                let last = byte_at(final(self).chars@, final(self).current_index - 1) as char;
                last == quote || last == 0u8 as char
            }),
            (*final(self), r@) == string_at(*old(self), quote),
    {
        let ghost start = self.current_index;
        let ghost l0 = *self;
        let pos_start = self.position.copy();
        let mut chars = String::new();
        self.advance();
        assert(adv_n(l0, 1) == adv(adv_n(l0, 0)));
        let mut current_char = self.get_char();
        while !(self.is_char(0u8 as char) || self.is_char(quote))
            invariant
                self.moved_on(*old(self)),
                self.current_index <= self.chars@.len(),
                self.current_index == start + 1 + chars@.len(),
                *self == adv_n(l0, (chars@.len() + 1) as nat),
                l0 == *old(self),
                start == l0.current_index,
                string_end(self.chars@, start + 1, quote) == string_end(
                    self.chars@,
                    self.current_index as int,
                    quote,
                ),
                current_char == self.cur() as char,
                forall|k: int|
                    0 <= k < chars@.len() ==> chars@[k] == byte_at(self.chars@, start + 1 + k)
                        as char && chars@[k] != quote && chars@[k] != 0u8 as char,
            decreases self.chars@.len() + 3 - self.current_index,
        {
            push_char(&mut chars, current_char);
            self.advance();
            current_char = self.get_char();
        }
        assert(chars@ =~= chars_between(self.chars@, start + 1, self.current_index as int));
        self.advance();
        Token { tok_type: TokenTypes::Str, tok_value: chars, pos_start: pos_start, pos_end: self.position.copy() }
    }

    /// An identifier: the current character and the letters, digits and
    /// dots that follow it.
    fn make_ident(&mut self) -> (r: Token)
        requires
            old(self).wf(),
            old(self).current_index < old(self).chars@.len(),
        ensures
            final(self).moved_on(*old(self)),
            final(self).current_index > old(self).current_index,
            final(self).current_index <= final(self).chars@.len(),
            r.tok_type == TokenTypes::Identifier,
            r.pos_start == old(self).position,
            r.pos_end == final(self).position,
            r.tok_value@.len() == final(self).current_index - old(self).current_index,
            forall|k: int|
                0 <= k < r.tok_value@.len() ==> r.tok_value@[k] == byte_at(
                    old(self).chars@,
                    old(self).current_index + k,
                ) as char,
            !is_letter_byte(final(self).cur()) && !is_num_byte(final(self).cur()),
            (*final(self), r@) == ident_at(*old(self)),
    {
        let ghost start = self.current_index;
        let ghost l0 = *self;
        let pos_start = self.position.copy();
        let mut chars = String::new();
        push_char(&mut chars, self.get_char());
        self.advance();
        assert(adv_n(l0, 1) == adv(adv_n(l0, 0)));
        let mut current_char = self.get_char();
        while self.is_ident() || self.is_num()
            invariant
                self.moved_on(*old(self)),
                self.current_index <= self.chars@.len(),
                self.current_index == start + chars@.len(),
                chars@.len() >= 1,
                *self == adv_n(l0, chars@.len() as nat),
                l0 == *old(self),
                start == l0.current_index,
                ident_end(self.chars@, start + 1) == ident_end(self.chars@, self.current_index as int),
                current_char == self.cur() as char,
                forall|k: int|
                    0 <= k < chars@.len() ==> chars@[k] == byte_at(self.chars@, start + k) as char,
            decreases self.chars@.len() - self.current_index,
        {
            push_char(&mut chars, current_char);
            self.advance();
            current_char = self.get_char();
        }
        assert(chars@ =~= chars_between(self.chars@, start as int, self.current_index as int));
        Token { tok_type: TokenTypes::Identifier, tok_value: chars, pos_start: pos_start, pos_end: self.position.copy() }
    }

    /// The error for the character at the current byte, which no token can
    /// start with.
    fn errored_tok(&mut self) -> (r: Error)
        requires
            old(self).wf(),
            old(self).current_index <= old(self).chars@.len() + 1,
        ensures
            final(self).moved_on(*old(self)),
            final(self).current_index == old(self).current_index + 1,
            r.name@ == "IllegalCharacterError"@,
            r.message@ == "Illegal character '"@ + seq![old(self).cur() as char] + "'"@,
            r.pos_start == old(self).position,
            r.pos_end == final(self).position,
            (*final(self), r@) == error_at(*old(self)),
    {
        let pos_start = self.position.copy();
        let c = self.get_char();
        self.advance();
        let mut message = String::from_str("Illegal character '");
        push_char(&mut message, c);
        let message = message.concat("'");
        assert(message@ =~= "Illegal character '"@ + seq![c] + "'"@);
        Error {
            name: String::from_str("IllegalCharacterError"),
            message,
            pos_start: pos_start,
            pos_end: self.position.copy(),
        }
    }

    /// The token `:=`, at a `:`; any other character after the `:` is an
    /// error.
    fn two_char_tok(&mut self, tokens: &mut Vec<Token>, c: char) -> (r: Result<(), Error>)
        requires
            old(self).wf(),
            old(self).current_index < old(self).chars@.len(),
        ensures
            final(self).moved_on(*old(self)),
            final(self).current_index > old(self).current_index,
            final(self).current_index <= final(self).chars@.len() + 1,
            match r {
                Ok(_) => final(tokens)@ == old(tokens)@.push(final(tokens)@.last())
                    && final(tokens)@.last().tok_type == TokenTypes::Assign,
                Err(e) => final(tokens)@ == old(tokens)@ && e.name@ == "IllegalCharacterError"@,
            },
            ({
                let l1 = adv(*old(self));
                if l1.cur() as char == c {
                    r is Ok && (*final(self), final(tokens)@.last()@) == token_at(
                        l1,
                        TokenTypes::Assign,
                    )
                } else {
                    r matches Err(e) && (*final(self), e@) == error_at(l1)
                }
            }),
    {
        self.advance();
        if !self.is_char(c) {
            return Err(self.errored_tok());
        }
        let t = self.make_token(TokenTypes::Assign);
        tokens.push(t);
        Ok(())
    }

    /// The tokens of a double-quoted set of characters, which stands for the
    /// choice between them: `(`, then each character as a literal with `|`
    /// between them, then `)`.
    fn make_orstring(&mut self) -> (r: Vec<Token>)
        requires
            old(self).wf(),
            old(self).current_index < old(self).chars@.len(),
        ensures
            final(self).moved_on(*old(self)),
            final(self).current_index >= old(self).current_index + 2,
            final(self).current_index <= final(self).chars@.len() + 1,
            r@.len() >= 1,
            r@.last().tok_type == TokenTypes::LParen,
            r@.len() > 1 ==> r@[0].tok_type == TokenTypes::RParen,
            forall|k: int|
                0 < k < r@.len() - 1 ==> #[trigger] r@[k].tok_type == if k % 2 == 1 {
                    TokenTypes::Str
                } else {
                    TokenTypes::Pipe
                },
            forall|k: int| 0 <= k < r@.len() ==> #[trigger] r@[k].tok_type != TokenTypes::Eof,
            (*final(self), views(r@)) == orstring_at(*old(self)),
    {
        let ghost l0 = *self;
        let ghost start = self.current_index as int;
        let pos_start = self.position.copy();
        let mut toks: Vec<Token> = Vec::new();
        toks.push(
            Token {
                tok_type: TokenTypes::RParen,
                tok_value: String::new(),
                pos_start: pos_start.copy(),
                pos_end: self.position.copy(),
            },
        );
        self.advance();
        assert(adv_n(l0, 1) == adv(adv_n(l0, 0)));
        assert(views(toks@) =~= seq![toks@[0]@]);
        let mut current_char = self.get_char();
        while !(self.is_char(0u8 as char) || self.is_char('"'))
            invariant
                self.moved_on(*old(self)),
                self.current_index >= old(self).current_index + 1,
                self.current_index <= self.chars@.len(),
                current_char == self.cur() as char,
                toks@.len() % 2 == 1,
                toks@[0].tok_type == TokenTypes::RParen,
                l0 == *old(self),
                start == l0.current_index,
                pos_start == l0.position,
                *self == adv_n(l0, (self.current_index - start) as nat),
                string_end(self.chars@, start + 1, '"') == string_end(
                    self.chars@,
                    self.current_index as int,
                    '"',
                ),
                views(toks@) == seq![
                    TokenView {
                        tok_type: TokenTypes::RParen,
                        tok_value: Seq::empty(),
                        pos_start: l0.position,
                        pos_end: l0.position,
                    },
                ] + or_items(l0, (self.current_index - start - 1) as nat),
                forall|k: int|
                    0 < k < toks@.len() ==> #[trigger] toks@[k].tok_type == if k % 2 == 1 {
                        TokenTypes::Str
                    } else {
                        TokenTypes::Pipe
                    },
            decreases self.chars@.len() + 3 - self.current_index,
        {
            let ghost prev = toks@;
            let mut value = String::new();
            push_char(&mut value, current_char);
            assert(value@ =~= seq![current_char]);
            toks.push(
                Token {
                    tok_type: TokenTypes::Str,
                    tok_value: value,
                    pos_start: pos_start.copy(),
                    pos_end: self.position.copy(),
                },
            );
            toks.push(
                Token {
                    tok_type: TokenTypes::Pipe,
                    tok_value: String::new(),
                    pos_start: pos_start.copy(),
                    pos_end: self.position.copy(),
                },
            );
            assert(views(toks@) =~= views(prev).push(toks@[toks@.len() - 2]@).push(toks@.last()@));
            self.advance();
            current_char = self.get_char();
        }
        self.advance();
        let ghost full = toks@;
        toks.pop();
        assert(views(toks@) =~= views(full).drop_last());
        toks.push(
            Token {
                tok_type: TokenTypes::LParen,
                tok_value: String::new(),
                pos_start: pos_start.copy(),
                pos_end: self.position.copy(),
            },
        );
        assert(views(toks@) =~= views(full).drop_last().push(toks@.last()@));
        toks
    }

    /// Scans the bytes from the current one up to the end, or up to a zero
    /// byte, into tokens. Spaces, tabs and carriage returns only separate
    /// tokens, and an `Eof` token ends the list.
    pub fn lex(&mut self) -> (r: Result<Vec<Token>, Error>)
        requires
            old(self).wf(),
            old(self).current_index <= old(self).chars@.len(),
        ensures
            final(self).chars == old(self).chars,
            match r {
                Ok(toks) => {
                    &&& lex_from(*old(self), Seq::empty()) == Ok::<Seq<TokenView>, ErrorView>(
                        views(toks@),
                    )
                    &&& byte_at(final(self).chars@, final(self).current_index - 1) == 0
                    &&& toks@.len() >= 1
                    &&& toks@.last().tok_type == TokenTypes::Eof
                    &&& forall|k: int|
                        0 <= k < toks@.len() - 1 ==> #[trigger] toks@[k].tok_type != TokenTypes::Eof
                },
                Err(e) => lex_from(*old(self), Seq::empty()) == Err::<Seq<TokenView>, ErrorView>(
                    e@,
                ) && e.name@ == "IllegalCharacterError"@,
            },
    {
        let mut tokens: Vec<Token> = Vec::new();
        assert(views(tokens@) =~= Seq::<TokenView>::empty());
        while self.get_char() != 0u8 as char
            invariant
                self.moved_on(*old(self)),
                self.current_index <= self.chars@.len() + 1,
                forall|k: int|
                    0 <= k < tokens@.len() ==> #[trigger] tokens@[k].tok_type != TokenTypes::Eof,
                lex_from(*old(self), Seq::empty()) == lex_from(*self, views(tokens@)),
            decreases self.chars@.len() + 3 - self.current_index,
        {
            let ghost l = *self;
            let ghost acc = views(tokens@);
            if self.is_space() {
                self.advance();
                assert(acc + Seq::<TokenView>::empty() =~= acc);
            } else if self.is_ident() {
                let t = self.make_ident();
                tokens.push(t);
                assert(views(tokens@) =~= acc + seq![t@]);
            } else if self.is_char('\n') {
                let t = self.make_token(TokenTypes::Newline);
                tokens.push(t);
                assert(views(tokens@) =~= acc + seq![t@]);
            } else if self.is_char('\'') {
                let t = self.make_string('\'');
                tokens.push(t);
                assert(views(tokens@) =~= acc + seq![t@]);
            } else if self.is_char('"') {
                let mut toks = self.make_orstring();
                let ghost added = views(toks@);
                tokens.append(&mut toks);
                assert(views(tokens@) =~= acc + added);
            } else if self.is_char('(') {
                let t = self.make_token(TokenTypes::RParen);
                tokens.push(t);
                assert(views(tokens@) =~= acc + seq![t@]);
            } else if self.is_char(')') {
                let t = self.make_token(TokenTypes::LParen);
                tokens.push(t);
                assert(views(tokens@) =~= acc + seq![t@]);
            } else if self.is_char(',') {
                let t = self.make_token(TokenTypes::Comma);
                tokens.push(t);
                assert(views(tokens@) =~= acc + seq![t@]);
            } else if self.is_char('|') {
                let t = self.make_token(TokenTypes::Pipe);
                tokens.push(t);
                assert(views(tokens@) =~= acc + seq![t@]);
            } else if self.is_char('*') {
                let t = self.make_token(TokenTypes::Asterisk);
                tokens.push(t);
                assert(views(tokens@) =~= acc + seq![t@]);
            } else if self.is_char('+') {
                let t = self.make_token(TokenTypes::Plus);
                tokens.push(t);
                assert(views(tokens@) =~= acc + seq![t@]);
            } else if self.is_char('?') {
                let t = self.make_token(TokenTypes::QuestionMark);
                tokens.push(t);
                assert(views(tokens@) =~= acc + seq![t@]);
            } else if self.is_char(':') {
                match self.two_char_tok(&mut tokens, '=') {
                    Ok(_) => {
                        assert(views(tokens@) =~= acc + seq![tokens@.last()@]);
                    },
                    Err(a) => {
                        return Err(a);
                    },
                }
            } else {
                return Err(self.errored_tok());
            }
        }
        assert(self.cur() == 0);
        let ghost acc = views(tokens@);
        let t = self.make_token(TokenTypes::Eof);
        tokens.push(t);
        assert(views(tokens@) =~= acc.push(t@));
        Ok(tokens)
    }
}

} // verus!
