//! A position-tracking cursor over the characters of a document.
use vstd::prelude::*;
use crate::models::SourcePosition;
use crate::utils::{decimal, decode, push_decimal};

verus! {

/// A character sequence together with an advancing offset and the line and
/// column of that offset.
pub struct Cursor {
    pub input: Seq<char>,
    pub pos: nat,
    pub line: nat,
    pub col: nat,
}

impl Cursor {
    /// The cursor before the first character: line 1, column 0.
    pub open spec fn start(input: Seq<char>) -> Cursor {
        Cursor { input, pos: 0, line: 1, col: 0 }
    }

    /// Whether every character has been consumed.
    pub open spec fn at_end(self) -> bool {
        self.pos >= self.input.len()
    }

    /// The next character; meaningful only before the end.
    pub open spec fn peek(self) -> char
        recommends
            !self.at_end(),
    {
        self.input[self.pos as int]
    }

    /// The cursor after consuming the next character: a newline starts a new
    /// line at column 0, any other character moves one column to the right.
    pub open spec fn advance(self) -> Cursor
        recommends
            !self.at_end(),
    {
        if self.peek() == '\n' {
            Cursor { pos: self.pos + 1, line: self.line + 1, col: 0, ..self }
        } else {
            Cursor { pos: self.pos + 1, col: self.col + 1, ..self }
        }
    }

    /// The cursor after consuming `n` characters.
    pub open spec fn advance_by(self, n: nat) -> Cursor
        decreases n,
    {
        if n == 0 {
            self
        } else {
            self.advance_by((n - 1) as nat).advance()
        }
    }

    /// Where the cursor stands, as a source position.
    pub open spec fn position(self) -> SourcePosition {
        SourcePosition { line: self.line, column: self.col }
    }
}

/// Why the stream could not hand out a character.
#[derive(Clone, Copy, PartialEq, Eq, Debug)]
pub enum StreamError {
    /// A character was asked for at or past the end of the input.
    EndOfInput,
}

/// A cursor over the decoded characters of a string slice. Every
/// operation takes constant time.
pub struct InputStream<'a> {
    pos: usize,
    line: usize,
    col: usize,
    input: &'a str,
    chars: Vec<char>,
}

impl<'a> View for InputStream<'a> {
    type V = Cursor;

    closed spec fn view(&self) -> Cursor {
        Cursor {
            input: self.chars@,
            pos: self.pos as nat,
            line: self.line as nat,
            col: self.col as nat,
        }
    }
}

impl<'a> InputStream<'a> {
    #[verifier::type_invariant]
    spec fn inv(&self) -> bool {
        &&& self.chars@ == self.input@
        &&& self.chars@.len() < usize::MAX
        &&& self.pos <= self.chars@.len()
        &&& 1 <= self.line <= self.pos + 1
        &&& self.col <= self.pos
    }

    /// A stream before the first character of `input`.
    pub fn new(input: &'a str) -> (stream: Self)
        requires
            input@.len() < usize::MAX,
        ensures
            stream@ == Cursor::start(input@),
    {
        let chars = decode(input);
        Self { pos: 0, line: 1, col: 0, input, chars }
    }

    /// A stream over `input`, unless `input` has too many characters for
    /// its positions to be counted.
    pub fn try_new(input: &'a str) -> (stream: Option<Self>)
        ensures
            input@.len() < usize::MAX ==> stream is Some && stream->Some_0@ == Cursor::start(
                input@,
            ),
            input@.len() >= usize::MAX ==> stream is None,
    {
        let chars = decode(input);
        if chars.len() < usize::MAX {
            Some(Self { pos: 0, line: 1, col: 0, input, chars })
        } else {
            None
        }
    }

    /// Returns the next character and moves past it.
    pub fn next(&mut self) -> (r: Result<char, StreamError>)
        ensures
            old(self)@.at_end() ==> r == Err::<char, StreamError>(StreamError::EndOfInput)
                && final(self)@ == old(self)@,
            !old(self)@.at_end() ==> r == Ok::<char, StreamError>(old(self)@.peek())
                && final(self)@ == old(self)@.advance(),
    {
        proof {
            use_type_invariant(&*self);
        }
        if self.pos >= self.chars.len() {
            return Err(StreamError::EndOfInput);
        }
        let char = self.chars[self.pos];
        self.pos += 1;
        if char == '\n' {
            self.line += 1;
            self.col = 0;
        } else {
            self.col += 1;
        }
        Ok(char)
    }

    /// Returns the next character without moving.
    pub fn peek(&self) -> (r: Result<char, StreamError>)
        ensures
            self@.at_end() ==> r == Err::<char, StreamError>(StreamError::EndOfInput),
            !self@.at_end() ==> r == Ok::<char, StreamError>(self@.peek()),
    {
        proof {
            use_type_invariant(self);
        }
        if self.pos >= self.chars.len() {
            return Err(StreamError::EndOfInput);
        }
        Ok(self.chars[self.pos])
    }

    /// Whether the stream is at the end of its input.
    pub fn eof(&self) -> (r: bool)
        ensures
            r == self@.at_end(),
    {
        self.pos >= self.chars.len()
    }

    /// The text of a complaint about the input at the place where the
    /// stream stands: the message, then the line and the column.
    pub open spec fn complaint(cursor: Cursor, message: Seq<char>) -> Seq<char> {
        message + seq![' ', '('] + decimal(cursor.line) + seq![':'] + decimal(cursor.col) + seq![
            ')',
        ]
    }

    /// The complaint `msg` about the place where the stream stands.
    pub fn croak(&self, msg: &str) -> (text: String)
        ensures
            text@ == Self::complaint(self@, msg@),
    {
        let mut text = String::new();
        text.append(msg);
        text.push(' ');
        text.push('(');
        push_decimal(&mut text, self.line);
        text.push(':');
        push_decimal(&mut text, self.col);
        text.push(')');
        assert(text@ =~= Self::complaint(self@, msg@));
        text
    }

    /// The 1-based line of the next character.
    pub fn line(&self) -> (r: usize)
        ensures
            r == self@.line,
    {
        self.line
    }

    /// The 0-based column of the next character.
    pub fn col(&self) -> (r: usize)
        ensures
            r == self@.col,
    {
        self.col
    }

    /// The text that this stream reads.
    pub fn input(&self) -> (r: &'a str)
        ensures
            r@ == self@.input,
    {
        proof {
            use_type_invariant(self);
        }
        self.input
    }
}

} // verus!
