//! A pull-based character cursor over a piece of source text.  It tracks a
//! 1-based line counter and a column counter for diagnostics and remembers
//! the single most recently pulled character, through which its consumers
//! detect exhaustion.

use vstd::prelude::*;

verus! {

/// The mathematical state of a [`Code`] cursor: the full text, the position
/// of the next character to pull, the diagnostic counters, and the result of
/// the most recent pull.
pub ghost struct CodeModel {
    pub text: Seq<char>,
    pub pos: int,
    pub line: int,
    pub column: int,
    pub last: Option<char>,
}

impl CodeModel {
    /// The counters stay machine-representable and the position stays inside
    /// the text (one past the last character at most).
    pub open spec fn wf(self) -> bool {
        0 <= self.pos <= self.text.len() && 1 <= self.line <= usize::MAX && 0 <= self.column
            <= usize::MAX && self.text.len() <= usize::MAX
    }

    /// The cursor state over `text` before anything has been pulled.
    pub open spec fn init(text: Seq<char>) -> CodeModel {
        CodeModel { text, pos: 0, line: 1, column: 0, last: None }
    }

    /// The character the next pull returns: the one under the position, or
    /// `None` once the text is exhausted.
    pub open spec fn peek(self) -> Option<char> {
        if self.pos < self.text.len() {
            Some(self.text[self.pos])
        } else {
            None
        }
    }

    /// The state after one pull.  A newline advances the line counter and
    /// resets the column to 0; any other result - exhaustion included -
    /// advances the column.  The counters saturate rather than wrap.
    pub open spec fn step(self) -> CodeModel {
        let r = self.peek();
        CodeModel {
            text: self.text,
            pos: if r is Some {
                self.pos + 1
            } else {
                self.pos
            },
            line: if r == Some('\n') {
                if self.line < usize::MAX {
                    self.line + 1
                } else {
                    self.line
                }
            } else {
                self.line
            },
            column: if r == Some('\n') {
                0
            } else {
                if self.column < usize::MAX {
                    self.column + 1
                } else {
                    self.column
                }
            },
            last: r,
        }
    }
}

/// An iterator-like cursor over the characters in a piece of code.
pub struct Code {
    chars: Vec<char>,
    pos: usize,
    line: usize,
    column: usize,
    last: Option<char>,
}

impl View for Code {
    type V = CodeModel;

    closed spec fn view(&self) -> CodeModel {
        CodeModel {
            text: self.chars@,
            pos: self.pos as int,
            line: self.line as int,
            column: self.column as int,
            last: self.last,
        }
    }
}

impl Code {
    /// Creates a cursor over the characters of `s`, standing on column 0 of
    /// line 1.
    pub fn from_str(s: &str) -> (r: Code)
        ensures
            r@ == CodeModel::init(s@),
            r@.wf(),
    {
        let n = s.unicode_len();
        let mut chars: Vec<char> = Vec::new();
        let mut i: usize = 0;
        while i < n
            invariant
                i <= n,
                n == s@.len(),
                chars@ =~= s@.subrange(0, i as int),
            decreases n - i,
        {
            chars.push(s.get_char(i));
            assert(chars@ =~= s@.subrange(0, i + 1));
            i += 1;
        }
        assert(chars@ =~= s@);
        Code { chars, pos: 0, line: 1, column: 0, last: None }
    }

    /// Pulls the next character, advancing the diagnostic counters as
    /// [`CodeModel::step`] describes.
    pub fn next(&mut self) -> (r: Option<char>)
        requires
            old(self)@.wf(),
        ensures
            final(self)@.wf(),
            r == old(self)@.peek(),
            final(self)@ == old(self)@.step(),
    {
        let r = if self.pos < self.chars.len() {
            let c = self.chars[self.pos];
            self.pos += 1;
            Some(c)
        } else {
            None
        };
        if r == Some('\n') {
            if self.line < usize::MAX {
                self.line += 1;
            }
            self.column = 0;
        } else {
            if self.column < usize::MAX {
                self.column += 1;
            }
        }
        self.last = r;
        r
    }

    /// Returns the line number.
    pub fn line(&self) -> (r: usize)
        ensures
            r == self@.line,
    {
        self.line
    }

    /// Returns the column number.
    pub fn column(&self) -> (r: usize)
        ensures
            r == self@.column,
    {
        self.column
    }

    /// Returns whether the most recent pull reported exhaustion.
    pub fn eof(&self) -> (r: bool)
        ensures
            r == (self@.last is None),
    {
        self.last.is_none()
    }
}

} // verus!
