//! The compilation phase: splitting source text into tokens and resolving
//! symbolic jump targets into absolute addresses.

use crate::token::{argument, instrs, Instr, Label, LabelRef, Token};
use crate::value::ArithOp;
use crate::{push_char, space, str_eq};
use vstd::prelude::*;

pub mod code;
pub mod error;

use code::{Code, CodeModel};
use error::{err_at, Error, ErrorKind};

verus! {

/// What reading the rest of a block comment does, with `last` the most
/// recently pulled character: everything before the closing `*/`, or an
/// end-of-file error if the text runs out first.
pub open spec fn comment_loop(m: CodeModel, acc: Seq<char>, last: char) -> (Result<
    Seq<char>,
    Error,
>, CodeModel)
    decreases m.text.len() - m.pos,
    when m.wf()
{
    let c = m.peek();
    let m2 = m.step();
    match c {
        None => (Err(err_at(ErrorKind::EndOfFile, m2)), m2),
        Some(ch) => if last == '*' && ch == '/' {
            (Ok(acc), m2)
        } else {
            comment_loop(m2, acc.push(last), ch)
        },
    }
}

/// Reading a comment's tail leaves the text alone and moves only forward.
pub proof fn lemma_comment_loop_mono(m: CodeModel, acc: Seq<char>, last: char)
    requires
        m.wf(),
    ensures
        comment_loop(m, acc, last).1.wf(),
        comment_loop(m, acc, last).1.text == m.text,
        comment_loop(m, acc, last).1.pos >= m.pos,
    decreases m.text.len() - m.pos,
{
    let c = m.peek();
    if c is Some && !(last == '*' && c->0 == '/') {
        lemma_comment_loop_mono(m.step(), acc.push(last), c->0);
    }
}

/// What reading a block comment does, entered just after its `/*` opener.
pub open spec fn read_comment_s(m: CodeModel) -> (Result<Seq<char>, Error>, CodeModel) {
    let c = m.peek();
    let m2 = m.step();
    match c {
        None => (Err(err_at(ErrorKind::EndOfFile, m2)), m2),
        Some(first) => comment_loop(m2, Seq::empty(), first),
    }
}

/// Reading a comment leaves the text alone and moves only forward.
pub proof fn lemma_read_comment_mono(m: CodeModel)
    requires
        m.wf(),
    ensures
        read_comment_s(m).1.wf(),
        read_comment_s(m).1.text == m.text,
        read_comment_s(m).1.pos >= m.pos,
{
    let c = m.peek();
    if c is Some {
        lemma_comment_loop_mono(m.step(), Seq::empty(), c->0);
    }
}

/// What reading the rest of a quoted string does.  `escaped` records that a
/// backslash was just read; the recognized escapes are `\n \r \t \0 \\ \"`.
pub open spec fn string_loop(m: CodeModel, acc: Seq<char>, escaped: bool) -> (Result<
    Seq<char>,
    Error,
>, CodeModel)
    decreases m.text.len() - m.pos,
    when m.wf()
{
    let c = m.peek();
    let m2 = m.step();
    match c {
        None => (Err(err_at(ErrorKind::EndOfFile, m2)), m2),
        Some(ch) => if escaped {
            if ch == 'n' {
                string_loop(m2, acc.push('\n'), false)
            } else if ch == 'r' {
                string_loop(m2, acc.push('\r'), false)
            } else if ch == 't' {
                string_loop(m2, acc.push('\t'), false)
            } else if ch == '0' {
                string_loop(m2, acc.push('\0'), false)
            } else if ch == '\\' || ch == '"' {
                string_loop(m2, acc.push(ch), false)
            } else {
                (Err(err_at(ErrorKind::InvalidEscape, m2)), m2)
            }
        } else if ch == '"' {
            (Ok(acc), m2)
        } else if ch == '\\' {
            string_loop(m2, acc, true)
        } else {
            string_loop(m2, acc.push(ch), false)
        },
    }
}

/// Reading a string's tail leaves the text alone and moves only forward.
pub proof fn lemma_string_loop_mono(m: CodeModel, acc: Seq<char>, escaped: bool)
    requires
        m.wf(),
    ensures
        string_loop(m, acc, escaped).1.wf(),
        string_loop(m, acc, escaped).1.text == m.text,
        string_loop(m, acc, escaped).1.pos >= m.pos,
    decreases m.text.len() - m.pos,
{
    let c = m.peek();
    let m2 = m.step();
    if c is Some {
        let ch = c->0;
        if escaped {
            if ch == 'n' {
                lemma_string_loop_mono(m2, acc.push('\n'), false);
            } else if ch == 'r' {
                lemma_string_loop_mono(m2, acc.push('\r'), false);
            } else if ch == 't' {
                lemma_string_loop_mono(m2, acc.push('\t'), false);
            } else if ch == '0' {
                lemma_string_loop_mono(m2, acc.push('\0'), false);
            } else if ch == '\\' || ch == '"' {
                lemma_string_loop_mono(m2, acc.push(ch), false);
            }
        } else if ch == '"' {
        } else if ch == '\\' {
            lemma_string_loop_mono(m2, acc, true);
        } else {
            lemma_string_loop_mono(m2, acc.push(ch), false);
        }
    }
}

/// What reading a quoted string does, entered just after the opening quote.
pub open spec fn read_string_s(m: CodeModel) -> (Result<Seq<char>, Error>, CodeModel) {
    string_loop(m, Seq::empty(), false)
}

/// What reading a bare word does, continuing `acc`: characters up to and
/// excluding the next whitespace (which is consumed) or the end of input.
pub open spec fn word_loop(m: CodeModel, acc: Seq<char>) -> (Seq<char>, CodeModel)
    decreases m.text.len() - m.pos,
    when m.wf()
{
    let c = m.peek();
    let m2 = m.step();
    match c {
        None => (acc, m2),
        Some(ch) => if crate::is_space(ch) {
            (acc, m2)
        } else {
            word_loop(m2, acc.push(ch))
        },
    }
}

/// Reading a word leaves the text alone and moves only forward.
pub proof fn lemma_word_loop_mono(m: CodeModel, acc: Seq<char>)
    requires
        m.wf(),
    ensures
        word_loop(m, acc).1.wf(),
        word_loop(m, acc).1.text == m.text,
        word_loop(m, acc).1.pos >= m.pos,
    decreases m.text.len() - m.pos,
{
    let c = m.peek();
    if c is Some && !crate::is_space(c->0) {
        lemma_word_loop_mono(m.step(), acc.push(c->0));
    }
}

/// What reading the operand of `out` does: a quoted string taken verbatim,
/// or a bare word with one newline appended.
pub open spec fn read_out_s(m: CodeModel) -> (Result<Seq<char>, Error>, CodeModel) {
    let (skipped, m2) = argument::skip_ws(m);
    match skipped {
        Err(e) => (Err(e), m2),
        Ok(None) => (Err(err_at(ErrorKind::EndOfFile, m2)), m2),
        Ok(Some(c)) => if c == '"' {
            read_string_s(m2)
        } else {
            let (word, m3) = word_loop(m2, seq![c]);
            (Ok(word.push('\n')), m3)
        },
    }
}

/// Reading an `out` operand leaves the text alone and moves only forward.
pub proof fn lemma_read_out_mono(m: CodeModel)
    requires
        m.wf(),
    ensures
        read_out_s(m).1.wf(),
        read_out_s(m).1.text == m.text,
        read_out_s(m).1.pos >= m.pos,
{
    argument::lemma_skip_ws_mono(m);
    let (skipped, m2) = argument::skip_ws(m);
    match skipped {
        Ok(Some(c)) => {
            if c == '"' {
                lemma_string_loop_mono(m2, Seq::empty(), false);
            } else {
                lemma_word_loop_mono(m2, seq![c]);
            }
        },
        _ => {},
    }
}

/// What reading the symbolic target of a jump does: skip whitespace, then
/// one bare word.
pub open spec fn read_jmp_label_s(m: CodeModel) -> (Result<Seq<char>, Error>, CodeModel) {
    let (skipped, m2) = argument::skip_ws(m);
    match skipped {
        Err(e) => (Err(e), m2),
        Ok(None) => (Err(err_at(ErrorKind::EndOfFile, m2)), m2),
        Ok(Some(c)) => {
            let (word, m3) = word_loop(m2, seq![c]);
            (Ok(word), m3)
        },
    }
}

/// Reading a jump target leaves the text alone and moves only forward.
pub proof fn lemma_read_jmp_label_mono(m: CodeModel)
    requires
        m.wf(),
    ensures
        read_jmp_label_s(m).1.wf(),
        read_jmp_label_s(m).1.text == m.text,
        read_jmp_label_s(m).1.pos >= m.pos,
{
    argument::lemma_skip_ws_mono(m);
    let (skipped, m2) = argument::skip_ws(m);
    match skipped {
        Ok(Some(c)) => {
            lemma_word_loop_mono(m2, seq![c]);
        },
        _ => {},
    }
}

/// Lifts a token-level reader's outcome to an optional instruction.
pub open spec fn lift_token(r: (Result<Token, Error>, CodeModel)) -> (Result<
    Option<Instr>,
    Error,
>, CodeModel) {
    match r.0 {
        Ok(t) => (Ok(Some(t@)), r.1),
        Err(e) => (Err(e), r.1),
    }
}

/// What dispatching one accumulated command token does: the empty token
/// yields nothing, known command names read their operands, a trailing
/// colon declares a label, and anything else is an invalid command.
pub open spec fn parse_command_s(cs: Seq<char>, m: CodeModel) -> (Result<
    Option<Instr>,
    Error,
>, CodeModel) {
    if cs.len() == 0 {
        (Ok(None), m)
    } else if cs == "out"@ {
        let (r, m2) = read_out_s(m);
        match r {
            Ok(text) => (Ok(Some(Instr::Out(text))), m2),
            Err(e) => (Err(e), m2),
        }
    } else if cs == "mov"@ {
        lift_token(crate::token::mov_s(m))
    } else if cs == "add"@ {
        lift_token(crate::token::arith_s(m, ArithOp::Add))
    } else if cs == "sub"@ {
        lift_token(crate::token::arith_s(m, ArithOp::Sub))
    } else if cs == "mul"@ {
        lift_token(crate::token::arith_s(m, ArithOp::Mul))
    } else if cs == "div"@ {
        lift_token(crate::token::arith_s(m, ArithOp::Div))
    } else if cs == "mod"@ {
        lift_token(crate::token::arith_s(m, ArithOp::Mod))
    } else if cs == "jmp"@ {
        let (r, m2) = read_jmp_label_s(m);
        match r {
            Ok(name) => (Ok(Some(Instr::Jmp(LabelRef::Base(name)))), m2),
            Err(e) => (Err(e), m2),
        }
    } else if cs == "jl"@ {
        let (r, m2) = read_jmp_label_s(m);
        match r {
            Ok(name) => (Ok(Some(Instr::Jl(LabelRef::Base(name)))), m2),
            Err(e) => (Err(e), m2),
        }
    } else if cs == "jg"@ {
        let (r, m2) = read_jmp_label_s(m);
        match r {
            Ok(name) => (Ok(Some(Instr::Jg(LabelRef::Base(name)))), m2),
            Err(e) => (Err(e), m2),
        }
    } else if cs == "je"@ {
        let (r, m2) = read_jmp_label_s(m);
        match r {
            Ok(name) => (Ok(Some(Instr::Je(LabelRef::Base(name)))), m2),
            Err(e) => (Err(e), m2),
        }
    } else if cs == "cmp"@ {
        let (r, m2) = argument::read_values(m, 2);
        match r {
            Ok(values) => (Ok(Some(Instr::Cmp(values[0], values[1]))), m2),
            Err(e) => (Err(e), m2),
        }
    } else if cs.last() == ':' {
        if forall|j: int| 0 <= j < cs.len() - 1 ==> cs[j] != ':' {
            (Ok(Some(Instr::Label(cs.take(cs.len() - 1)))), m)
        } else {
            (Err(err_at(ErrorKind::InvalidLabel, m)), m)
        }
    } else {
        (Err(err_at(ErrorKind::InvalidCommand, m)), m)
    }
}

/// Reads a multi-line comment, entered just after its `/*` opener.
#[verifier::loop_isolation(false)]
fn read_comment(code: &mut Code) -> (r: Result<Token, Error>)
    requires
        old(code)@.wf(),
    ensures
        final(code)@.wf(),
        match (r, read_comment_s(old(code)@)) {
            (Ok(t), (Ok(text), sm)) => t@ == Instr::Comment(text) && final(code)@ == sm,
            (Err(e), (Err(se), sm)) => e == se && final(code)@ == sm,
            _ => false,
        },
{
    let mut comment = String::new();
    let mut last_char = match code.next() {
        None => {
            return Err(Error::end_of_file(code.line(), code.column()));
        },
        Some(c) => c,
    };
    let ghost m1 = code@;
    let ghost first = last_char;
    proof {
        assert(comment@ =~= Seq::<char>::empty());
    }
    loop
        invariant
            code@.wf(),
            comment_loop(code@, comment@, last_char) == comment_loop(m1, Seq::empty(), first),
        decreases code@.text.len() - code@.pos,
    {
        match code.next() {
            None => {
                return Err(Error::end_of_file(code.line(), code.column()));
            },
            Some(c) => {
                if last_char == '*' && c == '/' {
                    return Ok(Token::Comment(comment));
                }
                push_char(&mut comment, last_char);
                last_char = c;
            },
        }
    }
}

/// Reads a quoted string, entered just after the opening quote.
#[verifier::loop_isolation(false)]
fn read_string(code: &mut Code) -> (r: Result<String, Error>)
    requires
        old(code)@.wf(),
    ensures
        final(code)@.wf(),
        match (r, read_string_s(old(code)@)) {
            (Ok(text), (Ok(stext), sm)) => text@ == stext && final(code)@ == sm,
            (Err(e), (Err(se), sm)) => e == se && final(code)@ == sm,
            _ => false,
        },
{
    let mut result = String::new();
    let mut escaped: bool = false;
    proof {
        assert(result@ =~= Seq::<char>::empty());
    }
    loop
        invariant
            code@.wf(),
            string_loop(code@, result@, escaped) == string_loop(old(code)@, Seq::empty(), false),
        decreases code@.text.len() - code@.pos,
    {
        match code.next() {
            None => {
                return Err(Error::end_of_file(code.line(), code.column()));
            },
            Some(c) => {
                if escaped {
                    if c == 'n' {
                        push_char(&mut result, '\n');
                    } else if c == 'r' {
                        push_char(&mut result, '\r');
                    } else if c == 't' {
                        push_char(&mut result, '\t');
                    } else if c == '0' {
                        push_char(&mut result, '\0');
                    } else if c == '\\' || c == '"' {
                        push_char(&mut result, c);
                    } else {
                        return Err(
                            Error::new(ErrorKind::InvalidEscape, code.line(), code.column()),
                        );
                    }
                    escaped = false;
                } else if c == '"' {
                    return Ok(result);
                } else if c == '\\' {
                    escaped = true;
                } else {
                    push_char(&mut result, c);
                }
            },
        }
    }
}

/// Reads a bare word starting with the already-pulled character `first`,
/// until whitespace or the end of input.
#[verifier::loop_isolation(false)]
fn read_word(code: &mut Code, first: char) -> (r: String)
    requires
        old(code)@.wf(),
    ensures
        final(code)@.wf(),
        (r@, final(code)@) == word_loop(old(code)@, seq![first]),
{
    let mut word = String::new();
    push_char(&mut word, first);
    proof {
        assert(word@ =~= seq![first]);
    }
    loop
        invariant
            code@.wf(),
            word_loop(code@, word@) == word_loop(old(code)@, seq![first]),
        decreases code@.text.len() - code@.pos,
    {
        match code.next() {
            None => {
                return word;
            },
            Some(c) => {
                if space(c) {
                    return word;
                }
                push_char(&mut word, c);
            },
        }
    }
}

/// Reads the operand of `out`: a quoted string taken verbatim, or a bare
/// word with one newline appended.
fn read_out(code: &mut Code) -> (r: Result<Token, Error>)
    requires
        old(code)@.wf(),
    ensures
        final(code)@.wf(),
        match (r, read_out_s(old(code)@)) {
            (Ok(t), (Ok(text), sm)) => t@ == Instr::Out(text) && final(code)@ == sm,
            (Err(e), (Err(se), sm)) => e == se && final(code)@ == sm,
            _ => false,
        },
{
    let c = match argument::skip_whitespace(code) {
        Err(e) => {
            return Err(e);
        },
        Ok(None) => {
            return Err(Error::end_of_file(code.line(), code.column()));
        },
        Ok(Some(c)) => c,
    };
    if c == '"' {
        match read_string(code) {
            Ok(text) => Ok(Token::Out(text)),
            Err(e) => Err(e),
        }
    } else {
        let mut word = read_word(code, c);
        push_char(&mut word, '\n');
        Ok(Token::Out(word))
    }
}

/// Reads the symbolic target of a jump.
fn read_jmp_label(code: &mut Code) -> (r: Result<String, Error>)
    requires
        old(code)@.wf(),
    ensures
        final(code)@.wf(),
        match (r, read_jmp_label_s(old(code)@)) {
            (Ok(name), (Ok(sname), sm)) => name@ == sname && final(code)@ == sm,
            (Err(e), (Err(se), sm)) => e == se && final(code)@ == sm,
            _ => false,
        },
{
    let c = match argument::skip_whitespace(code) {
        Err(e) => {
            return Err(e);
        },
        Ok(None) => {
            return Err(Error::end_of_file(code.line(), code.column()));
        },
        Ok(Some(c)) => c,
    };
    Ok(read_word(code, c))
}

/// The index of the first colon in `s`, or its length if there is none.
fn first_colon_index(s: &str) -> (r: usize)
    ensures
        r <= s@.len(),
        forall|j: int| 0 <= j < r ==> s@[j] != ':',
        r < s@.len() ==> s@[r as int] == ':',
{
    let n = s.unicode_len();
    let mut i: usize = 0;
    while i < n
        invariant
            i <= n,
            n == s@.len(),
            forall|j: int| 0 <= j < i ==> s@[j] != ':',
        decreases n - i,
    {
        if s.get_char(i) == ':' {
            return i;
        }
        i += 1;
    }
    n
}

/// Parses one accumulated command token, reading its operands from the
/// scanner, and yields the instruction it denotes (or none, for the empty
/// token).
fn parse_command(command: &str, code: &mut Code) -> (r: Result<Option<Token>, Error>)
    requires
        old(code)@.wf(),
    ensures
        final(code)@.wf(),
        match (r, parse_command_s(command@, old(code)@)) {
            (Ok(None), (Ok(None), sm)) => final(code)@ == sm,
            (Ok(Some(t)), (Ok(Some(i)), sm)) => t@ == i && final(code)@ == sm,
            (Err(e), (Err(se), sm)) => e == se && final(code)@ == sm,
            _ => false,
        },
{
    let n = command.unicode_len();
    if n == 0 {
        Ok(None)
    } else if str_eq(command, "out") {
        match read_out(code) {
            Ok(t) => Ok(Some(t)),
            Err(e) => Err(e),
        }
    } else if str_eq(command, "mov") {
        match Token::mov(code) {
            Ok(t) => Ok(Some(t)),
            Err(e) => Err(e),
        }
    } else if str_eq(command, "add") {
        match Token::add(code) {
            Ok(t) => Ok(Some(t)),
            Err(e) => Err(e),
        }
    } else if str_eq(command, "sub") {
        match Token::sub(code) {
            Ok(t) => Ok(Some(t)),
            Err(e) => Err(e),
        }
    } else if str_eq(command, "mul") {
        match Token::mul(code) {
            Ok(t) => Ok(Some(t)),
            Err(e) => Err(e),
        }
    } else if str_eq(command, "div") {
        match Token::div(code) {
            Ok(t) => Ok(Some(t)),
            Err(e) => Err(e),
        }
    } else if str_eq(command, "mod") {
        match Token::modulo(code) {
            Ok(t) => Ok(Some(t)),
            Err(e) => Err(e),
        }
    } else if str_eq(command, "jmp") {
        match read_jmp_label(code) {
            Ok(name) => Ok(Some(Token::Jmp(Label::Base(name)))),
            Err(e) => Err(e),
        }
    } else if str_eq(command, "jl") {
        match read_jmp_label(code) {
            Ok(name) => Ok(Some(Token::Jl(Label::Base(name)))),
            Err(e) => Err(e),
        }
    } else if str_eq(command, "jg") {
        match read_jmp_label(code) {
            Ok(name) => Ok(Some(Token::Jg(Label::Base(name)))),
            Err(e) => Err(e),
        }
    } else if str_eq(command, "je") {
        match read_jmp_label(code) {
            Ok(name) => Ok(Some(Token::Je(Label::Base(name)))),
            Err(e) => Err(e),
        }
    } else if str_eq(command, "cmp") {
        match argument::read_arguments(code, 2) {
            Ok(values) => Ok(Some(Token::Cmp(values[0], values[1]))),
            Err(e) => Err(e),
        }
    } else if command.get_char(n - 1) == ':' {
        let colon = first_colon_index(command);
        if colon == n - 1 {
            let name = command.substring_char(0, n - 1).to_owned();
            proof {
                assert(name@ =~= command@.take(n - 1));
            }
            Ok(Some(Token::Label(name)))
        } else {
            Err(Error::new(ErrorKind::InvalidLabel, code.line(), code.column()))
        }
    } else {
        Err(Error::new(ErrorKind::InvalidCommand, code.line(), code.column()))
    }
}

/// Dispatching a command leaves the text alone and moves only forward.
pub proof fn lemma_parse_command_mono(cs: Seq<char>, m: CodeModel)
    requires
        m.wf(),
    ensures
        parse_command_s(cs, m).1.wf(),
        parse_command_s(cs, m).1.text == m.text,
        parse_command_s(cs, m).1.pos >= m.pos,
{
    if cs.len() == 0 {
    } else if cs == "out"@ {
        lemma_read_out_mono(m);
    } else if cs == "mov"@ {
        argument::lemma_read_reg_args_mono(m, 1);
    } else if cs == "add"@ || cs == "sub"@ || cs == "mul"@ || cs == "div"@ || cs == "mod"@ {
        argument::lemma_read_reg_args_mono(m, 2);
    } else if cs == "jmp"@ || cs == "jl"@ || cs == "jg"@ || cs == "je"@ {
        lemma_read_jmp_label_mono(m);
    } else if cs == "cmp"@ {
        argument::lemma_read_values_mono(m, 2);
    }
}

/// What the whole tokenizer does from the middle of the source on: `cmd` is
/// the command token accumulating, `last` the most recently pulled
/// character, and `acc` the instructions produced so far.  Whitespace
/// dispatches the accumulated command; `/*` right after a `/` starts a block
/// comment; exhaustion dispatches one final time.
pub open spec fn split_loop(m: CodeModel, cmd: Seq<char>, last: char, acc: Seq<Instr>) -> Result<
    Seq<Instr>,
    Error,
>
    decreases m.text.len() - m.pos,
    when m.wf()
    via split_loop_decreases
{
    let c = m.peek();
    let m2 = m.step();
    match c {
        None => {
            let (r, _) = parse_command_s(cmd, m2);
            match r {
                Err(e) => Err(e),
                Ok(None) => Ok(acc),
                Ok(Some(t)) => Ok(acc.push(t)),
            }
        },
        Some(ch) => if crate::is_space(ch) {
            let (r, m3) = parse_command_s(cmd, m2);
            match r {
                Err(e) => Err(e),
                Ok(None) => split_loop(m3, Seq::empty(), ch, acc),
                Ok(Some(t)) => split_loop(m3, Seq::empty(), ch, acc.push(t)),
            }
        } else if last == '/' && ch == '*' {
            let (r, m3) = read_comment_s(m2);
            match r {
                Err(e) => Err(e),
                Ok(text) => split_loop(m3, Seq::empty(), ch, acc.push(Instr::Comment(text))),
            }
        } else {
            split_loop(m2, cmd.push(ch), ch, acc)
        },
    }
}

#[via_fn]
proof fn split_loop_decreases(m: CodeModel, cmd: Seq<char>, last: char, acc: Seq<Instr>) {
    if m.wf() {
        let m2 = m.step();
        lemma_parse_command_mono(cmd, m2);
        lemma_read_comment_mono(m2);
    }
}

/// What tokenizing a whole source text yields: the ordered instruction
/// sequence, or the first fatal grammar error.  Empty input yields the empty
/// sequence.
pub open spec fn split_tokens_s(text: Seq<char>) -> Result<Seq<Instr>, Error> {
    let m = CodeModel::init(text);
    let c = m.peek();
    let m2 = m.step();
    match c {
        None => Ok(Seq::empty()),
        Some(ch) => split_loop(
            m2,
            if crate::is_space(ch) {
                Seq::empty()
            } else {
                seq![ch]
            },
            ch,
            Seq::empty(),
        ),
    }
}

/// Splits the source text into its ordered token sequence, or reports the
/// first grammar violation with its position.
#[verifier::loop_isolation(false)]
pub fn split_tokens(source: &str) -> (r: Result<Vec<Token>, Error>)
    ensures
        match (r, split_tokens_s(source@)) {
            (Ok(tokens), Ok(program)) => instrs(tokens@) == program,
            (Err(e), Err(se)) => e == se,
            _ => false,
        },
{
    let mut code = Code::from_str(source);
    let mut tokens: Vec<Token> = Vec::new();
    proof {
        assert(instrs(tokens@) =~= Seq::<Instr>::empty());
    }
    let mut last_char = match code.next() {
        None => {
            return Ok(tokens);
        },
        Some(c) => c,
    };
    let mut command = String::new();
    if !space(last_char) {
        push_char(&mut command, last_char);
        proof {
            assert(command@ =~= seq![last_char]);
        }
    } else {
        proof {
            assert(command@ =~= Seq::<char>::empty());
        }
    }
    loop
        invariant
            code@.wf(),
            split_loop(code@, command@, last_char, instrs(tokens@)) == split_tokens_s(source@),
        decreases code@.text.len() - code@.pos,
    {
        let ghost pre = code@;
        let ghost pre_cmd = command@;
        let ghost pre_acc = instrs(tokens@);
        match code.next() {
            None => {
                match parse_command(command.as_str(), &mut code) {
                    Err(e) => {
                        return Err(e);
                    },
                    Ok(None) => {
                        return Ok(tokens);
                    },
                    Ok(Some(t)) => {
                        proof {
                            assert(instrs(tokens@.push(t)) =~= pre_acc.push(t@));
                        }
                        tokens.push(t);
                        return Ok(tokens);
                    },
                }
            },
            Some(c) => {
                if space(c) {
                    proof {
                        lemma_parse_command_mono(pre_cmd, pre.step());
                    }
                    match parse_command(command.as_str(), &mut code) {
                        Err(e) => {
                            return Err(e);
                        },
                        Ok(None) => {},
                        Ok(Some(t)) => {
                            proof {
                                assert(instrs(tokens@.push(t)) =~= pre_acc.push(t@));
                            }
                            tokens.push(t);
                        },
                    }
                    command = String::new();
                    last_char = c;
                } else if last_char == '/' && c == '*' {
                    proof {
                        lemma_read_comment_mono(pre.step());
                    }
                    match read_comment(&mut code) {
                        Err(e) => {
                            return Err(e);
                        },
                        Ok(t) => {
                            proof {
                                assert(instrs(tokens@.push(t)) =~= pre_acc.push(t@));
                            }
                            tokens.push(t);
                        },
                    }
                    command = String::new();
                    last_char = c;
                } else {
                    push_char(&mut command, c);
                    last_char = c;
                }
            },
        }
    }
}

/// Whether an instruction is a jump that still carries a symbolic name.
pub open spec fn is_symbolic(t: Instr) -> bool {
    match t {
        Instr::Jmp(LabelRef::Base(_)) => true,
        Instr::Jl(LabelRef::Base(_)) => true,
        Instr::Jg(LabelRef::Base(_)) => true,
        Instr::Je(LabelRef::Base(_)) => true,
        _ => false,
    }
}

/// Whether no reachable jump target is symbolic any more: what the label
/// resolver establishes and the execution engine relies on.
pub open spec fn no_symbolic(prog: Seq<Instr>) -> bool {
    forall|i: int| 0 <= i < prog.len() ==> !is_symbolic(#[trigger] prog[i])
}

/// The one resolution failure: a jump names a label that no declaration
/// provides.
#[derive(Debug)]
pub enum ResolveError {
    UnresolvedLabel(String),
}

impl View for ResolveError {
    type V = Seq<char>;

    open spec fn view(&self) -> Seq<char> {
        match self {
            ResolveError::UnresolvedLabel(name) => name@,
        }
    }
}

/// The label declarations of a program in order: each name with the index of
/// its own marker instruction.
pub open spec fn label_entries(prog: Seq<Instr>) -> Seq<(Seq<char>, int)>
    decreases prog.len(),
{
    if prog.len() == 0 {
        Seq::empty()
    } else {
        let rest = label_entries(prog.drop_last());
        match prog.last() {
            Instr::Label(name) => rest.push((name, prog.len() - 1)),
            _ => rest,
        }
    }
}

/// The address a name maps to: that of its last declaration, since a later
/// declaration of the same name overwrites an earlier one.
pub open spec fn lookup_last(entries: Seq<(Seq<char>, int)>, name: Seq<char>) -> Option<int>
    decreases entries.len(),
{
    if entries.len() == 0 {
        None
    } else if entries.last().0 == name {
        Some(entries.last().1)
    } else {
        lookup_last(entries.drop_last(), name)
    }
}

/// What resolving one jump target against the declarations yields: a
/// symbolic name becomes the address of its last declaration or fails, an
/// address passes through.
pub open spec fn resolve_ref(entries: Seq<(Seq<char>, int)>, target: LabelRef) -> Option<LabelRef> {
    match target {
        LabelRef::Base(name) => match lookup_last(entries, name) {
            Some(address) => Some(LabelRef::Address(address)),
            None => None,
        },
        LabelRef::Address(address) => Some(LabelRef::Address(address)),
    }
}

/// What resolving one instruction of `prog` yields: only the four jumps are
/// rewritten, everything else passes through.
pub open spec fn resolve_instr(prog: Seq<Instr>, t: Instr) -> Option<Instr> {
    resolve_instr_e(label_entries(prog), t)
}

/// Whether one instruction of `prog` resolves.
pub open spec fn resolvable(prog: Seq<Instr>, t: Instr) -> bool {
    resolve_instr(prog, t) is Some
}

/// The index of the first instruction from `i` on that does not resolve, or
/// the program length if all of them do.
pub open spec fn first_unresolved(prog: Seq<Instr>, i: int) -> int
    decreases prog.len() - i,
    when 0 <= i <= prog.len()
{
    if i >= prog.len() {
        i
    } else if !resolvable(prog, prog[i]) {
        i
    } else {
        first_unresolved(prog, i + 1)
    }
}

/// The symbolic name an unresolvable jump carries.
pub open spec fn target_name(t: Instr) -> Seq<char> {
    match t {
        Instr::Jmp(LabelRef::Base(name)) => name,
        Instr::Jl(LabelRef::Base(name)) => name,
        Instr::Jg(LabelRef::Base(name)) => name,
        Instr::Je(LabelRef::Base(name)) => name,
        _ => Seq::empty(),
    }
}

/// What label resolution does to a whole program: every jump target becomes
/// an absolute address, or the first jump whose name has no declaration
/// fails the whole resolution.
pub open spec fn resolve_seq(prog: Seq<Instr>) -> Result<Seq<Instr>, Seq<char>> {
    let bad = first_unresolved(prog, 0);
    if bad == prog.len() {
        Ok(
            Seq::new(
                prog.len(),
                |i: int|
                    match resolve_instr(prog, prog[i]) {
                        Some(t) => t,
                        None => prog[i],
                    },
            ),
        )
    } else {
        Err(target_name(prog[bad]))
    }
}

/// When every instruction from `i` on resolves, the first unresolved index
/// is the program length.
pub proof fn lemma_first_unresolved_all(prog: Seq<Instr>, i: int)
    requires
        0 <= i <= prog.len(),
        forall|j: int| i <= j < prog.len() ==> resolvable(prog, #[trigger] prog[j]),
    ensures
        first_unresolved(prog, i) == prog.len(),
    decreases prog.len() - i,
{
    if i < prog.len() {
        lemma_first_unresolved_all(prog, i + 1);
    }
}

/// Conversely, all instructions before the first unresolved one resolve.
pub proof fn lemma_first_unresolved_prefix(prog: Seq<Instr>, i: int)
    requires
        0 <= i <= prog.len(),
        first_unresolved(prog, i) == prog.len(),
    ensures
        forall|j: int| i <= j < prog.len() ==> resolvable(prog, #[trigger] prog[j]),
    decreases prog.len() - i,
{
    if i < prog.len() {
        assert(resolvable(prog, prog[i]));
        lemma_first_unresolved_prefix(prog, i + 1);
    }
}

/// One label declaration in a token sequence: its name and the index of its
/// marker instruction.
struct LabelEntry {
    name: String,
    index: usize,
}

/// The mathematical view of collected label entries.
spec fn entries_view(entries: Seq<LabelEntry>) -> Seq<(Seq<char>, int)> {
    entries.map_values(|e: LabelEntry| (e.name@, e.index as int))
}

/// Collects the label declarations of the token sequence in order.
#[verifier::loop_isolation(false)]
fn read_labels(tokens: &Vec<Token>) -> (entries: Vec<LabelEntry>)
    ensures
        entries_view(entries@) == label_entries(instrs(tokens@)),
{
    let mut entries: Vec<LabelEntry> = Vec::new();
    let mut i: usize = 0;
    proof {
        assert(entries_view(entries@) =~= label_entries(instrs(tokens@).take(0)));
    }
    while i < tokens.len()
        invariant
            i <= tokens.len(),
            entries_view(entries@) == label_entries(instrs(tokens@).take(i as int)),
        decreases tokens.len() - i,
    {
        let ghost prefix = instrs(tokens@).take(i as int);
        let ghost extended = instrs(tokens@).take(i + 1);
        proof {
            assert(extended.drop_last() =~= prefix);
            assert(extended.last() == tokens@[i as int]@);
        }
        match &tokens[i] {
            Token::Label(name) => {
                let entry = LabelEntry { name: name.clone(), index: i };
                let ghost pre_entries = entries@;
                entries.push(entry);
                proof {
                    assert(entries_view(entries@) =~= entries_view(pre_entries).push(
                        (name@, i as int),
                    ));
                }
            },
            _ => {},
        }
        i += 1;
    }
    proof {
        assert(instrs(tokens@).take(tokens@.len() as int) =~= instrs(tokens@));
    }
    entries
}

/// Looks a name up among the collected labels; the last declaration wins.
#[verifier::loop_isolation(false)]
fn lookup_label(entries: &Vec<LabelEntry>, name: &str) -> (r: Option<usize>)
    ensures
        match r {
            Some(address) => lookup_last(entries_view(entries@), name@) == Some(address as int),
            None => lookup_last(entries_view(entries@), name@) is None,
        },
{
    let mut i = entries.len();
    proof {
        assert(entries_view(entries@).take(i as int) =~= entries_view(entries@));
    }
    while i > 0
        invariant
            i <= entries.len(),
            lookup_last(entries_view(entries@), name@) == lookup_last(
                entries_view(entries@).take(i as int),
                name@,
            ),
        decreases i,
    {
        let j = i - 1;
        let ghost taken = entries_view(entries@).take(j + 1);
        proof {
            assert(taken.last() == (entries@[j as int].name@, entries@[j as int].index as int));
            assert(taken.drop_last() =~= entries_view(entries@).take(j as int));
        }
        if str_eq(entries[j].name.as_str(), name) {
            return Some(entries[j].index);
        }
        i = j;
    }
    None
}

/// Resolves one jump target against the collected labels, or names the
/// label that is missing.
fn convert_label(label: &Label, entries: &Vec<LabelEntry>) -> (r: Result<Label, ResolveError>)
    ensures
        match (r, resolve_ref(entries_view(entries@), label@)) {
            (Ok(l), Some(sl)) => l@ == sl,
            (Err(e), None) => e@ == target_name(Instr::Jmp(label@)),
            _ => false,
        },
{
    match label {
        Label::Base(name) => match lookup_label(entries, name.as_str()) {
            Some(address) => Ok(Label::Address(address)),
            None => Err(ResolveError::UnresolvedLabel(name.clone())),
        },
        Label::Address(address) => Ok(Label::Address(*address)),
    }
}

/// Resolves the target of one instruction if it is a jump; yields the
/// rewritten jump, nothing for the other instructions, or the name of the
/// missing label.
fn resolve_jump(token: &Token, entries: &Vec<LabelEntry>) -> (r: Result<
    Option<Token>,
    ResolveError,
>)
    ensures
        ({
            let entries_s = entries_view(entries@);
            match (r, resolve_instr_e(entries_s, token@)) {
                (Ok(Some(t2)), Some(st)) => t2@ == st,
                (Ok(None), Some(st)) => st == token@,
                (Err(e), None) => e@ == target_name(token@),
                _ => false,
            }
        }),
{
    match token {
        Token::Jmp(l) => match convert_label(l, entries) {
            Ok(l2) => Ok(Some(Token::Jmp(l2))),
            Err(e) => Err(e),
        },
        Token::Jl(l) => match convert_label(l, entries) {
            Ok(l2) => Ok(Some(Token::Jl(l2))),
            Err(e) => Err(e),
        },
        Token::Jg(l) => match convert_label(l, entries) {
            Ok(l2) => Ok(Some(Token::Jg(l2))),
            Err(e) => Err(e),
        },
        Token::Je(l) => match convert_label(l, entries) {
            Ok(l2) => Ok(Some(Token::Je(l2))),
            Err(e) => Err(e),
        },
        _ => Ok(None),
    }
}

/// [`resolve_instr`] against an explicit entry table rather than the
/// program's own.
pub open spec fn resolve_instr_e(entries: Seq<(Seq<char>, int)>, t: Instr) -> Option<Instr> {
    match t {
        Instr::Jmp(l) => match resolve_ref(entries, l) {
            Some(l2) => Some(Instr::Jmp(l2)),
            None => None,
        },
        Instr::Jl(l) => match resolve_ref(entries, l) {
            Some(l2) => Some(Instr::Jl(l2)),
            None => None,
        },
        Instr::Jg(l) => match resolve_ref(entries, l) {
            Some(l2) => Some(Instr::Jg(l2)),
            None => None,
        },
        Instr::Je(l) => match resolve_ref(entries, l) {
            Some(l2) => Some(Instr::Je(l2)),
            None => None,
        },
        _ => Some(t),
    }
}

/// Rewrites every symbolic jump target into the absolute address of its
/// label, in place.  A jump whose name has no declaration fails the whole
/// resolution and leaves the sequence untouched.
#[verifier::loop_isolation(false)]
pub fn convert_labels(tokens: &mut Vec<Token>) -> (r: Result<(), ResolveError>)
    ensures
        match (r, resolve_seq(instrs(old(tokens)@))) {
            (Ok(()), Ok(resolved)) => instrs(final(tokens)@) == resolved,
            (Err(e), Err(name)) => e@ == name && final(tokens)@ == old(tokens)@,
            _ => false,
        },
{
    let ghost prog = instrs(tokens@);
    let entries = read_labels(tokens);
    let n = tokens.len();

    // First pass: find the first unresolvable jump, if any, before touching
    // anything.
    let mut i: usize = 0;
    while i < n
        invariant
            i <= n,
            first_unresolved(prog, 0) == first_unresolved(prog, i as int),
        decreases n - i,
    {
        match resolve_jump(&tokens[i], &entries) {
            Err(e) => {
                return Err(e);
            },
            Ok(_) => {},
        }
        i += 1;
    }
    proof {
        lemma_first_unresolved_prefix(prog, 0);
    }

    // Second pass: rewrite every jump; each lookup now succeeds.
    let mut i: usize = 0;
    while i < n
        invariant
            i <= n,
            tokens@.len() == n,
            forall|j: int| i <= j < n ==> tokens@[j] == old(tokens)@[j],
            forall|j: int|
                0 <= j < i ==> #[trigger] tokens@[j]@ == match resolve_instr(prog, prog[j]) {
                    Some(t) => t,
                    None => prog[j],
                },
        decreases n - i,
    {
        match resolve_jump(&tokens[i], &entries) {
            Err(_) => {
                proof {
                    assert(resolvable(prog, prog[i as int]));
                    assert(false);
                }
            },
            Ok(Some(t2)) => {
                tokens.set(i, t2);
            },
            Ok(None) => {},
        }
        i += 1;
    }
    proof {
        assert(instrs(tokens@) =~= resolve_seq(prog)->Ok_0);
    }
    Ok(())
}

/// A sequence with no symbolic target left resolves to itself: resolution
/// cannot fail on it and rewrites nothing.  Together with
/// [`lemma_resolution_removes_symbolic`] this makes resolution idempotent:
/// resolving a second time leaves the sequence unchanged.
pub proof fn lemma_resolve_identity(prog: Seq<Instr>)
    requires
        no_symbolic(prog),
    ensures
        resolve_seq(prog) == Ok::<Seq<Instr>, Seq<char>>(prog),
{
    assert forall|i: int| 0 <= i < prog.len() implies resolvable(prog, #[trigger] prog[i]) by {
        assert(!is_symbolic(prog[i]));
    }
    lemma_first_unresolved_all(prog, 0);
    let resolved = resolve_seq(prog)->Ok_0;
    assert forall|i: int| 0 <= i < prog.len() implies resolved[i] == prog[i] by {
        assert(!is_symbolic(prog[i]));
    }
    assert(resolved =~= prog);
}

/// After a successful resolution no symbolic target remains: every jump
/// carries an absolute address.
pub proof fn lemma_resolution_removes_symbolic(prog: Seq<Instr>)
    requires
        resolve_seq(prog) is Ok,
    ensures
        no_symbolic(resolve_seq(prog)->Ok_0),
{
    let resolved = resolve_seq(prog)->Ok_0;
    lemma_first_unresolved_prefix(prog, 0);
    assert forall|i: int| 0 <= i < resolved.len() implies !is_symbolic(#[trigger] resolved[i]) by {
        assert(resolvable(prog, prog[i]));
    }
}

/// Resolution is idempotent: a sequence that resolved once resolves again
/// to exactly itself.
pub proof fn lemma_resolve_idempotent(prog: Seq<Instr>)
    requires
        resolve_seq(prog) is Ok,
    ensures
        resolve_seq(resolve_seq(prog)->Ok_0) == Ok::<Seq<Instr>, Seq<char>>(
            resolve_seq(prog)->Ok_0,
        ),
{
    lemma_resolution_removes_symbolic(prog);
    lemma_resolve_identity(resolve_seq(prog)->Ok_0);
}

} // verus!
