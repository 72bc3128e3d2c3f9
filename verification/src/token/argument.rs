//! The operand grammar: whitespace skipping, value tokens, and
//! comma-delimited argument lists.

use crate::compile::code::{Code, CodeModel};
use crate::compile::error::{err_at, Error, ErrorKind};
use crate::value::Value;
use crate::{is_space, push_char, space};
use vstd::prelude::*;

verus! {

/// What skipping whitespace does to the scanner: the first non-whitespace
/// character (or `None` at exhaustion) and the state after it, or an
/// end-of-line error if a newline is met on the way.
pub open spec fn skip_ws(m: CodeModel) -> (Result<Option<char>, Error>, CodeModel)
    decreases m.text.len() - m.pos,
    when m.wf()
{
    let c = m.peek();
    let m2 = m.step();
    match c {
        None => (Ok(None), m2),
        Some(ch) => if !is_space(ch) {
            (Ok(Some(ch)), m2)
        } else if ch == '\n' {
            (Err(err_at(ErrorKind::EndOfLine, m2)), m2)
        } else {
            skip_ws(m2)
        },
    }
}

/// Skipping whitespace leaves the text alone, moves only forward, and keeps
/// the scanner well-formed.
pub proof fn lemma_skip_ws_mono(m: CodeModel)
    requires
        m.wf(),
    ensures
        skip_ws(m).1.wf(),
        skip_ws(m).1.text == m.text,
        skip_ws(m).1.pos >= m.pos,
    decreases m.text.len() - m.pos,
{
    let c = m.peek();
    if c is Some && is_space(c->0) && c != Some('\n') {
        lemma_skip_ws_mono(m.step());
    }
}

/// What reading one value token does: the token's characters (continuing
/// `acc`), the character that ended it (a comma, whitespace, or `last` at
/// exhaustion), and the scanner state after it.
pub open spec fn read_until(m: CodeModel, acc: Seq<char>, last: char) -> (Seq<char>, char, CodeModel)
    decreases m.text.len() - m.pos,
    when m.wf()
{
    let c = m.peek();
    let m2 = m.step();
    match c {
        None => (acc, last, m2),
        Some(ch) => if ch == ',' || is_space(ch) {
            (acc, ch, m2)
        } else {
            read_until(m2, acc.push(ch), ch)
        },
    }
}

/// Reading a value token leaves the text alone, moves only forward, and
/// keeps the scanner well-formed.
pub proof fn lemma_read_until_mono(m: CodeModel, acc: Seq<char>, last: char)
    requires
        m.wf(),
    ensures
        read_until(m, acc, last).2.wf(),
        read_until(m, acc, last).2.text == m.text,
        read_until(m, acc, last).2.pos >= m.pos,
    decreases m.text.len() - m.pos,
{
    let c = m.peek();
    if c is Some && !(c->0 == ',' || is_space(c->0)) {
        lemma_read_until_mono(m.step(), acc.push(c->0), c->0);
    }
}

/// What reading the first argument of an operation does: skip whitespace,
/// read one value token, and parse it.
pub open spec fn read_first_argument_s(m: CodeModel) -> (Result<(Value, char), Error>, CodeModel) {
    let (skipped, m2) = skip_ws(m);
    match skipped {
        Err(e) => (Err(e), m2),
        Ok(None) => (Err(err_at(ErrorKind::EndOfFile, m2)), m2),
        Ok(Some(c)) => {
            let (token, last, m3) = read_until(m2, seq![c], c);
            match Value::of_token(token, m3) {
                Ok(v) => (Ok((v, last)), m3),
                Err(e) => (Err(e), m3),
            }
        },
    }
}

/// Reading the first argument leaves the text alone and moves only forward.
pub proof fn lemma_read_first_argument_mono(m: CodeModel)
    requires
        m.wf(),
    ensures
        read_first_argument_s(m).1.wf(),
        read_first_argument_s(m).1.text == m.text,
        read_first_argument_s(m).1.pos >= m.pos,
{
    lemma_skip_ws_mono(m);
    let (skipped, m2) = skip_ws(m);
    match skipped {
        Ok(Some(c)) => {
            lemma_read_until_mono(m2, seq![c], c);
        },
        _ => {},
    }
}

/// What looking for the comma before a later argument does.  `found` is
/// whether the previous token already ended on the comma.
pub open spec fn find_separator(m: CodeModel, found: bool) -> (Result<(), Error>, CodeModel)
    decreases m.text.len() - m.pos,
    when m.wf()
{
    if found {
        (Ok(()), m)
    } else {
        let c = m.peek();
        let m2 = m.step();
        match c {
            None => (Err(err_at(ErrorKind::EndOfFile, m2)), m2),
            Some(ch) => if ch == ',' {
                (Ok(()), m2)
            } else if ch == '\n' {
                (Err(err_at(ErrorKind::EndOfLine, m2)), m2)
            } else if is_space(ch) {
                find_separator(m2, false)
            } else {
                (Err(err_at(ErrorKind::InvalidArgument, m2)), m2)
            },
        }
    }
}

/// Looking for the separator leaves the text alone and moves only forward.
pub proof fn lemma_find_separator_mono(m: CodeModel, found: bool)
    requires
        m.wf(),
    ensures
        find_separator(m, found).1.wf(),
        find_separator(m, found).1.text == m.text,
        find_separator(m, found).1.pos >= m.pos,
    decreases m.text.len() - m.pos,
{
    if !found {
        let c = m.peek();
        if c is Some && c->0 != ',' && c->0 != '\n' && is_space(c->0) {
            lemma_find_separator_mono(m.step(), false);
        }
    }
}

/// What reading a later argument does: find the comma, skip whitespace, read
/// one value token, and parse it.
pub open spec fn read_later_argument_s(m: CodeModel, c: char) -> (Result<(Value, char), Error>, CodeModel) {
    let (sep, m2) = find_separator(m, c == ',');
    match sep {
        Err(e) => (Err(e), m2),
        Ok(()) => read_first_argument_s(m2),
    }
}

/// Reading a later argument leaves the text alone and moves only forward.
pub proof fn lemma_read_later_argument_mono(m: CodeModel, c: char)
    requires
        m.wf(),
    ensures
        read_later_argument_s(m, c).1.wf(),
        read_later_argument_s(m, c).1.text == m.text,
        read_later_argument_s(m, c).1.pos >= m.pos,
{
    lemma_find_separator_mono(m, c == ',');
    let (sep, m2) = find_separator(m, c == ',');
    if sep is Ok {
        lemma_read_first_argument_mono(m2);
    }
}

/// What reading the remaining `count` arguments after the destination does.
pub open spec fn read_args_loop(m: CodeModel, last: char, count: nat, acc: Seq<Value>) -> (Result<
    (Seq<Value>, char),
    Error,
>, CodeModel)
    decreases count,
{
    if count == 0 {
        (Ok((acc, last)), m)
    } else {
        let (r, m2) = read_later_argument_s(m, last);
        match r {
            Err(e) => (Err(e), m2),
            Ok((v, ch)) => read_args_loop(m2, ch, (count - 1) as nat, acc.push(v)),
        }
    }
}

/// Reading an argument list leaves the text alone and moves only forward.
pub proof fn lemma_read_args_loop_mono(m: CodeModel, last: char, count: nat, acc: Seq<Value>)
    requires
        m.wf(),
    ensures
        read_args_loop(m, last, count, acc).1.wf(),
        read_args_loop(m, last, count, acc).1.text == m.text,
        read_args_loop(m, last, count, acc).1.pos >= m.pos,
    decreases count,
{
    if count > 0 {
        lemma_read_later_argument_mono(m, last);
        let (r, m2) = read_later_argument_s(m, last);
        match r {
            Ok((v, ch)) => {
                lemma_read_args_loop_mono(m2, ch, (count - 1) as nat, acc.push(v));
            },
            _ => {},
        }
    }
}

/// What reading a plain comma-separated list of `count` values does.
pub open spec fn read_values(m: CodeModel, count: nat) -> (Result<Seq<Value>, Error>, CodeModel)
    recommends
        count >= 1,
{
    let (first, m2) = read_first_argument_s(m);
    match first {
        Err(e) => (Err(e), m2),
        Ok((v, ch)) => {
            let (rest, m3) = read_args_loop(m2, ch, (count - 1) as nat, seq![v]);
            match rest {
                Err(e) => (Err(e), m3),
                Ok((values, _)) => (Ok(values), m3),
            }
        },
    }
}

/// Reading a value list leaves the text alone and moves only forward.
pub proof fn lemma_read_values_mono(m: CodeModel, count: nat)
    requires
        m.wf(),
    ensures
        read_values(m, count).1.wf(),
        read_values(m, count).1.text == m.text,
        read_values(m, count).1.pos >= m.pos,
{
    lemma_read_first_argument_mono(m);
    let (first, m2) = read_first_argument_s(m);
    match first {
        Ok((v, ch)) => {
            lemma_read_args_loop_mono(m2, ch, (count - 1) as nat, seq![v]);
        },
        _ => {},
    }
}

/// What reading one register destination and `count` further arguments does.
/// A first argument that is no register is an invalid destination.
pub open spec fn read_reg_args(m: CodeModel, count: nat) -> (Result<(u8, Seq<Value>), Error>, CodeModel) {
    let (first, m2) = read_first_argument_s(m);
    match first {
        Err(e) => (Err(e), m2),
        Ok((v, ch)) => match v {
            Value::Register(register) => {
                let (rest, m3) = read_args_loop(m2, ch, count, seq![]);
                match rest {
                    Err(e) => (Err(e), m3),
                    Ok((values, _)) => (Ok((register, values)), m3),
                }
            },
            Value::Number(_) => (Err(err_at(ErrorKind::InvalidDestination, m2)), m2),
        },
    }
}

/// Reading a register and arguments leaves the text alone and moves only
/// forward.
pub proof fn lemma_read_reg_args_mono(m: CodeModel, count: nat)
    requires
        m.wf(),
    ensures
        read_reg_args(m, count).1.wf(),
        read_reg_args(m, count).1.text == m.text,
        read_reg_args(m, count).1.pos >= m.pos,
{
    lemma_read_first_argument_mono(m);
    let (first, m2) = read_first_argument_s(m);
    match first {
        Ok((v, ch)) => {
            if v matches Value::Register(_) {
                lemma_read_args_loop_mono(m2, ch, count, seq![]);
            }
        },
        _ => {},
    }
}

/// Skips whitespace up to the next token, but errors on newlines; returns
/// the first non-whitespace character, or `None` at exhaustion.
pub fn skip_whitespace(code: &mut Code) -> (r: Result<Option<char>, Error>)
    requires
        old(code)@.wf(),
    ensures
        final(code)@.wf(),
        (r, final(code)@) == skip_ws(old(code)@),
{
    loop
        invariant
            code@.wf(),
            skip_ws(code@) == skip_ws(old(code)@),
        decreases code@.text.len() - code@.pos,
    {
        let c = code.next();
        match c {
            None => {
                return Ok(None);
            },
            Some(ch) => {
                if space(ch) {
                    if ch == '\n' {
                        return Err(Error::end_of_line(code.line(), code.column()));
                    }
                } else {
                    return Ok(Some(ch));
                }
            },
        }
    }
}

/// Reads one value token starting with the already-pulled character `first`,
/// until a comma or whitespace ends it; returns the token's characters and
/// the character that ended it.
fn read_until_whitespace(code: &mut Code, first: char) -> (r: (String, char))
    requires
        old(code)@.wf(),
    ensures
        final(code)@.wf(),
        (r.0@, r.1, final(code)@) == read_until(old(code)@, seq![first], first),
{
    let mut argument = String::new();
    push_char(&mut argument, first);
    let mut last_char = first;
    proof {
        assert(argument@ =~= seq![first]);
    }
    loop
        invariant
            code@.wf(),
            read_until(code@, argument@, last_char) == read_until(old(code)@, seq![first], first),
        decreases code@.text.len() - code@.pos,
    {
        let c = code.next();
        match c {
            None => {
                return (argument, last_char);
            },
            Some(ch) => {
                if ch == ',' || space(ch) {
                    return (argument, ch);
                }
                push_char(&mut argument, ch);
                last_char = ch;
            },
        }
    }
}

/// Reads the first argument of most operations.
fn read_first_argument(code: &mut Code) -> (r: Result<(Value, char), Error>)
    requires
        old(code)@.wf(),
    ensures
        final(code)@.wf(),
        (r, final(code)@) == read_first_argument_s(old(code)@),
{
    let first = match skip_whitespace(code) {
        Err(e) => {
            return Err(e);
        },
        Ok(None) => {
            return Err(Error::end_of_file(code.line(), code.column()));
        },
        Ok(Some(c)) => c,
    };
    let (token, last_char) = read_until_whitespace(code, first);
    match Value::from_str(token.as_str(), code) {
        Ok(v) => Ok((v, last_char)),
        Err(e) => Err(e),
    }
}

/// Reads a later argument: the comma separating it from the previous one,
/// then the value token.
fn read_later_argument(code: &mut Code, c: char) -> (r: Result<(Value, char), Error>)
    requires
        old(code)@.wf(),
    ensures
        final(code)@.wf(),
        (r, final(code)@) == read_later_argument_s(old(code)@, c),
{
    let mut separator_found: bool = c == ',';
    while !separator_found
        invariant
            code@.wf(),
            find_separator(code@, separator_found) == find_separator(old(code)@, c == ','),
        decreases code@.text.len() - code@.pos,
    {
        match code.next() {
            None => {
                return Err(Error::end_of_file(code.line(), code.column()));
            },
            Some(ch) => {
                if ch == ',' {
                    separator_found = true;
                } else if ch == '\n' {
                    return Err(Error::end_of_line(code.line(), code.column()));
                } else if space(ch) {
                } else {
                    return Err(Error::new(ErrorKind::InvalidArgument, code.line(), code.column()));
                }
            },
        }
    }
    read_first_argument(code)
}

/// Reads one register destination and `count` further value arguments,
/// comma-separated.
#[verifier::loop_isolation(false)]
pub fn read_register_arguments(code: &mut Code, count: usize) -> (r: Result<(u8, Vec<Value>), Error>)
    requires
        old(code)@.wf(),
    ensures
        final(code)@.wf(),
        match (r, read_reg_args(old(code)@, count as nat)) {
            (Ok((register, values)), (Ok((sregister, svalues)), sm)) => register == sregister
                && values@ == svalues && values@.len() == count && final(code)@ == sm,
            (Err(e), (Err(se), sm)) => e == se && final(code)@ == sm,
            _ => false,
        },
{
    let (register, mut ch) = match read_first_argument(code) {
        Err(e) => {
            return Err(e);
        },
        Ok((Value::Register(register), ch)) => (register, ch),
        Ok((Value::Number(_), _)) => {
            return Err(Error::new(ErrorKind::InvalidDestination, code.line(), code.column()));
        },
    };
    let mut arguments: Vec<Value> = Vec::new();
    let mut remaining = count;
    proof {
        assert(arguments@ =~= Seq::<Value>::empty());
    }
    while remaining > 0
        invariant
            code@.wf(),
            remaining <= count,
            arguments@.len() + remaining == count,
            read_args_loop(code@, ch, remaining as nat, arguments@) == read_args_loop(
                read_first_argument_s(old(code)@).1,
                read_first_argument_s(old(code)@).0->Ok_0.1,
                count as nat,
                Seq::<Value>::empty(),
            ),
        decreases remaining,
    {
        let ghost pre = code@;
        let ghost pre_args = arguments@;
        match read_later_argument(code, ch) {
            Err(e) => {
                proof {
                    assert(read_args_loop(pre, ch, remaining as nat, pre_args) == (
                        Err::<(Seq<Value>, char), Error>(e),
                        code@,
                    ));
                }
                return Err(e);
            },
            Ok((value, c)) => {
                arguments.push(value);
                proof {
                    assert(read_args_loop(pre, ch, remaining as nat, pre_args) == read_args_loop(
                        code@,
                        c,
                        (remaining - 1) as nat,
                        pre_args.push(value),
                    ));
                }
                ch = c;
                remaining -= 1;
            },
        }
    }
    Ok((register, arguments))
}

/// Reads a plain comma-separated list of `count` values.
#[verifier::loop_isolation(false)]
pub fn read_arguments(code: &mut Code, count: usize) -> (r: Result<Vec<Value>, Error>)
    requires
        old(code)@.wf(),
        count >= 1,
    ensures
        final(code)@.wf(),
        match (r, read_values(old(code)@, count as nat)) {
            (Ok(values), (Ok(svalues), sm)) => values@ == svalues && values@.len() == count
                && final(code)@ == sm,
            (Err(e), (Err(se), sm)) => e == se && final(code)@ == sm,
            _ => false,
        },
{
    let (first, mut ch) = match read_first_argument(code) {
        Err(e) => {
            return Err(e);
        },
        Ok((value, ch)) => (value, ch),
    };
    let mut arguments: Vec<Value> = Vec::new();
    arguments.push(first);
    proof {
        assert(arguments@ =~= seq![first]);
    }
    let mut remaining = count - 1;
    while remaining > 0
        invariant
            code@.wf(),
            remaining < count,
            arguments@.len() + remaining == count,
            read_args_loop(code@, ch, remaining as nat, arguments@) == read_args_loop(
                read_first_argument_s(old(code)@).1,
                read_first_argument_s(old(code)@).0->Ok_0.1,
                (count - 1) as nat,
                seq![read_first_argument_s(old(code)@).0->Ok_0.0],
            ),
        decreases remaining,
    {
        let ghost pre = code@;
        let ghost pre_args = arguments@;
        match read_later_argument(code, ch) {
            Err(e) => {
                proof {
                    assert(read_args_loop(pre, ch, remaining as nat, pre_args) == (
                        Err::<(Seq<Value>, char), Error>(e),
                        code@,
                    ));
                }
                return Err(e);
            },
            Ok((value, c)) => {
                arguments.push(value);
                proof {
                    assert(read_args_loop(pre, ch, remaining as nat, pre_args) == read_args_loop(
                        code@,
                        c,
                        (remaining - 1) as nat,
                        pre_args.push(value),
                    ));
                }
                ch = c;
                remaining -= 1;
            },
        }
    }
    Ok(arguments)
}

} // verus!
