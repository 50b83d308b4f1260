//! A parser for delimited text with a user-chosen escape character.
use vstd::prelude::*;
use crate::fail::{Fail, PResult};
use crate::input::Input;
use crate::parser::Parser;
use crate::str_input::{StrInput, byte_len, char_width, len_utf8, split_first_char, lemma_byte_len_take_step, lemma_byte_len_take_mono};
use crate::message::{with_char, with_two_chars};
use crate::string_ops::push_char;

verus! {

/// Matches `open`, then text up to `close`; `escape` followed by a character `c`
/// stands for what `handler(c)` returns (`None` rejects the sequence).
pub struct Escaped<F> {
    pub open: char,
    pub close: char,
    pub escape: char,
    pub handler: F,
}

/// A parser for text between `open` and `close` in which `escape` introduces an
/// escape sequence decoded by `handler`.
pub fn escaped<'a, F: Fn(char) -> Option<char>>(open: char, close: char, escape: char, handler: F) -> (p: Escaped<F>)
    ensures
        <Escaped<F> as Parser<StrInput<'a>>>::inv(&p) <==> (forall|c: char| call_requires(handler, (c,))),
        p.open == open,
        p.close == close,
        p.escape == escape,
        p.handler == handler,
{
    Escaped { open, close, escape, handler }
}

/// `handler` may be called on every character.
pub open spec fn handles_every_char<F: Fn(char) -> Option<char>>(handler: F) -> bool {
    forall|c: char| call_requires(handler, (c,))
}

/// How the text after the opening delimiter ends.
pub enum EscapedBody {
    /// The closing delimiter was found: `value` is the decoded text and `len` the
    /// number of characters read, the delimiter included.
    Closed { value: Seq<char>, len: int },
    /// The text ended before the closing delimiter.
    Unterminated,
    /// The text ended right after the escape character.
    EofAfterEscape,
    /// The handler rejected the character at index `at`, which follows the escape
    /// character.
    Invalid { at: int },
}

/// `out` is a possible ending of the text `b` read from character `i` on, with
/// `acc` decoded so far, when `f` is called on each escaped character.
#[verifier::opaque]
pub open spec fn escaped_run<F: Fn(char) -> Option<char>>(
    f: F,
    close: char,
    esc: char,
    b: Seq<char>,
    i: int,
    acc: Seq<char>,
    out: EscapedBody,
) -> bool
    decreases b.len() - i,
{
    if i >= b.len() {
        out == EscapedBody::Unterminated
    } else if b[i] == close {
        out == (EscapedBody::Closed { value: acc, len: i + 1 })
    } else if b[i] == esc {
        if i + 1 >= b.len() {
            out == EscapedBody::EofAfterEscape
        } else {
            ||| (call_ensures(f, (b[i + 1],), None::<char>) && out == (EscapedBody::Invalid { at: i + 1 }))
            ||| exists|x: char| #[trigger] call_ensures(f, (b[i + 1],), Some(x))
                && escaped_run(f, close, esc, b, i + 2, acc.push(x), out)
        }
    } else {
        escaped_run(f, close, esc, b, i + 1, acc.push(b[i]), out)
    }
}

/// One step of `escaped_run`, by the character at `i`.
pub proof fn lemma_escaped_run_step<F: Fn(char) -> Option<char>>(
    f: F,
    close: char,
    esc: char,
    b: Seq<char>,
    i: int,
    acc: Seq<char>,
    out: EscapedBody,
)
    ensures
        i >= b.len() ==> (escaped_run(f, close, esc, b, i, acc, out) == (out == EscapedBody::Unterminated)),
        i < b.len() && b[i] == close ==> (escaped_run(f, close, esc, b, i, acc, out) == (out == (EscapedBody::Closed {
            value: acc,
            len: i + 1,
        }))),
        i < b.len() && b[i] != close && b[i] == esc && i + 1 >= b.len() ==> (escaped_run(f, close, esc, b, i, acc, out)
            == (out == EscapedBody::EofAfterEscape)),
        i + 1 < b.len() && b[i] != close && b[i] == esc ==> (escaped_run(f, close, esc, b, i, acc, out) == (
            (call_ensures(f, (b[i + 1],), None::<char>) && out == (EscapedBody::Invalid { at: i + 1 }))
            || exists|x: char| #[trigger] call_ensures(f, (b[i + 1],), Some(x))
                && escaped_run(f, close, esc, b, i + 2, acc.push(x), out))),
        i < b.len() && b[i] != close && b[i] != esc ==> (escaped_run(f, close, esc, b, i, acc, out)
            == escaped_run(f, close, esc, b, i + 1, acc.push(b[i]), out)),
{
    reveal_with_fuel(escaped_run, 1);
}

/// A closed ending of the run from character `i` reads at least one character,
/// and no more than there are.
pub proof fn lemma_escaped_closed_len<F: Fn(char) -> Option<char>>(
    f: F,
    close: char,
    esc: char,
    b: Seq<char>,
    i: int,
    acc: Seq<char>,
    out: EscapedBody,
)
    requires
        0 <= i,
        escaped_run(f, close, esc, b, i, acc, out),
        out is Closed,
    ensures
        i + 1 <= out->len <= b.len(),
    decreases b.len() - i,
{
    lemma_escaped_run_step(f, close, esc, b, i, acc, out);
    if i >= b.len() {
    } else if b[i] == close {
    } else if b[i] == esc {
        if i + 1 < b.len() {
            let x = choose|x: char| #[trigger] call_ensures(f, (b[i + 1],), Some(x))
                && escaped_run(f, close, esc, b, i + 2, acc.push(x), out);
            lemma_escaped_closed_len(f, close, esc, b, i + 2, acc.push(x), out);
        }
    } else {
        lemma_escaped_closed_len(f, close, esc, b, i + 1, acc.push(b[i]), out);
    }
}

/// Every ending of the run from character `i` with `acc` decoded is an ending of
/// the whole run.
spec fn run_leads_back<F: Fn(char) -> Option<char>>(f: F, close: char, esc: char, b: Seq<char>, i: int, acc: Seq<char>) -> bool {
    forall|out: EscapedBody| #![trigger escaped_run(f, close, esc, b, i, acc, out)]
        escaped_run(f, close, esc, b, i, acc, out) ==> escaped_run(f, close, esc, b, 0, Seq::empty(), out)
}

proof fn lemma_leads_back<F: Fn(char) -> Option<char>>(f: F, close: char, esc: char, b: Seq<char>, i: int, acc: Seq<char>, out: EscapedBody)
    requires
        run_leads_back(f, close, esc, b, i, acc),
        escaped_run(f, close, esc, b, i, acc, out),
    ensures
        escaped_run(f, close, esc, b, 0, Seq::empty(), out),
{
}

/// The message of each failure after the opening delimiter.
pub open spec fn escaped_message(b: Seq<char>, close: char, esc: char, out: EscapedBody) -> Seq<char> {
    match out {
        EscapedBody::Closed { .. } => Seq::empty(),
        EscapedBody::Unterminated => "escaped: unterminated, expected '"@ + seq![close] + "'"@,
        EscapedBody::EofAfterEscape => "escaped: unexpected EOF after '"@ + seq![esc] + "'"@,
        EscapedBody::Invalid { at } => "escaped: invalid escape sequence '"@ + seq![esc] + ""@ + seq![b[at]] + "' "@,
    }
}

impl<'a, F: Fn(char) -> Option<char>> Parser<StrInput<'a>> for Escaped<F> {
    type Output = String;
    type Error = String;

    open spec fn inv(&self) -> bool {
        handles_every_char(self.handler)
    }

    /// Without the opening delimiter: backtracks, consuming nothing. Otherwise the
    /// text is read until the closing delimiter (checked before the escape
    /// character): then it is consumed and its decoded text returned; any other
    /// ending is a `Cut` with its message, consuming nothing.
    open spec fn spec_parse(&self, before: StrInput<'a>, after: StrInput<'a>, r: PResult<String, String>) -> bool {
        let s = before.rest();
        if s.len() == 0 || s[0] != self.open {
            &&& after == before
            &&& r matches Err(Fail::Backtrack(m)) && m@ == "escaped: expected '"@ + seq![self.open] + "'"@
        } else {
            exists|out: EscapedBody| #[trigger] escaped_run(self.handler, self.close, self.escape, s.skip(1), 0, Seq::empty(), out)
                && match out {
                EscapedBody::Closed { value, len } => {
                    &&& r matches Ok(v) && v@ == value
                    &&& after == before.at_index(before.index() + 1 + len)
                },
                _ => {
                    &&& after == before
                    &&& r matches Err(Fail::Cut(m)) && m@ == escaped_message(s.skip(1), self.close, self.escape, out)
                },
            }
        }
    }

    fn parse_next(&mut self, input: &mut StrInput<'a>) -> (r: PResult<String, String>) {
        proof {
            input.lemma_wf();
            input.lemma_advanced_refl();
        }
        let remaining = input.as_str();
        let ghost s = remaining@;
        if remaining.is_empty() {
            return Err(Fail::Backtrack(with_char("escaped: expected '", self.open, "'")));
        }
        let (first, body) = split_first_char(remaining);
        if first != self.open {
            return Err(Fail::Backtrack(with_char("escaped: expected '", self.open, "'")));
        }
        let ghost b = body@;
        let ghost f = self.handler;
        let ghost close = self.close;
        let ghost esc = self.escape;
        proof {
            assert(b =~= s.skip(1));
            assert(b.skip(0) =~= b);
            assert(s.take(1int + 0int) =~= s.take(1));
        }
        let mut result = String::new();
        let mut consumed: usize = len_utf8(first);
        let mut cur = body;
        let ghost mut i: int = 0;
        loop
            invariant
                forall|c: char| call_requires(f, (c,)),
                f == self.handler,
                close == self.close,
                esc == self.escape,
                *input == *old(input),
                old(input).advanced(*input),
                s == input.rest(),
                input.wf(),
                b == s.skip(1),
                s.len() >= 1,
                s[0] == self.open,
                0 <= i <= b.len(),
                cur@ == b.skip(i),
                consumed == byte_len(s.take(1 + i)),
                byte_len(s) <= usize::MAX,
                run_leads_back(f, close, esc, b, i, result@),
            decreases b.len() - i,
        {
            assert(consumed <= byte_len(s)) by {
                lemma_byte_len_take_mono(s, 1 + i, s.len() as int);
                assert(s.take(s.len() as int) =~= s);
            }
            let ghost acc = result@;
            if cur.is_empty() {
                proof {
                    let out = EscapedBody::Unterminated;
                    lemma_escaped_run_step(f, close, esc, b, i, acc, out);
                    lemma_leads_back(f, close, esc, b, i, acc, out);
                }
                return Err(Fail::Cut(with_char("escaped: unterminated, expected '", self.close, "'")));
            }
            let (c, tail) = split_first_char(cur);
            assert(c == b[i] && tail@ == b.skip(i + 1) && consumed + char_width(c) == byte_len(s.take(2 + i))
                && byte_len(s.take(2 + i)) <= byte_len(s)) by {
                assert(s[1 + i] == c);
                lemma_byte_len_take_step(s, 1 + i);
                lemma_byte_len_take_mono(s, 2 + i, s.len() as int);
                assert(s.take(s.len() as int) =~= s);
                assert(tail@ =~= b.skip(i + 1));
            }
            if c == self.close {
                let ghost out = EscapedBody::Closed { value: acc, len: i + 1 };
                proof {
                    lemma_escaped_run_step(f, close, esc, b, i, acc, out);
                    lemma_leads_back(f, close, esc, b, i, acc, out);
                    input.lemma_wf();
                    input.lemma_at_index_advanced(input.index() + 1 + (i + 1));
                }
                let n = consumed + len_utf8(c);
                input.advance(n, Ghost(i + 2));
                return Ok(result);
            } else if c == self.escape {
                if tail.is_empty() {
                    proof {
                        let out = EscapedBody::EofAfterEscape;
                        lemma_escaped_run_step(f, close, esc, b, i, acc, out);
                        lemma_leads_back(f, close, esc, b, i, acc, out);
                    }
                    return Err(Fail::Cut(with_char("escaped: unexpected EOF after '", self.escape, "'")));
                }
                let (d, rest) = split_first_char(tail);
                assert(d == b[i + 1] && rest@ == b.skip(i + 2)
                    && consumed + char_width(c) + char_width(d) == byte_len(s.take(3 + i))
                    && byte_len(s.take(3 + i)) <= byte_len(s)) by {
                    assert(s[2 + i] == d);
                    lemma_byte_len_take_step(s, 2 + i);
                    lemma_byte_len_take_mono(s, 3 + i, s.len() as int);
                    assert(s.take(s.len() as int) =~= s);
                    assert(rest@ =~= b.skip(i + 2));
                }
                let replaced = (self.handler)(d);
                match replaced {
                    Some(x) => {
                        proof {
                            assert forall|out: EscapedBody| #[trigger] escaped_run(f, close, esc, b, i + 2, acc.push(x), out)
                                implies escaped_run(f, close, esc, b, 0, Seq::empty(), out) by {
                                lemma_escaped_run_step(f, close, esc, b, i, acc, out);
                                lemma_leads_back(f, close, esc, b, i, acc, out);
                            }
                        }
                        push_char(&mut result, x);
                        consumed = consumed + len_utf8(c) + len_utf8(d);
                        cur = rest;
                        proof {
                            i = i + 2;
                        }
                    },
                    None => {
                        proof {
                            let out = EscapedBody::Invalid { at: i + 1 };
                            lemma_escaped_run_step(f, close, esc, b, i, acc, out);
                            lemma_leads_back(f, close, esc, b, i, acc, out);
                        }
                        return Err(Fail::Cut(with_two_chars("escaped: invalid escape sequence '", self.escape, "", d, "' ")));
                    },
                }
            } else {
                proof {
                    assert forall|out: EscapedBody| #[trigger] escaped_run(f, close, esc, b, i + 1, acc.push(c), out)
                        implies escaped_run(f, close, esc, b, 0, Seq::empty(), out) by {
                        lemma_escaped_run_step(f, close, esc, b, i, acc, out);
                        lemma_leads_back(f, close, esc, b, i, acc, out);
                    }
                }
                push_char(&mut result, c);
                consumed = consumed + len_utf8(c);
                cur = tail;
                proof {
                    i = i + 1;
                }
            }
        }
    }
}

} // verus!
