//! A parser for the text commands of the chat: a command word after `!`,
//! then mentions of users, whole numbers and free text.
//!
//! The parser reads its input from left to right and never goes back. What
//! it has not read yet is its value: every method says what it returns and
//! what is left of the input.

use crate::decimal::{parse_isize, parse_u64, parsed_isize, parsed_u64};
use crate::text::chars_of;
use vstd::prelude::*;

verus! {

/// Appends a character. `String::push` puts `c` at the end of `s` and
/// leaves the rest of `s` as it is.
pub assume_specification[ String::push ](s: &mut String, c: char)
    ensures
        final(s)@ == old(s)@.push(c),
;

/// What `char::is_numeric` says of a character.
pub uninterp spec fn is_numeric_char(c: char) -> bool;

/// Calls `char::is_numeric`, which looks the character up in the Unicode
/// tables of numeric characters; the contract only gives the answer its
/// name.
#[verifier::external_body]
fn is_numeric(c: char) -> (r: bool)
    ensures
        r == is_numeric_char(c),
{
    c.is_numeric()
}

/// A set of characters that the parser reads a run of.
#[derive(Debug, Clone, Copy)]
pub enum CharClass {
    /// The one character.
    Only(char),
    /// Every character but the one.
    AllBut(char),
    /// The minus sign and the numeric characters.
    SignOrNumeric,
}

impl CharClass {
    /// Whether `c` belongs to the class.
    pub open spec fn holds(self, c: char) -> bool {
        match self {
            CharClass::Only(x) => c == x,
            CharClass::AllBut(x) => c != x,
            CharClass::SignOrNumeric => c == '-' || is_numeric_char(c),
        }
    }

    /// Whether `c` belongs to the class.
    pub fn contains(&self, c: char) -> (r: bool)
        ensures
            r == self.holds(c),
    {
        match self {
            CharClass::Only(x) => c == *x,
            CharClass::AllBut(x) => c != *x,
            CharClass::SignOrNumeric => c == '-' || is_numeric(c),
        }
    }
}

/// How many characters at the start of `s` belong to `class`, up to the
/// first that does not.
pub open spec fn span(s: Seq<char>, class: CharClass) -> nat
    decreases s.len(),
{
    if s.len() > 0 && class.holds(s[0]) {
        1 + span(s.drop_first(), class)
    } else {
        0
    }
}

/// `s` without its first `n` characters, or empty where it has fewer.
pub open spec fn without(s: Seq<char>, n: nat) -> Seq<char> {
    if n <= s.len() {
        s.skip(n as int)
    } else {
        Seq::empty()
    }
}

/// The run of `class` at the start of `s`.
pub open spec fn run(s: Seq<char>, class: CharClass) -> Seq<char> {
    s.take(span(s, class) as int)
}

/// What is left of `s` after the run of `class` at its start and the one
/// character that ends the run.
pub open spec fn after_run(s: Seq<char>, class: CharClass) -> Seq<char> {
    without(s, span(s, class) + 1)
}

/// `s` without the spaces at its start.
pub open spec fn trimmed(s: Seq<char>) -> Seq<char> {
    without(s, span(s, CharClass::Only(' ')))
}

/// The span is the one length at which a run of the class ends.
pub proof fn lemma_span_is(s: Seq<char>, class: CharClass, n: int)
    requires
        0 <= n <= s.len(),
        forall|i: int| 0 <= i < n ==> class.holds(#[trigger] s[i]),
        n == s.len() || !class.holds(s[n]),
    ensures
        span(s, class) == n,
    decreases n,
{
    if n > 0 {
        let rest = s.drop_first();
        assert forall|i: int| 0 <= i < n - 1 implies class.holds(#[trigger] rest[i]) by {
            assert(rest[i] == s[i + 1]);
        }
        lemma_span_is(rest, class, n - 1);
    }
}

/// The span lies within the text, the run before it is of the class, and
/// the character at it is not.
pub proof fn lemma_span_bounds(s: Seq<char>, class: CharClass)
    ensures
        span(s, class) <= s.len(),
        forall|i: int| 0 <= i < span(s, class) ==> class.holds(#[trigger] s[i]),
        span(s, class) < s.len() ==> !class.holds(s[span(s, class) as int]),
    decreases s.len(),
{
    if s.len() > 0 && class.holds(s[0]) {
        let rest = s.drop_first();
        lemma_span_bounds(rest, class);
        assert forall|i: int| 0 <= i < span(s, class) implies class.holds(#[trigger] s[i]) by {
            if i > 0 {
                assert(rest[i - 1] == s[i]);
            }
        }
        if span(s, class) < s.len() {
            assert(rest[span(rest, class) as int] == s[span(s, class) as int]);
        }
    }
}

/// A parser over the characters of one message.
#[derive(Debug)]
pub struct Parser {
    chars: Vec<char>,
    idx: usize,
}

impl View for Parser {
    type V = Seq<char>;

    /// What has not been read yet.
    closed spec fn view(&self) -> Seq<char> {
        self.chars@.skip(self.idx as int)
    }
}

impl Parser {
    #[verifier::type_invariant]
    spec fn inv(&self) -> bool {
        self.idx <= self.chars.len()
    }

    /// A parser at the start of `message`.
    pub fn new(message: &str) -> (r: Parser)
        ensures
            r@ == message@,
    {
        let chars = chars_of(message);
        assert(chars@.skip(0) =~= chars@);
        Parser { chars, idx: 0 }
    }

    /// Reads the run of `class` at the start of the input and stops before
    /// the character that ends it.
    fn take_run(&mut self, class: CharClass) -> (r: String)
        ensures
            r@ == run(old(self)@, class),
            final(self)@ == without(old(self)@, span(old(self)@, class)),
            final(self).chars == old(self).chars,
            final(self).idx == old(self).idx + span(old(self)@, class),
    {
        proof {
            use_type_invariant(&*self);
        }
        let start: usize = self.idx;
        let ghost input = self@;
        let mut result = String::new();
        assert(input.take(0) =~= result@);
        while self.idx < self.chars.len() && class.contains(self.chars[self.idx])
            invariant
                self.chars == old(self).chars,
                start == old(self).idx,
                input == old(self)@,
                start <= self.idx <= self.chars.len(),
                result@ == input.take(self.idx - start),
                forall|i: int| 0 <= i < self.idx - start ==> class.holds(#[trigger] input[i]),
            decreases self.chars.len() - self.idx,
        {
            let ch = self.chars[self.idx];
            assert(input[self.idx - start] == ch);
            result.push(ch);
            self.idx += 1;
            assert(input.take(self.idx - start) =~= input.take(self.idx - start - 1).push(ch));
        }
        proof {
            if self.idx < self.chars.len() {
                assert(input[self.idx - start] == self.chars@[self.idx as int]);
            }
            lemma_span_is(input, class, self.idx - start);
            assert(self@ =~= input.skip(self.idx - start));
        }
        result
    }

    /// Reads the spaces at the start of the input and says how many there
    /// were.
    pub fn consume_leading_whitespace(&mut self) -> (count: usize)
        ensures
            count == span(old(self)@, CharClass::Only(' ')),
            final(self)@ == trimmed(old(self)@),
    {
        proof {
            use_type_invariant(&*self);
            lemma_span_bounds(self@, CharClass::Only(' '));
        }
        let start: usize = self.idx;
        let _ = self.take_run(CharClass::Only(' '));
        proof {
            use_type_invariant(&*self);
        }
        self.idx - start
    }

    /// The next character, if there is one. Nothing is read.
    pub fn peek(&self) -> (r: Option<char>)
        ensures
            r == if self@.len() > 0 {
                Some(self@[0])
            } else {
                None
            },
    {
        proof {
            use_type_invariant(self);
        }
        if self.idx < self.chars.len() {
            Some(self.chars[self.idx])
        } else {
            None
        }
    }

    /// Reads the next character, if there is one.
    pub fn consume(&mut self) -> (r: Option<char>)
        ensures
            r == if old(self)@.len() > 0 {
                Some(old(self)@[0])
            } else {
                None
            },
            final(self)@ == without(old(self)@, 1),
    {
        proof {
            use_type_invariant(&*self);
        }
        let result = self.peek();
        if self.idx < self.chars.len() {
            self.idx += 1;
            assert(self@ =~= old(self)@.skip(1));
        } else {
            assert(self@ =~= Seq::<char>::empty());
        }
        result
    }

    /// Reads the next character, whatever it is, and says whether it was
    /// the expected one.
    pub fn consume_char(&mut self, expected_char: char) -> (r: bool)
        ensures
            r == (old(self)@.len() > 0 && old(self)@[0] == expected_char),
            final(self)@ == without(old(self)@, 1),
    {
        match self.consume() {
            Some(ch) => ch == expected_char,
            None => false,
        }
    }

    /// Reads up to and with the first `end_char` and returns what stood
    /// before it. Where there is no `end_char`, the whole input is read and
    /// nothing is returned.
    pub fn consume_until(&mut self, end_char: char) -> (r: Option<String>)
        ensures
            final(self)@ == after_run(old(self)@, CharClass::AllBut(end_char)),
            match r {
                Some(text) => span(old(self)@, CharClass::AllBut(end_char)) < old(self)@.len()
                    && text@ == run(old(self)@, CharClass::AllBut(end_char)),
                None => span(old(self)@, CharClass::AllBut(end_char)) == old(self)@.len(),
            },
    {
        proof {
            lemma_span_bounds(self@, CharClass::AllBut(end_char));
        }
        let result = self.take_run(CharClass::AllBut(end_char));
        match self.consume() {
            Some(_) => {
                proof {
                    let n = span(old(self)@, CharClass::AllBut(end_char));
                    assert(old(self)@.skip(n as int).skip(1) =~= old(self)@.skip((n + 1) as int));
                }
                Some(result)
            },
            None => None,
        }
    }

    /// Reads a command: one character, which is meant to be the `!`, then
    /// the word up to the next space or the end. The space is read too.
    pub fn parse_command(&mut self) -> (r: Option<String>)
        ensures
            r matches Some(word) && word@ == run(without(old(self)@, 1), CharClass::AllBut(' ')),
            final(self)@ == after_run(without(old(self)@, 1), CharClass::AllBut(' ')),
    {
        self.consume_char('!');
        let ghost input = self@;
        proof {
            lemma_span_bounds(input, CharClass::AllBut(' '));
        }
        let result = self.take_run(CharClass::AllBut(' '));
        let _ = self.consume();
        proof {
            let n = span(input, CharClass::AllBut(' '));
            if n < input.len() {
                assert(input.skip(n as int).skip(1) =~= input.skip((n + 1) as int));
            }
        }
        Some(result)
    }

    /// Reads a mention of a user, such as `<@!928461308166926427>`: spaces,
    /// three characters that are meant to be `<@!`, then the digits up to
    /// the `>`. Returns the number, if the digits write a `u64`.
    pub fn parse_user_id(&mut self) -> (r: Option<u64>)
        ensures
            final(self)@ == after_run(without(trimmed(old(self)@), 3), CharClass::AllBut('>')),
            r == ({
                let input = without(trimmed(old(self)@), 3);
                if span(input, CharClass::AllBut('>')) < input.len() {
                    parsed_u64(run(input, CharClass::AllBut('>')))
                } else {
                    None
                }
            }),
    {
        self.consume_leading_whitespace();
        let ghost start = self@;
        self.consume_char('<');
        self.consume_char('@');
        self.consume_char('!');
        assert(self@ =~= without(start, 3));
        match self.consume_until('>') {
            Some(user_id_str) => parse_u64(user_id_str.as_str()),
            None => None,
        }
    }

    /// Reads the rest of the input and returns it without the spaces at its
    /// start.
    pub fn parse_rest(&mut self) -> (r: String)
        ensures
            r@ == trimmed(old(self)@),
            final(self)@.len() == 0,
    {
        self.consume_leading_whitespace();
        proof {
            use_type_invariant(&*self);
        }
        let ghost input = self@;
        let ghost chars = self.chars;
        let start: usize = self.idx;
        let mut result = String::new();
        assert(input.take(0) =~= result@);
        while self.idx < self.chars.len()
            invariant
                self.chars == chars,
                input == self.chars@.skip(start as int),
                start <= self.idx <= self.chars.len(),
                result@ == input.take(self.idx - start),
            decreases self.chars.len() - self.idx,
        {
            let ch = self.chars[self.idx];
            assert(input[self.idx - start] == ch);
            result.push(ch);
            self.idx += 1;
            assert(input.take(self.idx - start) =~= input.take(self.idx - start - 1).push(ch));
        }
        assert(input.take(input.len() as int) =~= input);
        result
    }

    /// Reads a whole number: spaces, then the run of minus signs and
    /// numeric characters, and the one character after the run. Returns the
    /// number, if the run writes an `isize`.
    pub fn parse_integer(&mut self) -> (r: Option<isize>)
        ensures
            final(self)@ == after_run(trimmed(old(self)@), CharClass::SignOrNumeric),
            r == parsed_isize(run(trimmed(old(self)@), CharClass::SignOrNumeric)),
    {
        self.consume_leading_whitespace();
        let ghost input = self@;
        proof {
            lemma_span_bounds(input, CharClass::SignOrNumeric);
        }
        let result = self.take_run(CharClass::SignOrNumeric);
        let _ = self.consume();
        proof {
            let n = span(input, CharClass::SignOrNumeric);
            if n < input.len() {
                assert(input.skip(n as int).skip(1) =~= input.skip((n + 1) as int));
            }
        }
        parse_isize(result.as_str())
    }

    /// Whether the whole input was read.
    pub fn end(&self) -> (r: Option<()>)
        ensures
            r is Some == (self@.len() == 0),
    {
        match self.peek() {
            Some(_ch) => None,
            None => Some(()),
        }
    }
}

} // verus!
