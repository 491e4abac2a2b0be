//! Checking that the brackets of a text are balanced.

use crate::stack::Stack;
use vstd::prelude::*;

verus! {

/// An opening bracket.
pub open spec fn opening(c: char) -> bool {
    c == '[' || c == '{' || c == '(' || c == '<'
}

/// A closing bracket.
pub open spec fn closing(c: char) -> bool {
    c == ']' || c == '}' || c == ')' || c == '>'
}

/// Whether `close` is the closing bracket that belongs to `open`.
pub open spec fn pair(open: char, close: char) -> bool {
    ||| open == '[' && close == ']'
    ||| open == '{' && close == '}'
    ||| open == '(' && close == ')'
    ||| open == '<' && close == '>'
}

/// Whether `text` closes the brackets `pending`, the innermost first, and
/// is balanced otherwise: every closing bracket in it belongs to the
/// nearest opening bracket not closed yet, and nothing stays open.
/// Characters that are no brackets do not count.
pub open spec fn closes(text: Seq<char>, pending: Seq<char>) -> bool
    decreases text.len(),
{
    if text.len() == 0 {
        pending.len() == 0
    } else if opening(text[0]) {
        closes(text.skip(1), seq![text[0]] + pending)
    } else if closing(text[0]) {
        pending.len() > 0 && pair(pending[0], text[0]) && closes(text.skip(1), pending.skip(1))
    } else {
        closes(text.skip(1), pending)
    }
}

/// Whether parentheses, square brackets, braces and chevrons are balanced
/// in `text`.
pub open spec fn balanced(text: Seq<char>) -> bool {
    closes(text, Seq::empty())
}

/// Checks whether parentheses, square brackets, braces, and chevrons are balanced in the input
/// string.
///
/// To be balanced, not only must the number of opening and closing brackets of each type be equal,
/// they must also be closing in inverse order of opening.
pub fn is_balanced(s: &str) -> (b: bool)
    ensures
        b == balanced(s@),
{
    broadcast use vstd::string::group_string_axioms;

    let mut stack: Stack<char> = Stack::new();
    assert(s@.skip(0) =~= s@);

    for chr in it: s.chars()
        invariant
            it.seq() == s@,
            balanced(s@) == closes(s@.skip(it.index@), stack@),
    {
        assert(s@.skip(it.index@).skip(1) =~= s@.skip(it.index@ + 1));
        match chr {
            '[' | '{' | '(' | '<' => stack.push(chr),
            ']' | '}' | ')' | '>' => match stack.pop() {
                Some(opening) => {
                    if (chr == ']' && opening != '[') || (chr == '}' && opening != '{') || (chr
                        == ')' && opening != '(') || (chr == '>' && opening != '<') {
                        // Incorrect opening bracket left on the stack
                        return false;
                    }
                },
                // No opening bracket left on the stack at all
                None => return false,
            },
            _ => {},
        }
    }

    // If we got this far then all closing brackets were preceded by an opening bracket in
    // the appropriate position.
    // If the stack is now empty then there were also no opening brackets which were never closed.
    stack.is_empty()
}

/// A text that closes `pending` can be followed by any other text: what
/// the two together close is decided by the second text alone.
pub proof fn lemma_closes_then(
    first: Seq<char>,
    pending: Seq<char>,
    second: Seq<char>,
    below: Seq<char>,
)
    requires
        closes(first, pending),
    ensures
        closes(first + second, pending + below) == closes(second, below),
    decreases first.len(),
{
    if first.len() == 0 {
        assert(first + second =~= second);
        assert(pending + below =~= below);
    } else {
        let c = first[0];
        assert((first + second).skip(1) =~= first.skip(1) + second);
        if opening(c) {
            lemma_closes_then(first.skip(1), seq![c] + pending, second, below);
            assert((seq![c] + pending) + below =~= seq![c] + (pending + below));
        } else if closing(c) {
            lemma_closes_then(first.skip(1), pending.skip(1), second, below);
            assert((pending + below).skip(1) =~= pending.skip(1) + below);
        } else {
            lemma_closes_then(first.skip(1), pending, second, below);
        }
    }
}

/// Two balanced texts, one after the other, are a balanced text.
pub proof fn lemma_balanced_concat(first: Seq<char>, second: Seq<char>)
    requires
        balanced(first),
        balanced(second),
    ensures
        balanced(first + second),
{
    lemma_closes_then(first, Seq::empty(), second, Seq::empty());
    assert(Seq::<char>::empty() + Seq::<char>::empty() =~= Seq::<char>::empty());
}

/// A balanced text between an opening bracket and the closing bracket that
/// belongs to it is a balanced text.
pub proof fn lemma_balanced_nested(open: char, inner: Seq<char>, close: char)
    requires
        pair(open, close),
        balanced(inner),
    ensures
        balanced(seq![open] + inner + seq![close]),
{
    let text = seq![open] + inner + seq![close];
    assert(text.skip(1) =~= inner + seq![close]);
    lemma_closes_then(inner, Seq::empty(), seq![close], seq![open]);
    assert(Seq::<char>::empty() + seq![open] =~= seq![open]);
    assert(seq![open] + Seq::<char>::empty() =~= seq![open]);
    assert(seq![close].skip(1) =~= Seq::<char>::empty());
    assert(seq![open].skip(1) =~= Seq::<char>::empty());
    assert(closes(seq![close].skip(1), seq![open].skip(1)));
    assert(closes(seq![close], seq![open]));
}

/// A closing bracket that does not belong to the innermost open bracket
/// makes the text unbalanced, whatever follows.
pub proof fn lemma_wrong_closing_bracket(open: char, close: char, rest: Seq<char>)
    requires
        opening(open),
        closing(close),
        !pair(open, close),
    ensures
        !balanced(seq![open, close] + rest),
{
    let text = seq![open, close] + rest;
    assert(text.skip(1)[0] == close);
    assert((seq![open] + Seq::<char>::empty())[0] == open);
    reveal_with_fuel(closes, 3);
}

} // verus!
