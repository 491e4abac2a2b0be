//! The mathematical model of a scanning position: the text still to be read
//! together with the line and column reached so far.

use crate::error::Position;
use vstd::prelude::*;

verus! {

/// A place in a source text.
pub struct Cursor {
    /// The characters not consumed yet.
    pub rest: Seq<char>,
    /// One more than the number of newlines consumed so far.
    pub line: nat,
    /// The number of characters consumed on the current line.
    pub column: nat,
}

impl Cursor {
    /// The cursor at the start of a text: line 1, column 0.
    pub open spec fn start(source: Seq<char>) -> Cursor {
        Cursor { rest: source, line: 1, column: 0 }
    }

    /// The next character, if any is left.
    pub open spec fn peek(self) -> Option<char> {
        if self.rest.len() > 0 {
            Some(self.rest[0])
        } else {
            None
        }
    }

    /// Whether the next character exists and is `c`.
    pub open spec fn at(self, c: char) -> bool {
        self.peek() == Some(c)
    }

    /// The cursor after one step. A step consumes one character: a newline
    /// starts a new line at column 0, any other character moves one column
    /// on. At the end of the text nothing is consumed and the cursor stays.
    pub open spec fn advance(self) -> Cursor {
        if self.rest.len() == 0 {
            self
        } else if self.rest[0] == '\n' {
            Cursor { rest: self.rest.skip(1), line: self.line + 1, column: 0 }
        } else {
            Cursor { rest: self.rest.skip(1), line: self.line, column: self.column + 1 }
        }
    }

    /// The cursor after `n` steps.
    pub open spec fn advance_n(self, n: nat) -> Cursor
        decreases n,
    {
        if n == 0 {
            self
        } else {
            self.advance().advance_n((n - 1) as nat)
        }
    }

    /// Line and column as reported in diagnostics.
    pub open spec fn position(self) -> Position {
        Position { line: self.line as usize, column: self.column as usize }
    }
}

/// The length of the longest prefix of `s` whose characters all satisfy `p`.
pub open spec fn run_len(s: Seq<char>, p: spec_fn(char) -> bool) -> nat
    decreases s.len(),
{
    if s.len() > 0 && p(s[0]) {
        1 + run_len(s.skip(1), p)
    } else {
        0
    }
}

/// The predicate that holds of every character but `c`.
pub open spec fn other_than(c: char) -> spec_fn(char) -> bool {
    |x: char| x != c
}

/// A run is never longer than the text it is taken from.
pub proof fn lemma_run_len_bound(s: Seq<char>, p: spec_fn(char) -> bool)
    ensures
        run_len(s, p) <= s.len(),
    decreases s.len(),
{
    if s.len() > 0 && p(s[0]) {
        lemma_run_len_bound(s.skip(1), p);
    }
}

/// A run is the one prefix whose characters all satisfy `p` and that is
/// followed by the end of the text or by a character that does not.
pub proof fn lemma_run_len_unique(s: Seq<char>, p: spec_fn(char) -> bool, n: nat)
    requires
        n <= s.len(),
        forall|i: int| 0 <= i < n ==> p(#[trigger] s[i]),
        n < s.len() ==> !p(s[n as int]),
    ensures
        run_len(s, p) == n,
    decreases n,
{
    if n > 0 {
        let t = s.skip(1);
        assert forall|i: int| 0 <= i < n - 1 implies p(#[trigger] t[i]) by {
            assert(t[i] == s[i + 1]);
        }
        if n - 1 < t.len() {
            assert(t[n - 1] == s[n as int]);
        }
        lemma_run_len_unique(t, p, (n - 1) as nat);
    }
}

/// One step is `advance`.
pub proof fn lemma_advance_one(cur: Cursor)
    ensures
        cur.advance_n(1) == cur.advance(),
{
    reveal_with_fuel(Cursor::advance_n, 2);
}

/// Steps compose: `m` steps and then `n` are `m + n` steps.
pub proof fn lemma_advance_n_add(cur: Cursor, m: nat, n: nat)
    ensures
        cur.advance_n(m).advance_n(n) == cur.advance_n(m + n),
    decreases m,
{
    if m > 0 {
        lemma_advance_n_add(cur.advance(), (m - 1) as nat, n);
    }
}

/// A further step after `n` steps makes `n + 1` steps.
pub proof fn lemma_advance_n_then_one(cur: Cursor, n: nat)
    ensures
        cur.advance_n(n).advance() == cur.advance_n(n + 1),
{
    lemma_advance_n_add(cur, n, 1);
    lemma_advance_one(cur.advance_n(n));
}

/// While text is left, steps consume it one character each: the line never
/// decreases, and neither line nor column grows by more than was consumed.
pub proof fn lemma_advance_n_within(cur: Cursor, n: nat)
    requires
        n <= cur.rest.len(),
    ensures
        cur.advance_n(n).rest == cur.rest.skip(n as int),
        cur.line <= cur.advance_n(n).line <= cur.line + n,
        cur.advance_n(n).column <= cur.column + n,
    decreases n,
{
    if n > 0 {
        lemma_advance_n_within(cur.advance(), (n - 1) as nat);
        assert(cur.rest.skip(1).skip(n - 1) =~= cur.rest.skip(n as int));
    } else {
        assert(cur.rest.skip(0) =~= cur.rest);
    }
}

/// Steps over characters other than a newline stay on the line.
pub proof fn lemma_advance_n_same_line(cur: Cursor, n: nat)
    requires
        n <= cur.rest.len(),
        forall|i: int| 0 <= i < n ==> cur.rest[i] != '\n',
    ensures
        cur.advance_n(n).line == cur.line,
        cur.advance_n(n).column == cur.column + n,
    decreases n,
{
    if n > 0 {
        let next = cur.advance();
        assert forall|i: int| 0 <= i < n - 1 implies next.rest[i] != '\n' by {
            assert(next.rest[i] == cur.rest[i + 1]);
        }
        lemma_advance_n_same_line(next, (n - 1) as nat);
    }
}

} // verus!
