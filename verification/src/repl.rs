use vstd::prelude::*;

use crate::text::{char_whitespace, chars_of, string_of};

verus! {

/// The state of the read-eval-print loop between lines: how deep in braces
/// the input is, whether the last line had a `;`, whether a string is open,
/// whether an empty line was ever seen, and the text gathered so far.
pub struct ReplV {
    pub depth: int,
    pub saw_semicolon: bool,
    pub in_string: bool,
    pub saw_empty_line: bool,
    pub buff: Seq<char>,
}

/// One character of a line: `"` opens or closes a string; outside strings,
/// `{` and `}` change the depth and `;` is noted.
pub open spec fn scan_char(r: (int, bool, bool), c: char) -> (int, bool, bool) {
    let (depth, semi, in_string) = r;
    if c == '"' {
        (depth, semi, !in_string)
    } else if c == '{' && !in_string {
        (depth + 1, semi, in_string)
    } else if c == '}' && !in_string {
        (depth - 1, semi, in_string)
    } else if c == ';' && !in_string {
        (depth, true, in_string)
    } else {
        (depth, semi, in_string)
    }
}

/// The characters of `cs`, in order.
pub open spec fn scan(r: (int, bool, bool), cs: Seq<char>) -> (int, bool, bool)
    decreases cs.len(),
{
    if cs.len() == 0 {
        r
    } else {
        scan_char(scan(r, cs.drop_last()), cs.last())
    }
}

/// The first position at or after `i` that holds no whitespace.
pub open spec fn lead(cs: Seq<char>, i: nat) -> nat
    decreases cs.len() - i,
{
    if i < cs.len() && char_whitespace(cs[i as int]) {
        lead(cs, i + 1)
    } else {
        i
    }
}

/// The end of `cs[..j]` without its trailing whitespace.
pub open spec fn trail(cs: Seq<char>, j: nat) -> nat
    decreases j,
{
    if j > 0 && j <= cs.len() && char_whitespace(cs[j - 1]) {
        trail(cs, (j - 1) as nat)
    } else {
        j
    }
}

/// `cs` without leading and trailing whitespace.
pub open spec fn trimmed(cs: Seq<char>) -> Seq<char> {
    if lead(cs, 0) >= cs.len() {
        seq![]
    } else {
        cs.subrange(lead(cs, 0) as int, trail(cs, cs.len()) as int)
    }
}

/// What one line of input does: the state after it, and the text to run, if
/// the line completes a statement (depth back to zero after a `;`). A second
/// empty line (counting every empty line since the start) resets the depth,
/// the `;` and the open string, and keeps the text gathered.
pub open spec fn repl_step(r: ReplV, line: Seq<char>) -> (ReplV, Option<Seq<char>>) {
    let (depth, semi, in_string) = scan((r.depth, false, r.in_string), line);
    let t = trimmed(line);
    if t.len() == 0 && r.saw_empty_line {
        (ReplV { depth: 0, saw_semicolon: true, in_string: false, saw_empty_line: true, buff: r.buff }, None)
    } else {
        let empty = r.saw_empty_line || t.len() == 0;
        let buff = r.buff + t;
        if depth == 0 && semi {
            (ReplV { depth, saw_semicolon: semi, in_string: false, saw_empty_line: empty, buff: seq![] }, Some(buff))
        } else {
            (ReplV { depth, saw_semicolon: semi, in_string, saw_empty_line: empty, buff }, None)
        }
    }
}

/// The line-gathering part of the read-eval-print loop.
pub struct Repl {
    depth: i32,
    saw_semicolon: bool,
    in_string: bool,
    saw_empty_line: bool,
    buff: String,
}

impl Repl {
    pub closed spec fn view(&self) -> ReplV {
        ReplV {
            depth: self.depth as int,
            saw_semicolon: self.saw_semicolon,
            in_string: self.in_string,
            saw_empty_line: self.saw_empty_line,
            buff: self.buff@,
        }
    }

    /// A loop that waits for a statement, with nothing gathered.
    pub fn new() -> (r: Repl)
        ensures
            r.view() == (ReplV {
                depth: 0,
                saw_semicolon: true,
                in_string: false,
                saw_empty_line: false,
                buff: seq![],
            }),
    {
        Repl { depth: 0, saw_semicolon: true, in_string: false, saw_empty_line: false, buff: String::new() }
    }

    /// How deep in braces the input is.
    pub fn depth(&self) -> (d: i32)
        ensures
            d == self.view().depth,
    {
        self.depth
    }

    /// The prompt for the next line: `>>> ` where a new statement may start,
    /// `... ` inside one.
    pub fn prompt(&self) -> (p: &'static str)
        ensures
            p@ == if self.view().depth == 0 && self.view().saw_semicolon { ">>> "@ } else { "... "@ },
    {
        if self.depth == 0 && self.saw_semicolon {
            ">>> "
        } else {
            "... "
        }
    }

    /// Takes one line of input; gives the text to run where the line
    /// completes a statement. The depth must stay within `i32`, however many
    /// braces the line holds.
    pub fn feed(&mut self, line: &str) -> (run: Option<String>)
        requires
            i32::MIN + line@.len() <= old(self).view().depth <= i32::MAX - line@.len(),
        ensures
            (final(self).view(), match run {
                Some(s) => Some(s@),
                None => None,
            }) == repl_step(old(self).view(), line@),
    {
        let cs = chars_of(&String::from_str(line));
        let ghost r0 = (self.depth as int, false, self.in_string);
        let mut depth: i32 = self.depth;
        let mut semi = false;
        let mut in_string = self.in_string;
        let mut i: usize = 0;
        while i < cs.len()
            invariant
                cs@ == line@,
                i <= cs@.len(),
                i32::MIN + line@.len() <= self.depth <= i32::MAX - line@.len(),
                self.depth - i <= depth <= self.depth + i,
                scan(r0, cs@.take(i as int)) == (depth as int, semi, in_string),
            decreases cs@.len() - i,
        {
            let c = cs[i];
            assert(cs@.take(i + 1).drop_last() =~= cs@.take(i as int));
            if c == '"' {
                in_string = !in_string;
            } else if c == '{' && !in_string {
                depth = depth + 1;
            } else if c == '}' && !in_string {
                depth = depth - 1;
            } else if c == ';' && !in_string {
                semi = true;
            }
            i = i + 1;
        }
        assert(cs@.take(cs@.len() as int) =~= cs@);
        let t = trim(&cs);
        if t.unicode_len() == 0 && self.saw_empty_line {
            self.depth = 0;
            self.saw_semicolon = true;
            self.in_string = false;
            return None;
        }
        if t.unicode_len() == 0 {
            self.saw_empty_line = true;
        }
        self.buff.append(t.as_str());
        self.depth = depth;
        self.saw_semicolon = semi;
        if depth == 0 && semi {
            let src = self.buff.clone();
            self.buff = String::new();
            self.in_string = false;
            Some(src)
        } else {
            self.in_string = in_string;
            None
        }
    }
}

/// `cs` without leading and trailing whitespace.
fn trim(cs: &Vec<char>) -> (t: String)
    ensures
        t@ == trimmed(cs@),
{
    let mut i: usize = 0;
    while i < cs.len() && cs[i].is_whitespace()
        invariant
            i <= cs@.len(),
            lead(cs@, 0) == lead(cs@, i as nat),
        decreases cs@.len() - i,
    {
        i = i + 1;
    }
    if i >= cs.len() {
        return String::new();
    }
    let mut j: usize = cs.len();
    while j > i && cs[j - 1].is_whitespace()
        invariant
            i < cs@.len(),
            !char_whitespace(cs@[i as int]),
            i < j <= cs@.len(),
            trail(cs@, cs@.len()) == trail(cs@, j as nat),
        decreases j,
    {
        j = j - 1;
    }
    assert(trail(cs@, j as nat) == j);
    string_of(cs, i, j)
}

} // verus!
