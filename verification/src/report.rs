//! The text of a compile error: the line of the source that a diagnostic
//! points at, with the line before it, a caret under the token and the
//! message.
use vstd::prelude::*;
use crate::diag::{CompileError, CompileErrorV};
use crate::text::{dec_nat, push_char, push_str, push_string, push_usize, string_of};
use crate::types::{Ctx, Token, TokenKind};

verus! {

/// Where the line that starts at `p` ends: at the next newline or at the
/// end of `s`.
pub open spec fn line_end(s: Seq<char>, p: nat) -> nat
    decreases s.len() - p,
{
    if p >= s.len() || s[p as int] == '\n' {
        p
    } else {
        line_end(s, p + 1)
    }
}

pub proof fn lemma_line_end(s: Seq<char>, p: nat)
    requires
        p <= s.len(),
    ensures
        p <= line_end(s, p) <= s.len(),
        forall|i: int| p <= i < line_end(s, p) ==> s[i] != '\n',
        line_end(s, p) < s.len() ==> s[line_end(s, p) as int] == '\n',
    decreases s.len() - p,
{
    if p < s.len() && s[p as int] != '\n' {
        lemma_line_end(s, p + 1);
    }
}

/// A line without its carriage return at the end, as `str::lines` gives it.
pub open spec fn strip_cr(l: Seq<char>) -> Seq<char> {
    if l.len() > 0 && l.last() == '\r' {
        l.drop_last()
    } else {
        l
    }
}

/// Finds the line of `s` that holds the position `start`, going through the
/// lines from the one that starts at `p`: line number `no` starts at `idx`
/// (counting each line's length without its carriage return, plus one) and
/// follows the line `before`. The first line whose end reaches `start` is
/// taken; past the last line, an empty one. Gives the line's number, where
/// it starts, the line before it and the line.
pub open spec fn locate(s: Seq<char>, p: nat, start: int, idx: int, no: int, before: Seq<char>) -> (
    int,
    int,
    Seq<char>,
    Seq<char>,
)
    decreases s.len() + 1 - p,
{
    if p >= s.len() {
        (no, idx, before, seq![])
    } else {
        proof {
            lemma_line_end(s, p);
        }
        let k = line_end(s, p);
        let line = strip_cr(s.subrange(p as int, k as int));
        if idx + line.len() >= start {
            (no, idx, before, line)
        } else {
            locate(s, k + 1, start, idx + line.len() + 1, no + 1, line)
        }
    }
}

/// `n` copies of `c`.
pub open spec fn repeat(c: char, n: nat) -> Seq<char> {
    Seq::new(n, |i: int| c)
}

/// The report of a diagnostic at the token that starts at `start` and is
/// `len` long in the source `s` of the file `file`: the file and line
/// number, the line before and the line of the token, and under it a caret
/// for each of the token's characters followed by the message.
pub open spec fn tok_report(file: Seq<char>, s: Seq<char>, start: usize, len: usize, msg: Seq<char>) -> Seq<
    Seq<char>,
> {
    let (no, idx, before, line) = locate(s, 0, start as int, 0, 1, seq![]);
    seq![
        file + ":"@ + dec_nat(no as nat) + ": error"@,
        seq![],
        "|"@,
        "|"@ + before,
        "|"@ + line,
        "|"@ + repeat(' ', (start - idx) as nat) + repeat('^', len as nat) + " "@ + msg,
        "|"@,
        seq![],
    ]
}

/// The report of an error at position `pos` of the source `s`: the source,
/// a caret under the position, and the message.
pub open spec fn input_report(s: Seq<char>, pos: usize, msg: Seq<char>) -> Seq<Seq<char>> {
    seq![s, repeat(' ', pos as nat) + "^"@, "jff_error: "@ + msg]
}

/// The report of any compile error; an abort is reported by its message.
pub open spec fn error_report(file: Seq<char>, s: Seq<char>, e: CompileErrorV) -> Seq<Seq<char>> {
    match e {
        CompileErrorV::AtToken { start, len, msg } => tok_report(file, s, start, len, msg),
        CompileErrorV::AtInput { pos, msg } => input_report(s, pos, msg),
        CompileErrorV::Abort { msg } => seq!["jff_error: "@ + msg],
    }
}

/// Appends `n` copies of `c` to `s`.
fn push_repeat(s: &mut String, c: char, n: usize)
    ensures
        final(s)@ == old(s)@ + repeat(c, n as nat),
{
    let mut i: usize = 0;
    while i < n
        invariant
            i <= n,
            s@ == old(s)@ + repeat(c, i as nat),
        decreases n - i,
    {
        push_char(s, c);
        proof {
            assert(old(s)@ + repeat(c, (i + 1) as nat) =~= (old(s)@ + repeat(c, i as nat)).push(c));
        }
        i += 1;
    }
}

/// The characters `s[from..to]` as a string.
fn string_from(s: &Vec<char>, from: usize, to: usize) -> (r: String)
    requires
        from <= to <= s@.len(),
    ensures
        r@ == s@.subrange(from as int, to as int),
{
    let mut r = String::new();
    let mut i = from;
    proof {
        assert(r@ =~= s@.subrange(from as int, from as int));
    }
    while i < to
        invariant
            from <= i <= to,
            to <= s@.len(),
            r@ == s@.subrange(from as int, i as int),
        decreases to - i,
    {
        push_char(&mut r, s[i]);
        proof {
            assert(s@.subrange(from as int, i + 1) =~= s@.subrange(from as int, i as int).push(s@[i as int]));
        }
        i += 1;
    }
    r
}

impl Ctx {
    /// The report of the diagnostic `msg` at the token `tok`, one line of
    /// text per element.
    pub fn error_tok(&self, tok: &Token, msg: &str) -> (r: Vec<String>)
        requires
            self.input@.len() < usize::MAX,
        ensures
            r@.map_values(|l: String| l@) == tok_report(self.cur_file@, self.input@, tok.start, tok.len, msg@),
    {
        let s = &self.input;
        let ghost sv = s@;
        let start = tok.start;
        let mut p: usize = 0;
        let mut idx: usize = 0;
        let mut no: usize = 1;
        let mut before = String::new();
        let mut line = String::new();
        proof {
            assert(before@ =~= Seq::<char>::empty());
            assert(line@ =~= Seq::<char>::empty());
        }
        while p < s.len()
            invariant_except_break
                line@ == Seq::<char>::empty(),
            invariant
                sv == s@,
                s@.len() < usize::MAX,
                start == tok.start,
                p <= s@.len(),
                idx <= start,
                idx <= p || p == s@.len(),
                no <= p + 1,
                locate(sv, 0, start as int, 0, 1, seq![]) == locate(sv, p as nat, start as int, idx as int, no as int, before@),
            ensures
                locate(sv, 0, start as int, 0, 1, seq![]) == (no as int, idx as int, before@, line@),
                idx <= start,
            decreases s.len() - p,
        {
            let mut k = p;
            while k < s.len() && s[k] != '\n'
                invariant
                    sv == s@,
                    p <= k <= s@.len(),
                    line_end(sv, p as nat) == line_end(sv, k as nat),
                decreases s.len() - k,
            {
                k += 1;
            }
            proof {
                lemma_line_end(sv, p as nat);
            }
            let mut e = k;
            if e > p && s[e - 1] == '\r' {
                e -= 1;
            }
            let cur = string_from(s, p, e);
            proof {
                assert(cur@ == strip_cr(sv.subrange(p as int, k as int)));
            }
            let n = e - p;
            if idx as u128 + n as u128 >= start as u128 {
                line = cur;
                break;
            }
            proof {
                assert(k == line_end(sv, p as nat));
                assert(locate(sv, p as nat, start as int, idx as int, no as int, before@) == locate(
                    sv,
                    (k + 1) as nat,
                    start as int,
                    idx + n + 1,
                    no + 1,
                    cur@,
                ));
            }
            idx = idx + n + 1;
            no = no + 1;
            before = cur;
            if k < s.len() {
                p = k + 1;
            } else {
                p = k;
            }
        }
        let mut out: Vec<String> = Vec::new();
        let mut head = String::new();
        push_string(&mut head, &self.cur_file);
        push_str(&mut head, ":");
        push_usize(&mut head, no);
        push_str(&mut head, ": error");
        out.push(head);
        out.push(String::new());
        out.push(string_of("|"));
        let mut b = string_of("|");
        push_string(&mut b, &before);
        out.push(b);
        let mut l = string_of("|");
        push_string(&mut l, &line);
        out.push(l);
        let mut m = string_of("|");
        push_repeat(&mut m, ' ', start - idx);
        push_repeat(&mut m, '^', tok.len);
        push_str(&mut m, " ");
        push_str(&mut m, msg);
        out.push(m);
        out.push(string_of("|"));
        out.push(String::new());
        proof {
            let t = tok_report(self.cur_file@, self.input@, tok.start, tok.len, msg@);
            assert(out@.map_values(|l: String| l@) =~= t);
        }
        out
    }

    /// The report of the error `msg` at the current position of the source.
    pub fn error_input_at(&self, msg: &str) -> (r: Vec<String>)
        ensures
            r@.map_values(|l: String| l@) == input_report(self.input@, self.pos, msg@),
    {
        self.input_report_at(self.pos, msg)
    }

    /// The report of the error `msg` at position `pos` of the source.
    fn input_report_at(&self, pos: usize, msg: &str) -> (r: Vec<String>)
        ensures
            r@.map_values(|l: String| l@) == input_report(self.input@, pos, msg@),
    {
        let mut out: Vec<String> = Vec::new();
        out.push(string_from(&self.input, 0, self.input.len()));
        let mut c = String::new();
        push_repeat(&mut c, ' ', pos);
        push_str(&mut c, "^");
        out.push(c);
        let mut m = string_of("jff_error: ");
        push_str(&mut m, msg);
        out.push(m);
        proof {
            assert(self.input@.subrange(0, self.input@.len() as int) =~= self.input@);
            assert(out@.map_values(|l: String| l@) =~= input_report(self.input@, pos, msg@));
        }
        out
    }

    /// The report of the compile error `e`.
    pub fn report(&self, e: &CompileError) -> (r: Vec<String>)
        requires
            self.input@.len() < usize::MAX,
        ensures
            r@.map_values(|l: String| l@) == error_report(self.cur_file@, self.input@, e@),
    {
        match e {
            CompileError::AtToken { start, len, msg } => {
                let t = Token { kind: TokenKind::Num { val: 0 }, start: *start, len: *len };
                self.error_tok(&t, msg.as_str())
            },
            CompileError::AtInput { pos, msg } => self.input_report_at(*pos, msg.as_str()),
            CompileError::Abort { msg } => {
                let mut m = string_of("jff_error: ");
                push_string(&mut m, msg);
                let mut out: Vec<String> = Vec::new();
                out.push(m);
                proof {
                    assert(out@.map_values(|l: String| l@) =~= seq!["jff_error: "@ + msg@]);
                }
                out
            },
        }
    }
}

} // verus!
