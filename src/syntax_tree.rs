//! The instruction decoder: contract text to an ordered list of instructions.
//!
//! The text is split on newlines and each line on spaces; empty pieces are
//! no tokens. A line without tokens is dropped. A line whose first token
//! starts with `;` is a comment and decodes to a `NEXT` no-op, so that it
//! still counts for jump targets. Elsewhere a token starting with `;` ends
//! the line. A `0x` prefix is removed from every token.
use crate::text::{chars_of, push_char};
use vstd::prelude::*;

verus! {

/// The pieces of `s` between occurrences of `sep`, as `str::split` gives them.
pub open spec fn split_on(s: Seq<char>, sep: char) -> Seq<Seq<char>>
    decreases s.len(),
{
    if s.len() == 0 {
        seq![Seq::empty()]
    } else {
        let rest = split_on(s.drop_last(), sep);
        if s.last() == sep {
            rest.push(Seq::empty())
        } else {
            rest.update(rest.len() - 1, rest.last().push(s.last()))
        }
    }
}

/// The tokens of a line: its non-empty space-separated pieces.
pub open spec fn tokens(line: Seq<char>) -> Seq<Seq<char>> {
    split_on(line, ' ').filter(|t: Seq<char>| t.len() > 0)
}

/// Whether a token starts a comment.
pub open spec fn is_comment(t: Seq<char>) -> bool {
    t.len() > 0 && t[0] == ';'
}

/// The position of the first comment token, or the number of tokens.
pub open spec fn first_comment(toks: Seq<Seq<char>>) -> nat
    decreases toks.len(),
{
    if toks.len() == 0 || is_comment(toks[0]) {
        0
    } else {
        1 + first_comment(toks.drop_first())
    }
}

/// A token without its `0x` prefix.
pub open spec fn strip_hex_prefix(t: Seq<char>) -> Seq<char> {
    if t.len() >= 2 && t[0] == '0' && t[1] == 'x' {
        t.subrange(2, t.len() as int)
    } else {
        t
    }
}

/// Tokens without their `0x` prefixes.
pub open spec fn strip_all(toks: Seq<Seq<char>>) -> Seq<Seq<char>> {
    toks.map_values(|t: Seq<char>| strip_hex_prefix(t))
}

/// The command of the no-op that a comment line decodes to.
pub open spec fn next_command() -> Seq<char> {
    seq!['N', 'E', 'X', 'T']
}

/// An instruction as a command and its operands.
pub type LineModel = (Seq<char>, Seq<Seq<char>>);

/// What one source line decodes to: nothing, a no-op, or one instruction.
pub open spec fn decode_line(line: Seq<char>) -> Seq<LineModel> {
    let toks = tokens(line);
    if toks.len() == 0 {
        Seq::empty()
    } else if is_comment(toks[0]) {
        seq![(next_command(), Seq::empty())]
    } else {
        let kept = strip_all(toks.subrange(0, first_comment(toks) as int));
        seq![(kept[0], kept.drop_first())]
    }
}

/// The instructions of a list of source lines.
pub open spec fn decode_lines(lines: Seq<Seq<char>>) -> Seq<LineModel>
    decreases lines.len(),
{
    if lines.len() == 0 {
        Seq::empty()
    } else {
        decode_lines(lines.drop_last()) + decode_line(lines.last())
    }
}

/// The instructions of a contract text.
pub open spec fn decode(text: Seq<char>) -> Seq<LineModel> {
    decode_lines(split_on(text, '\n'))
}

/// The views of a list of strings.
pub open spec fn string_views(v: Seq<String>) -> Seq<Seq<char>> {
    v.map_values(|s: String| s@)
}

/// One instruction: a mnemonic and its operands.
#[derive(Debug, Clone)]
pub struct Line {
    pub command: String,
    pub args: Vec<String>,
}

impl View for Line {
    type V = LineModel;

    open spec fn view(&self) -> LineModel {
        (self.command@, string_views(self.args@))
    }
}

/// A line with no command and no operands.
pub fn build_line() -> (r: Line)
    ensures
        r@ == (Seq::<char>::empty(), Seq::<Seq<char>>::empty()),
{
    let r = Line { command: String::new(), args: Vec::new() };
    assert(string_views(r.args@) =~= Seq::<Seq<char>>::empty());
    r
}

/// The decoded instructions of a contract.
#[derive(Debug)]
pub struct SyntaxTree {
    pub lines: Vec<Line>,
}

/// The models of a list of instructions.
pub open spec fn line_views(v: Seq<Line>) -> Seq<LineModel> {
    v.map_values(|l: Line| l@)
}

impl View for SyntaxTree {
    type V = Seq<LineModel>;

    open spec fn view(&self) -> Seq<LineModel> {
        line_views(self.lines@)
    }
}

/// An empty instruction list.
pub fn build_syntax_tree() -> (r: SyntaxTree)
    ensures
        r@ == Seq::<LineModel>::empty(),
{
    let r = SyntaxTree { lines: Vec::new() };
    assert(r@ =~= Seq::<LineModel>::empty());
    r
}

/// Splits `s` on `sep`, as `str::split` does.
pub fn split_string(s: &str, sep: char) -> (r: Vec<String>)
    ensures
        string_views(r@) == split_on(s@, sep),
{
    let chars = chars_of(s);
    let n = chars.len();
    let mut pieces: Vec<String> = Vec::new();
    let mut cur = String::new();
    let mut i: usize = 0;
    proof {
        assert(s@.subrange(0, 0) =~= Seq::<char>::empty());
        assert(string_views(pieces@).push(cur@) =~= split_on(s@.subrange(0, 0), sep));
    }
    while i < n
        invariant
            chars@ == s@,
            n == s@.len(),
            i <= n,
            string_views(pieces@).push(cur@) == split_on(s@.subrange(0, i as int), sep),
        decreases n - i,
    {
        let c = chars[i];
        let ghost prev = split_on(s@.subrange(0, i as int), sep);
        let ghost next = s@.subrange(0, i as int + 1);
        assert(next.drop_last() =~= s@.subrange(0, i as int));
        assert(next.last() == c);
        if c == sep {
            pieces.push(cur);
            cur = String::new();
            assert(string_views(pieces@).push(cur@) =~= prev.push(Seq::empty()));
        } else {
            push_char(&mut cur, c);
            assert(string_views(pieces@).push(cur@) =~= prev.update(
                prev.len() - 1,
                prev.last().push(c),
            ));
        }
        i = i + 1;
    }
    pieces.push(cur);
    assert(s@.subrange(0, n as int) =~= s@);
    assert(string_views(pieces@) =~= split_on(s@, sep));
    pieces
}

/// Whether a token starts a comment.
fn token_is_comment(t: &String) -> (r: bool)
    ensures
        r == is_comment(t@),
{
    let n = t.as_str().unicode_len();
    n > 0 && t.as_str().get_char(0) == ';'
}

/// A token without its `0x` prefix.
fn token_without_prefix(t: &String) -> (r: String)
    ensures
        r@ == strip_hex_prefix(t@),
{
    let s = t.as_str();
    let n = s.unicode_len();
    if n >= 2 && s.get_char(0) == '0' && s.get_char(1) == 'x' {
        s.substring_char(2, n).to_owned()
    } else {
        t.clone()
    }
}

proof fn lemma_first_comment(toks: Seq<Seq<char>>, j: int)
    requires
        0 <= j <= toks.len(),
        forall|i: int| 0 <= i < j ==> !is_comment(#[trigger] toks[i]),
        j == toks.len() || is_comment(toks[j]),
    ensures
        first_comment(toks) == j,
    decreases j,
{
    if j > 0 {
        assert(!is_comment(toks[0]));
        let rest = toks.drop_first();
        assert forall|i: int| 0 <= i < j - 1 implies !is_comment(#[trigger] rest[i]) by {
            assert(rest[i] == toks[i + 1]);
        }
        lemma_first_comment(rest, j - 1);
    }
}

/// Decodes one source line.
pub fn decode_one_line(line: &str) -> (r: Option<Line>)
    ensures
        r is None ==> decode_line(line@) == Seq::<LineModel>::empty(),
        r is Some ==> decode_line(line@) == seq![r->0@],
{
    let parts = split_string(line, ' ');
    let ghost pv = string_views(parts@);
    let ghost pred = |t: Seq<char>| t.len() > 0;
    let mut toks: Vec<String> = Vec::new();
    let mut j: usize = 0;
    proof {
        reveal_with_fuel(Seq::filter, 1);
        assert(pv.subrange(0, 0) =~= Seq::<Seq<char>>::empty());
        assert(string_views(toks@) =~= pv.subrange(0, 0).filter(pred));
    }
    while j < parts.len()
        invariant
            j <= parts@.len(),
            pv == string_views(parts@),
            pred == (|t: Seq<char>| t.len() > 0),
            string_views(toks@) == pv.subrange(0, j as int).filter(pred),
        decreases parts@.len() - j,
    {
        let ghost prev = string_views(toks@);
        assert(pv[j as int] == parts@[j as int]@);
        assert(pv.subrange(0, j as int + 1) =~= pv.subrange(0, j as int).push(pv[j as int]));
        proof {
            pv.subrange(0, j as int).lemma_filter_push(pv[j as int], pred);
        }
        if parts[j].as_str().unicode_len() > 0 {
            toks.push(parts[j].clone());
            assert(pred(pv[j as int]));
            assert(string_views(toks@) =~= prev.push(pv[j as int]));
        } else {
            assert(!pred(pv[j as int]));
            assert(string_views(toks@) =~= prev);
        }
        j = j + 1;
    }
    assert(pv.subrange(0, parts@.len() as int) =~= pv);
    let ghost tv = string_views(toks@);
    assert(tv == tokens(line@));
    if toks.len() == 0 {
        return None;
    }
    if token_is_comment(&toks[0]) {
        let mut l = build_line();
        l.command = "NEXT".to_owned();
        proof {
            reveal_strlit("NEXT");
        }
        assert(l@.0 =~= next_command());
        assert(l@.1 =~= Seq::<Seq<char>>::empty());
        return Some(l);
    }
    let command = token_without_prefix(&toks[0]);
    let mut args: Vec<String> = Vec::new();
    let mut k: usize = 1;
    let mut ended = false;
    while k < toks.len() && !ended
        invariant
            1 <= k <= toks@.len(),
            tv == string_views(toks@),
            !is_comment(tv[0]),
            forall|i: int| 0 <= i < k ==> !is_comment(#[trigger] tv[i]),
            ended ==> k < toks@.len() && is_comment(tv[k as int]),
            string_views(args@) == strip_all(tv.subrange(1, k as int)),
        decreases toks@.len() - k, if ended { 0int } else { 1int },
    {
        if token_is_comment(&toks[k]) {
            ended = true;
        } else {
            let a = token_without_prefix(&toks[k]);
            let ghost prev_args = string_views(args@);
            args.push(a);
            k = k + 1;
            assert(string_views(args@) =~= prev_args.push(strip_hex_prefix(tv[k - 1])));
            assert(strip_all(tv.subrange(1, k as int)) =~= strip_all(tv.subrange(1, k - 1)).push(strip_hex_prefix(tv[k - 1])));
        }
    }
    proof {
        lemma_first_comment(tv, k as int);
        let kept = strip_all(tv.subrange(0, k as int));
        assert(kept.drop_first() =~= strip_all(tv.subrange(1, k as int)));
    }
    let l = Line { command, args };
    assert(seq![l@] =~= decode_line(line@));
    Some(l)
}

impl SyntaxTree {
    /// Decodes a contract text and appends its instructions.
    pub fn create(&mut self, contract_contents: String)
        ensures
            final(self)@ == old(self)@ + decode(contract_contents@),
    {
        let lines = split_string(contract_contents.as_str(), '\n');
        let ghost lv = string_views(lines@);
        let ghost start = self@;
        let mut j: usize = 0;
        assert(lv.subrange(0, 0) =~= Seq::<Seq<char>>::empty());
        assert(self@ =~= start + decode_lines(lv.subrange(0, 0)));
        while j < lines.len()
            invariant
                j <= lines@.len(),
                lv == string_views(lines@),
                self@ == start + decode_lines(lv.subrange(0, j as int)),
            decreases lines@.len() - j,
        {
            let decoded = decode_one_line(lines[j].as_str());
            let ghost before = self@;
            match decoded {
                Some(l) => {
                    self.lines.push(l);
                    assert(self@ =~= before + decode_line(lv[j as int]));
                },
                None => {
                    assert(self@ =~= before + decode_line(lv[j as int]));
                },
            }
            assert(lv.subrange(0, j as int + 1).drop_last() =~= lv.subrange(0, j as int));
            j = j + 1;
            assert(self@ =~= start + decode_lines(lv.subrange(0, j as int)));
        }
        assert(lv.subrange(0, lines@.len() as int) =~= lv);
    }
}

} // verus!
