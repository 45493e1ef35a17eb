//! The codebox: the program's two-dimensional, mutable instruction memory.

use std::collections::HashMap;
use vstd::prelude::*;

verus! {

broadcast use vstd::std_specs::hash::group_hash_axioms;

/// A grid position: column `x`, row `y`.
#[derive(Debug, Clone, Copy, PartialEq, Eq, Hash, Structural)]
pub struct Pos {
    pub x: usize,
    pub y: usize,
}

/// What a cell holds: nothing to do, or a character to execute.
#[derive(Debug, Clone, Copy, PartialEq, Eq, Structural)]
pub enum Instruction {
    Noop,
    Op(char),
}

/// The pieces of `s` between line feeds, in order: one more than there are
/// line feeds.
pub open spec fn pieces(s: Seq<char>) -> Seq<Seq<char>>
    decreases s.len(),
{
    if s.len() == 0 {
        seq![Seq::empty()]
    } else {
        let before = pieces(s.drop_last());
        if s.last() == '\n' {
            before.push(Seq::empty())
        } else {
            before.update(before.len() - 1, before.last().push(s.last()))
        }
    }
}

/// A line without the carriage return that ended it, if any.
pub open spec fn strip_cr(line: Seq<char>) -> Seq<char> {
    if line.len() > 0 && line.last() == '\r' {
        line.drop_last()
    } else {
        line
    }
}

/// The lines of a source text: split at line feeds, a carriage return just
/// before a line feed dropped, and no empty line after a final line feed.
pub open spec fn source_lines(s: Seq<char>) -> Seq<Seq<char>> {
    let p = pieces(s);
    let n: int = if p.last().len() == 0 { p.len() - 1 } else { p.len() as int };
    Seq::new(n as nat, |i: int| if i + 1 < p.len() { strip_cr(p[i]) } else { p[i] })
}

/// The length of the longest line, 0 when there is none.
pub open spec fn max_width(lines: Seq<Seq<char>>) -> nat
    decreases lines.len(),
{
    if lines.len() == 0 {
        0
    } else {
        let w = max_width(lines.drop_last());
        if lines.last().len() > w { lines.last().len() } else { w }
    }
}

/// Whether `lines` hold a character other than a space at `p`.
pub open spec fn in_source(lines: Seq<Seq<char>>, p: Pos) -> bool {
    p.y < lines.len() && p.x < lines[p.y as int].len() && lines[p.y as int][p.x as int] != ' '
}

/// The instruction that the source `lines` place at `p`.
pub open spec fn source_cell(lines: Seq<Seq<char>>, p: Pos) -> Instruction {
    if in_source(lines, p) {
        Instruction::Op(lines[p.y as int][p.x as int])
    } else {
        Instruction::Noop
    }
}

/// The key under which the cell at `p` is stored.
pub open spec fn key_of(p: Pos) -> u128 {
    (p.x as int * 0x1_0000_0000_0000_0000 + p.y as int) as u128
}

fn key(p: &Pos) -> (k: u128)
    ensures
        k == key_of(*p),
{
    (p.x as u128) * 0x1_0000_0000_0000_0000u128 + (p.y as u128)
}

/// The characters of a text, in order.
fn chars_of(s: &str) -> (r: Vec<char>)
    ensures
        r@ == s@,
{
    let mut out: Vec<char> = Vec::new();
    for c in it: s.chars()
        invariant
            out@ == it.seq().take(it.index() as int),
    {
        proof {
            assert(it.seq().take(it.index() + 1) =~= it.seq().take(it.index() as int).push(c));
        }
        out.push(c);
    }
    assert(out@ =~= s@);
    out
}

proof fn lemma_pieces_nonempty(s: Seq<char>)
    ensures
        pieces(s).len() >= 1,
    decreases s.len(),
{
    if s.len() > 0 {
        lemma_pieces_nonempty(s.drop_last());
    }
}

/// Splits a text into its source lines.
fn split_lines(text: &Vec<char>) -> (lines: Vec<Vec<char>>)
    ensures
        lines@.len() == source_lines(text@).len(),
        forall|i: int| 0 <= i < lines@.len() ==> #[trigger] lines@[i]@ == source_lines(text@)[i],
{
    let mut done: Vec<Vec<char>> = Vec::new();
    let mut cur: Vec<char> = Vec::new();
    let mut i: usize = 0;
    proof {
        assert(text@.take(0) =~= Seq::<char>::empty());
    }
    while i < text.len()
        invariant
            i <= text@.len(),
            pieces(text@.take(i as int)).len() == done@.len() + 1,
            cur@ == pieces(text@.take(i as int)).last(),
            forall|k: int|
                0 <= k < done@.len() ==> #[trigger] done@[k]@ == strip_cr(
                    pieces(text@.take(i as int))[k],
                ),
        decreases text@.len() - i,
    {
        let c = text[i];
        proof {
            assert(text@.take(i + 1).drop_last() =~= text@.take(i as int));
            lemma_pieces_nonempty(text@.take(i as int));
        }
        if c == '\n' {
            let len = cur.len();
            if len > 0 && cur[len - 1] == '\r' {
                cur.pop();
            }
            done.push(cur);
            cur = Vec::new();
            proof {
                assert(cur@ =~= Seq::<char>::empty());
            }
        } else {
            cur.push(c);
        }
        i = i + 1;
    }
    proof {
        assert(text@.take(i as int) =~= text@);
    }
    if cur.len() > 0 {
        done.push(cur);
    }
    done
}

/// The program's instruction memory: cells addressed by position, and the
/// width and height of the source that wrapping uses.
pub struct Codebox {
    code: HashMap<u128, char>,
    width: usize,
    height: usize,
}

impl Codebox {
    /// The character cells, by position; every other position is a no-op.
    pub closed spec fn cells(&self) -> Map<Pos, char> {
        Map::new(|p: Pos| self.code@.contains_key(key_of(p)), |p: Pos| self.code@[key_of(p)])
    }

    /// The instruction at `p`.
    pub open spec fn instruction_at(&self, p: Pos) -> Instruction {
        if self.cells().contains_key(p) {
            Instruction::Op(self.cells()[p])
        } else {
            Instruction::Noop
        }
    }

    pub closed spec fn spec_width(&self) -> usize {
        self.width
    }

    pub closed spec fn spec_height(&self) -> usize {
        self.height
    }

    /// Loads a source text: one row per line, one column per character; a
    /// space is a no-op. The width is that of the longest line.
    pub fn new(code: &str) -> (r: Self)
        ensures
            r.spec_height() == source_lines(code@).len(),
            r.spec_width() == max_width(source_lines(code@)),
            forall|p: Pos| #[trigger] r.instruction_at(p) == source_cell(source_lines(code@), p),
    {
        let text = chars_of(code);
        let lines = split_lines(&text);
        let ghost src = source_lines(code@);
        let mut width: usize = 0;
        let mut y: usize = 0;
        while y < lines.len()
            invariant
                y <= lines@.len(),
                lines@.len() == src.len(),
                forall|i: int| 0 <= i < lines@.len() ==> #[trigger] lines@[i]@ == src[i],
                width == max_width(src.take(y as int)),
            decreases lines@.len() - y,
        {
            proof {
                assert(src.take(y + 1).drop_last() =~= src.take(y as int));
            }
            if lines[y].len() > width {
                width = lines[y].len();
            }
            y = y + 1;
        }
        proof {
            assert(src.take(y as int) =~= src);
        }
        let mut code: HashMap<u128, char> = HashMap::new();
        let mut y: usize = 0;
        while y < lines.len()
            invariant
                y <= lines@.len(),
                lines@.len() == src.len(),
                forall|i: int| 0 <= i < lines@.len() ==> #[trigger] lines@[i]@ == src[i],
                forall|p: Pos|
                    #[trigger] code@.contains_key(key_of(p)) == (p.y < y && in_source(src, p)),
                forall|p: Pos|
                    code@.contains_key(key_of(p)) ==> #[trigger] code@[key_of(p)] == src[p.y as int][p.x as int],
            decreases lines@.len() - y,
        {
            let line = &lines[y];
            let mut x: usize = 0;
            while x < line.len()
                invariant
                    y < lines@.len(),
                    x <= line@.len(),
                    line@ == src[y as int],
                    lines@.len() == src.len(),
                    forall|p: Pos|
                        #[trigger] code@.contains_key(key_of(p)) == ((p.y < y || (p.y == y && p.x
                            < x)) && in_source(src, p)),
                    forall|p: Pos|
                        code@.contains_key(key_of(p)) ==> #[trigger] code@[key_of(p)]
                            == src[p.y as int][p.x as int],
                decreases line@.len() - x,
            {
                let c = line[x];
                if c != ' ' {
                    let p = Pos { x, y };
                    let k = key(&p);
                    code.insert(k, c);
                }
                x = x + 1;
            }
            y = y + 1;
        }
        Codebox { code, width, height: lines.len() }
    }

    /// The instruction at `pos`.
    pub fn get_instruction(&self, pos: &Pos) -> (r: Instruction)
        ensures
            r == self.instruction_at(*pos),
    {
        let k = key(pos);
        match self.code.get(&k) {
            Some(c) => Instruction::Op(*c),
            None => Instruction::Noop,
        }
    }

    /// Writes the character `instr` at `pos`, inside the source's rectangle
    /// or outside it; the width and height stay as they were.
    pub fn set_instruction(&mut self, pos: Pos, instr: char)
        ensures
            final(self).cells() == old(self).cells().insert(pos, instr),
            final(self).spec_width() == old(self).spec_width(),
            final(self).spec_height() == old(self).spec_height(),
    {
        let k = key(&pos);
        self.code.insert(k, instr);
        assert(self.cells() =~= old(self).cells().insert(pos, instr));
    }

    /// The length of the longest source line.
    #[verifier::when_used_as_spec(spec_width)]
    pub fn width(&self) -> (r: usize)
        ensures
            r == self.spec_width(),
    {
        self.width
    }

    /// The number of source lines.
    #[verifier::when_used_as_spec(spec_height)]
    pub fn height(&self) -> (r: usize)
        ensures
            r == self.spec_height(),
    {
        self.height
    }
}

} // verus!
