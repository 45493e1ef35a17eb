//! The interpreter: instruction pointer, parse mode, dispatch, and the host
//! that supplies input and takes output.

use crate::codebox::{max_width, source_cell, source_lines, Codebox, Instruction, Pos};
use crate::motion::{is_horizontal, is_turn, next_pos, step_pos, turned, Direction};
use crate::number::Number;
use crate::stack::{
    binary_result, closed, count_popped, fresh, is_binary_op, opened, rotated_down, rotated_up,
    swap_depth, with_values, ProgramStack, StackError, Substack,
};
use vstd::prelude::*;

verus! {

/// Whether the program is still running.
#[derive(Debug, Clone, Copy, PartialEq, Eq, Structural)]
pub enum State {
    Running,
    Done,
}

/// How cells are read: as instructions, or as text up to the quote
/// character that opened it.
#[derive(Debug, Clone, Copy, PartialEq, Eq, Structural)]
pub enum ParseMode {
    Normal,
    Text(char),
}

/// The fatal errors of a step.
#[derive(Debug, PartialEq)]
pub enum RuntimeError<V> {
    /// A character that is no instruction was executed.
    InvalidInstruction(char),
    /// An instruction that this interpreter does not provide was executed.
    UnimplementedInstruction(char),
    /// `.`, `g` or `p` popped a coordinate that is negative or not whole:
    /// the popped `x` and `y`.
    InvalidPosition(V, V),
    /// `o` or `p` popped a value that is no Unicode scalar value.
    CharConversionFailure,
    /// A stack operation failed.
    StackError(StackError),
    /// The input ended where the host treats that as fatal.
    UnexpectedEOF,
}

/// What runs a program supplies: its input, and a sink for its output.
pub trait Host<V> {
    /// The next input character, or `None` at the end of the input.
    fn read_char(&mut self) -> Option<char>;

    /// Writes one character of output.
    fn write_char(&mut self, c: char);

    /// Writes a value in its decimal form.
    fn write_number(&mut self, v: V);
}

/// The value of a lower-case hexadecimal digit.
pub open spec fn hex_value(c: char) -> Option<u32> {
    let n = c as u32;
    if 48 <= n <= 57 {
        Some((n - 48) as u32)
    } else if 97 <= n <= 102 {
        Some((n - 87) as u32)
    } else {
        None
    }
}

/// The value of the lower-case hexadecimal digit `c`, if it is one.
pub fn hex_digit(c: char) -> (r: Option<u32>)
    ensures
        r == hex_value(c),
{
    let n = c as u32;
    if 48 <= n && n <= 57 {
        Some(n - 48)
    } else if 97 <= n && n <= 102 {
        Some(n - 87)
    } else {
        None
    }
}

/// Whether `n` is a Unicode scalar value.
pub open spec fn is_scalar(n: u32) -> bool {
    n < 0xD800 || (0xE000 <= n && n < 0x11_0000)
}

/// Relies on char::from_u32: a character exactly for the Unicode scalar
/// values, with that code point.
#[verifier::external_body]
fn char_from_code(n: u32) -> (r: Option<char>)
    ensures
        r is Some <==> is_scalar(n),
        r matches Some(c) ==> c as u32 == n,
{
    char::from_u32(n)
}

/// The character whose code point is `n`, if `n` is a Unicode scalar value.
pub fn code_to_char(n: u32) -> (r: Option<char>)
    ensures
        r is Some <==> is_scalar(n),
        r matches Some(c) ==> c as u32 == n,
{
    char_from_code(n)
}

/// The code point that `g` pushes for an instruction: that of its
/// character, 0 for a no-op.
pub open spec fn code_of(i: Instruction) -> u32 {
    match i {
        Instruction::Op(c) => c as u32,
        Instruction::Noop => 0,
    }
}

/// Relies on rand::random: a value drawn from the thread-local generator;
/// nothing is promised of it.
pub assume_specification<T>[ rand::random::<T> ]() -> (r: T)
    where
        rand::distributions::Standard: rand::distributions::Distribution<T>,
;

/// What a program hands to its host to write.
pub enum Emitted<V> {
    /// A character, written by `o`.
    Char(char),
    /// A value in its decimal form, written by `n`.
    Number(V),
}

/// The abstract state of an interpreter.
pub struct Machine<V> {
    /// Everything handed to the host to write so far, in order.
    pub output: Seq<Emitted<V>>,
    /// The character cells of the codebox; other cells are no-ops.
    pub cells: Map<Pos, char>,
    pub width: usize,
    pub height: usize,
    /// The substacks, base first.
    pub stacks: Seq<Substack<V>>,
    pub ptr: Pos,
    pub dir: Direction,
    pub mode: ParseMode,
    pub state: State,
}

impl<V> Machine<V> {
    /// The instruction at `p`.
    pub open spec fn at(self, p: Pos) -> Instruction {
        if self.cells.contains_key(p) {
            Instruction::Op(self.cells[p])
        } else {
            Instruction::Noop
        }
    }

    /// The number of cells in a lap of the torus heading `d`.
    pub open spec fn lap(self, d: Direction) -> nat {
        if is_horizontal(d) { self.width as nat } else { self.height as nat }
    }

    /// From `p` heading `d`, the first cell that is no no-op within `fuel`
    /// further steps, or the cell reached after them.
    pub open spec fn skip_noops(self, p: Pos, d: Direction, fuel: nat) -> Pos
        decreases fuel,
    {
        if fuel == 0 || self.at(p) != Instruction::Noop {
            p
        } else {
            self.skip_noops(next_pos(p, d, self.width, self.height), d, (fuel - 1) as nat)
        }
    }

    /// Where the pointer goes on from its cell: one step ahead, then, in
    /// normal mode, on past no-ops for at most one lap.
    pub open spec fn advanced(self) -> Pos {
        let q = next_pos(self.ptr, self.dir, self.width, self.height);
        if self.mode == ParseMode::Normal {
            self.skip_noops(q, self.dir, self.lap(self.dir))
        } else {
            q
        }
    }

    /// This state with the pointer moved on.
    pub open spec fn moved_on(self) -> Machine<V> {
        Machine { ptr: self.advanced(), ..self }
    }

    /// The current substack.
    pub open spec fn top(self) -> Substack<V> {
        self.stacks.last()
    }

    /// This state with the current substack replaced by `t`.
    pub open spec fn with_top(self, t: Substack<V>) -> Machine<V> {
        Machine { stacks: self.stacks.update(self.stacks.len() - 1, t), ..self }
    }

    /// This state with `k` values popped from the current substack.
    pub open spec fn popped(self, k: nat) -> Machine<V> {
        self.with_top(with_values(self.top(), self.top().values.take(self.top().values.len() - k)))
    }

    /// This state with `e` handed to the host.
    pub open spec fn emitted(self, e: Emitted<V>) -> Machine<V> {
        Machine { output: self.output.push(e), ..self }
    }

    /// This state with `v` pushed on the current substack.
    pub open spec fn pushed(self, v: V) -> Machine<V> {
        self.with_top(with_values(self.top(), self.top().values.push(v)))
    }

    /// This state with the code point of `ch` pushed on the current
    /// substack.
    pub open spec fn pushed_char(self, ch: char) -> Machine<V>
        where
            V: Number,
    {
        self.pushed(V::spec_from_u32(ch as u32))
    }

    /// This state after `p` wrote `ch` at `at`: three values popped and the
    /// cell written.
    pub open spec fn written(self, at: Pos, ch: char) -> Machine<V> {
        Machine { cells: self.cells.insert(at, ch), ..self.popped(3) }
    }
}

/// The error of a stack underflow.
pub open spec fn underflow<V>() -> Result<(), RuntimeError<V>> {
    Err(RuntimeError::StackError(StackError::Underflow))
}

/// Whether `c` only rearranges or replaces values of the current substack.
pub open spec fn is_substack_op(c: char) -> bool {
    c == ':' || c == '~' || c == '$' || c == '@' || c == '}' || c == '{' || c == 'r' || c == '&'
}

/// What the substack operation `c` does to the current substack `t`:
/// `None` when it underflows.
pub open spec fn substack_effect<V>(c: char, t: Substack<V>) -> Option<Substack<V>> {
    let s = t.values;
    if c == ':' {
        if s.len() == 0 { None } else { Some(with_values(t, s.push(s.last()))) }
    } else if c == '~' {
        if s.len() == 0 { None } else { Some(with_values(t, s.drop_last())) }
    } else if c == '$' {
        if s.len() < 2 { None } else { Some(with_values(t, swap_depth(s, 2))) }
    } else if c == '@' {
        if s.len() < 3 { None } else { Some(with_values(t, swap_depth(s, 3))) }
    } else if c == '}' {
        Some(with_values(t, rotated_up(s)))
    } else if c == '{' {
        Some(with_values(t, rotated_down(s)))
    } else if c == 'r' {
        Some(with_values(t, s.reverse()))
    } else {
        match t.register {
            Some(v) => Some(Substack { values: s.push(v), register: None }),
            None => if s.len() == 0 {
                None
            } else {
                Some(Substack { values: s.drop_last(), register: Some(s.last()) })
            },
        }
    }
}

/// The position that the values `x` and `y` name, when both are
/// non-negative whole numbers.
pub open spec fn position_of<V: Number>(x: V, y: V) -> Option<Pos> {
    if x.spec_coordinate() is Some && y.spec_coordinate() is Some {
        Some(Pos { x: x.spec_coordinate()->0, y: y.spec_coordinate()->0 })
    } else {
        None
    }
}

/// The code point that the value `v` names, when it is a Unicode scalar
/// value.
pub open spec fn char_code<V: Number>(v: V) -> Option<u32> {
    if v.spec_code() is Some && is_scalar(v.spec_code()->0) {
        v.spec_code()
    } else {
        None
    }
}

/// What executing the character `c` does to the state `m`, up to (not
/// including) the move to the next cell; `n` is the state after it and `r`
/// the result. In text mode any character but the closing quote is pushed
/// as its code point. Only the heading that `x` draws and the character
/// that `i` reads are left open.
pub open spec fn executed<V: Number>(
    m: Machine<V>,
    c: char,
    n: Machine<V>,
    r: Result<(), RuntimeError<V>>,
) -> bool {
    let s = m.top().values;
    let len = s.len();
    if m.mode is Text && c != m.mode->Text_0 {
        r is Ok && n == m.pushed(V::spec_from_u32(c as u32))
    } else if is_turn(c) {
        r is Ok && n == (Machine { dir: turned(c, m.dir), ..m })
    } else if c == 'x' {
        r is Ok && n == (Machine { dir: n.dir, ..m })
    } else if hex_value(c) is Some {
        r is Ok && n == m.pushed(V::spec_from_u32(hex_value(c)->0))
    } else if c == 'l' {
        r is Ok && n == m.pushed(V::spec_from_usize(len as usize))
    } else if c == 'i' {
        r is Ok && (n == m.pushed(V::spec_negative_one()) || exists|ch: char|
            n == #[trigger] m.pushed_char(ch))
    } else if is_substack_op(c) {
        match substack_effect(c, m.top()) {
            Some(t) => r is Ok && n == m.with_top(t),
            None => r == underflow::<V>() && n == m,
        }
    } else if is_binary_op(c) {
        if len == 0 {
            r == underflow::<V>() && n == m
        } else if len == 1 {
            r == underflow::<V>() && n == m.popped(1)
        } else {
            r is Ok && n == m.popped(2).pushed(binary_result(c, s[len - 2], s.last()))
        }
    } else if c == '[' {
        if len == 0 {
            r == underflow::<V>() && n == m
        } else {
            let cnt = s.last().spec_count() as nat;
            let p = count_popped(m.stacks);
            if cnt <= p.last().values.len() {
                r is Ok && n == (Machine { stacks: opened(p, cnt), ..m })
            } else {
                r == underflow::<V>() && n == (Machine { stacks: p, ..m })
            }
        }
    } else if c == ']' {
        r is Ok && n == (Machine { stacks: closed(m.stacks), ..m })
    } else if c == '!' {
        r is Ok && n == m.moved_on()
    } else if c == '?' {
        if len == 0 {
            r == underflow::<V>() && n == m
        } else if s.last().spec_is_zero() {
            r is Ok && n == m.popped(1).moved_on()
        } else {
            r is Ok && n == m.popped(1)
        }
    } else if c == '.' || c == 'g' || c == 'p' {
        if len == 0 {
            r == underflow::<V>() && n == m
        } else if len == 1 {
            r == underflow::<V>() && n == m.popped(1)
        } else {
            let y = s.last();
            let x = s[len - 2];
            match position_of(x, y) {
                None => r == Err::<(), _>(RuntimeError::InvalidPosition(x, y)) && n == m.popped(2),
                Some(p) => if c == '.' {
                    r is Ok && n == (Machine { ptr: p, ..m.popped(2) })
                } else if c == 'g' {
                    r is Ok && n == m.popped(2).pushed(V::spec_from_u32(code_of(m.at(p))))
                } else if len == 2 {
                    r == underflow::<V>() && n == m.popped(2)
                } else {
                    match char_code(s[len - 3]) {
                        None => r == Err::<(), _>(RuntimeError::<V>::CharConversionFailure) && n
                            == m.popped(3),
                        Some(k) => r is Ok && exists|ch: char|
                            ch as u32 == k && n == #[trigger] m.written(p, ch),
                    }
                },
            }
        }
    } else if c == '"' || c == '\'' {
        r is Ok && n == (Machine {
            mode: if m.mode == ParseMode::Normal {
                ParseMode::Text(c)
            } else {
                ParseMode::Normal
            },
            ..m
        })
    } else if c == 'n' {
        if len == 0 {
            r == underflow::<V>() && n == m
        } else {
            r is Ok && n == m.popped(1).emitted(Emitted::Number(s.last()))
        }
    } else if c == 'o' {
        if len == 0 {
            r == underflow::<V>() && n == m
        } else if char_code(s.last()) is Some {
            r is Ok && exists|ch: char|
                ch as u32 == char_code(s.last())->0 && n == #[trigger] m.popped(1).emitted(
                    Emitted::Char(ch),
                )
        } else {
            r == Err::<(), _>(RuntimeError::<V>::CharConversionFailure) && n == m.popped(1)
        }
    } else if c == ';' {
        r is Ok && n == (Machine { state: State::Done, ..m })
    } else {
        r == Err::<(), _>(RuntimeError::<V>::InvalidInstruction(c)) && n == m
    }
}

/// What one step does to the state `m`: `n` is the state after it and `r`
/// the result. The cell under the pointer is executed (a no-op pushes a
/// space in text mode and does nothing otherwise), then the pointer moves
/// on; a failed step ends the run instead.
pub open spec fn stepped<V: Number>(m: Machine<V>, n: Machine<V>, r: Result<(), RuntimeError<V>>) -> bool {
    match m.at(m.ptr) {
        Instruction::Noop => r is Ok && n == (if m.mode is Text {
            m.pushed(V::spec_from_u32(32))
        } else {
            m
        }).moved_on(),
        Instruction::Op(c) => exists|mid: Machine<V>|
            #[trigger] executed(m, c, mid, r) && n == (if r is Ok {
                mid.moved_on()
            } else {
                Machine { state: State::Done, ..mid }
            }),
    }
}

/// Whether `n` is reached from `m` by `k` successful steps of a running
/// program.
pub open spec fn runs<V: Number>(m: Machine<V>, n: Machine<V>, k: nat) -> bool
    decreases k,
{
    if k == 0 {
        n == m
    } else {
        exists|mid: Machine<V>, r: Result<(), RuntimeError<V>>|
            runs(m, mid, (k - 1) as nat) && mid.state == State::Running && r is Ok
                && #[trigger] stepped(mid, n, r)
    }
}

/// `p` followed, once its coordinates are pushed again, by `g` reads back
/// the code point that `p` wrote.
pub proof fn lemma_put_then_get<V: Number>(
    m: Machine<V>,
    put: Machine<V>,
    get: Machine<V>,
    r: Result<(), RuntimeError<V>>,
)
    requires
        m.mode == ParseMode::Normal,
        m.stacks.len() >= 1,
        executed(m, 'p', put, Ok(())),
        executed(put.pushed(m.top().values[m.top().values.len() - 2]).pushed(m.top().values.last()), 'g', get, r),
    ensures
        m.top().values.len() >= 3,
        char_code(m.top().values[m.top().values.len() - 3]) is Some,
        r is Ok,
        get.top().values.last() == V::spec_from_u32(char_code(m.top().values[m.top().values.len() - 3])->0),
{
    let s = m.top().values;
    let len = s.len();
    let p = position_of(s[len - 2], s.last())->0;
    let k = char_code(s[len - 3])->0;
    let ch = choose|ch: char| ch as u32 == k && put == #[trigger] m.written(p, ch);
    let again = put.pushed(s[len - 2]).pushed(s.last());
    assert(again.top().values.last() == s.last());
    assert(again.top().values[again.top().values.len() - 2] == s[len - 2]);
    assert(again.at(p) == Instruction::Op(ch));
}

/// One more successful step of a running program extends a run.
pub proof fn lemma_runs_extend<V: Number>(
    m: Machine<V>,
    mid: Machine<V>,
    n: Machine<V>,
    k: nat,
    r: Result<(), RuntimeError<V>>,
)
    requires
        runs(m, mid, k),
        mid.state == State::Running,
        r is Ok,
        stepped(mid, n, r),
    ensures
        runs(m, n, k + 1),
{
    let k1 = (k + 1) as nat;
    assert((k1 - 1) as nat == k);
    assert(runs(m, mid, (k1 - 1) as nat));
    assert(stepped(mid, n, r));
    assert(runs(m, n, k1));
}

/// A program being run: its codebox, its stacks, the instruction pointer
/// and its heading, the parse mode, the run state, and the host.
pub struct Interpreter<V, H> {
    codebox: Codebox,
    stack: ProgramStack<V>,
    ptr: Pos,
    dir: Direction,
    state: State,
    mode: ParseMode,
    host: H,
    output: Ghost<Seq<Emitted<V>>>,
}

impl<V: Number, H: Host<V>> View for Interpreter<V, H> {
    type V = Machine<V>;

    closed spec fn view(&self) -> Machine<V> {
        Machine {
            output: self.output@,
            cells: self.codebox.cells(),
            width: self.codebox.spec_width(),
            height: self.codebox.spec_height(),
            stacks: self.stack@,
            ptr: self.ptr,
            dir: self.dir,
            mode: self.mode,
            state: self.state,
        }
    }
}

/// A stack operation's result as the result of a step.
fn lift<V>(r: Result<(), StackError>) -> (out: Result<(), RuntimeError<V>>)
    ensures
        match r {
            Ok(_) => out is Ok,
            Err(e) => out == Err::<(), _>(RuntimeError::<V>::StackError(e)),
        },
{
    match r {
        Ok(_) => Ok(()),
        Err(e) => Err(RuntimeError::StackError(e)),
    }
}

impl<V: Number, H: Host<V>> Interpreter<V, H> {
    /// The stacks are well formed: there is always a current substack.
    pub closed spec fn wf(&self) -> bool {
        self.stack.wf()
    }

    /// Well-formedness is the machine's substack sequence being non-empty.
    pub proof fn lemma_wf(&self)
        ensures
            self.wf() <==> self@.stacks.len() >= 1,
    {
    }

    /// The host.
    pub closed spec fn spec_host(&self) -> H {
        self.host
    }

    /// Loads `code` and starts at the top left, heading East, in normal
    /// mode, with one empty substack.
    pub fn new(code: &str, host: H) -> (r: Self)
        ensures
            r.wf(),
            r.spec_host() == host,
            r@.stacks == seq![fresh(Seq::<V>::empty())],
            r@.ptr == (Pos { x: 0, y: 0 }),
            r@.dir == Direction::East,
            r@.mode == ParseMode::Normal,
            r@.state == State::Running,
            r@.output == Seq::<Emitted<V>>::empty(),
            r@.width == max_width(source_lines(code@)),
            r@.height == source_lines(code@).len(),
            forall|p: Pos| #[trigger] r@.at(p) == source_cell(source_lines(code@), p),
    {
        let codebox = Codebox::new(code);
        let r = Interpreter {
            codebox,
            stack: ProgramStack::new(),
            ptr: Pos { x: 0, y: 0 },
            dir: Direction::East,
            state: State::Running,
            mode: ParseMode::Normal,
            host,
            output: Ghost(Seq::empty()),
        };
        assert forall|p: Pos| #[trigger] r@.at(p) == source_cell(source_lines(code@), p) by {
            assert(r@.at(p) == r.codebox.instruction_at(p));
        }
        r
    }

    /// Gives the host back, ending the run.
    pub fn into_host(self) -> (r: H)
        ensures
            r == self.spec_host(),
    {
        self.host
    }

    /// Whether the program has ended.
    pub fn is_done(&self) -> (r: bool)
        ensures
            r == (self@.state == State::Done),
    {
        match self.state {
            State::Done => true,
            State::Running => false,
        }
    }

    /// The cell after the pointer's in its heading, on the torus of the
    /// source's width and height.
    fn get_next_pos(&self) -> (r: Pos)
        ensures
            r == next_pos(self.ptr, self.dir, self@.width, self@.height),
    {
        step_pos(self.ptr, self.dir, self.codebox.width(), self.codebox.height())
    }

    /// A quote enters text mode, ended by the same quote; in text mode it
    /// returns to normal mode.
    fn switch_parse_mode(&mut self, quote: char)
        ensures
            final(self)@ == (Machine {
                mode: if old(self)@.mode == ParseMode::Normal {
                    ParseMode::Text(quote)
                } else {
                    ParseMode::Normal
                },
                ..old(self)@
            }),
            final(self).stack == old(self).stack,
            final(self).host == old(self).host,
    {
        self.mode = if self.mode == ParseMode::Normal {
            ParseMode::Text(quote)
        } else {
            ParseMode::Normal
        };
    }

    /// Moves the pointer one cell on, then past no-ops in normal mode (for at
    /// most one lap).
    fn move_to_next(&mut self)
        ensures
            final(self)@ == old(self)@.moved_on(),
            final(self).stack == old(self).stack,
            final(self).host == old(self).host,
    {
        let ghost m = self@;
        self.ptr = self.get_next_pos();
        if self.mode == ParseMode::Normal {
            let lap: usize = match self.dir {
                Direction::East | Direction::West => self.codebox.width(),
                _ => self.codebox.height(),
            };
            let mut left: usize = lap;
            while left > 0 && self.codebox.get_instruction(&self.ptr) == Instruction::Noop
                invariant
                    self@ == (Machine { ptr: self.ptr, ..m }),
                    self.stack == old(self).stack,
                    self.host == old(self).host,
                    m.skip_noops(self.ptr, m.dir, left as nat) == m.advanced(),
                decreases left,
            {
                let ghost p = self.ptr;
                assert(m.at(p) == self.codebox.instruction_at(p));
                self.ptr = self.get_next_pos();
                left = left - 1;
                assert(m.skip_noops(p, m.dir, (left + 1) as nat) == m.skip_noops(
                    self.ptr,
                    m.dir,
                    left as nat,
                ));
            }
        }
    }

    /// Applies the substack operation `c` to the current substack.
    fn substack_op(&mut self, c: char) -> (r: Result<(), RuntimeError<V>>)
        requires
            old(self).wf(),
            is_substack_op(c),
        ensures
            final(self).wf(),
            match substack_effect(c, old(self)@.top()) {
                Some(t) => r is Ok && final(self)@ == old(self)@.with_top(t),
                None => r == underflow::<V>() && final(self)@ == old(self)@,
            },
            final(self).host == old(self).host,
    {
        let ghost before = self.stack;
        let mut t = self.stack.take_top();
        let res = match c {
            ':' => t.dup(),
            '~' => match t.pop() {
                Ok(_) => Ok(()),
                Err(e) => Err(e),
            },
            '$' => t.swap(2),
            '@' => t.swap(3),
            '}' => {
                t.shift_right();
                Ok(())
            },
            '{' => {
                t.shift_left();
                Ok(())
            },
            'r' => {
                t.reverse();
                Ok(())
            },
            _ => t.swap_register(),
        };
        let ghost after = t;
        self.stack.put_top(t);
        proof {
            ProgramStack::lemma_top_replaced(before, self.stack, after);
            if substack_effect(c, old(self)@.top()) is None {
                assert(self@.stacks =~= old(self)@.stacks);
            }
        }
        lift(res)
    }

    /// Applies the binary operation `c` to the top two values.
    fn binary_op(&mut self, c: char) -> (r: Result<(), RuntimeError<V>>)
        requires
            old(self).wf(),
            is_binary_op(c),
            !(old(self)@.mode is Text && c != old(self)@.mode->Text_0),
        ensures
            final(self).wf(),
            executed(old(self)@, c, final(self)@, r),
            final(self).host == old(self).host,
    {
        let ghost m = self@;
        let ghost before = self.stack;
        let mut t = self.stack.take_top();
        let res = match c {
            '+' => t.add(),
            '-' => t.subtract(),
            '*' => t.multiply(),
            ',' => t.divide(),
            '%' => t.modulo(),
            '=' => t.equals(),
            ')' => t.greater_than(),
            _ => t.less_than(),
        };
        let ghost after = t;
        self.stack.put_top(t);
        proof {
            ProgramStack::lemma_top_replaced(before, self.stack, after);
            let s = m.top().values;
            if s.len() == 0 {
                assert(self@.stacks =~= m.stacks);
            } else if s.len() == 1 {
                assert(s.take(0) =~= Seq::<V>::empty());
                assert(self@.stacks =~= m.popped(1).stacks);
            } else {
                let v = binary_result(c, s[s.len() - 2], s.last());
                assert(m.popped(2).top().values.push(v) =~= s.take(s.len() - 2).push(v));
                assert(self@.stacks =~= m.popped(2).pushed(v).stacks);
            }
        }
        lift(res)
    }

    /// Pushes `v` on the current substack.
    fn push_value(&mut self, v: V)
        requires
            old(self).wf(),
        ensures
            final(self).wf(),
            final(self)@ == old(self)@.pushed(v),
            final(self).host == old(self).host,
    {
        let ghost before = self.stack;
        let mut t = self.stack.take_top();
        t.push(v);
        let ghost after = t;
        self.stack.put_top(t);
        proof {
            ProgramStack::lemma_top_replaced(before, self.stack, after);
            assert(self@.stacks =~= old(self)@.pushed(v).stacks);
        }
    }

    /// Pops the top value of the current substack.
    fn pop_value(&mut self) -> (r: Result<V, RuntimeError<V>>)
        requires
            old(self).wf(),
        ensures
            final(self).wf(),
            old(self)@.top().values.len() == 0 ==> r == Err::<V, _>(
                RuntimeError::<V>::StackError(StackError::Underflow),
            ) && final(self)@ == old(self)@,
            old(self)@.top().values.len() > 0 ==> r == Ok::<_, RuntimeError<V>>(
                old(self)@.top().values.last(),
            ) && final(self)@ == old(self)@.popped(1),
            final(self).host == old(self).host,
    {
        let ghost before = self.stack;
        let mut t = self.stack.take_top();
        let res = t.pop();
        let ghost after = t;
        self.stack.put_top(t);
        proof {
            ProgramStack::lemma_top_replaced(before, self.stack, after);
            if old(self)@.top().values.len() == 0 {
                assert(self@.stacks =~= old(self)@.stacks);
            } else {
                assert(self@.stacks =~= old(self)@.popped(1).stacks);
            }
        }
        match res {
            Ok(v) => Ok(v),
            Err(e) => Err(RuntimeError::StackError(e)),
        }
    }

    /// `.`, `g` and `p` read a position: pops `y`, then `x`; both must be
    /// non-negative whole numbers.
    fn load_pos(&mut self) -> (r: Result<Pos, RuntimeError<V>>)
        requires
            old(self).wf(),
        ensures
            final(self).wf(),
            final(self).host == old(self).host,
            ({
                let s = old(self)@.top().values;
                if s.len() == 0 {
                    r == Err::<Pos, _>(RuntimeError::<V>::StackError(StackError::Underflow))
                        && final(self)@ == old(self)@
                } else if s.len() == 1 {
                    r == Err::<Pos, _>(RuntimeError::<V>::StackError(StackError::Underflow))
                        && final(self)@ == old(self)@.popped(1)
                } else {
                    &&& final(self)@ == old(self)@.popped(2)
                    &&& r == match position_of(s[s.len() - 2], s.last()) {
                        Some(p) => Ok::<Pos, RuntimeError<V>>(p),
                        None => Err(RuntimeError::InvalidPosition(s[s.len() - 2], s.last())),
                    }
                }
            }),
    {
        let ghost m = self@;
        let y = self.pop_value()?;
        let x = match self.pop_value() {
            Ok(x) => x,
            Err(e) => {
                return Err(e);
            },
        };
        proof {
            let t = m.top().values;
            assert(t.take(t.len() - 1).take(t.len() - 2) =~= t.take(t.len() - 2));
            assert(self@.stacks =~= m.popped(2).stacks);
        }
        match (x.to_coordinate(), y.to_coordinate()) {
            (Some(px), Some(py)) => Ok(Pos { x: px, y: py }),
            _ => Err(RuntimeError::InvalidPosition(x, y)),
        }
    }

    /// The character for the value `v`, for `o` and `p`: the one whose code
    /// point `v` names, if it names a Unicode scalar value.
    fn value_to_char(v: V) -> (r: Result<char, RuntimeError<V>>)
        ensures
            r is Ok <==> char_code(v) is Some,
            r matches Ok(c) ==> c as u32 == char_code(v)->0,
            r is Err ==> r == Err::<char, _>(RuntimeError::<V>::CharConversionFailure),
    {
        match v.to_code() {
            Some(n) => match code_to_char(n) {
                Some(c) => Ok(c),
                None => Err(RuntimeError::CharConversionFailure),
            },
            None => Err(RuntimeError::CharConversionFailure),
        }
    }

    /// The code point of the character at `p`, 0 for a no-op.
    fn code_at(&self, p: &Pos) -> (r: u32)
        ensures
            r == code_of(self@.at(*p)),
    {
        match self.codebox.get_instruction(p) {
            Instruction::Op(c) => c as u32,
            Instruction::Noop => 0,
        }
    }

    /// Executes the character `c`: in text mode, pushes its code point
    /// unless it closes the text; otherwise runs it as an instruction. The
    /// pointer has not yet moved on from its cell.
    fn execute_instruction(&mut self, c: char) -> (r: Result<(), RuntimeError<V>>)
        requires
            old(self).wf(),
        ensures
            final(self).wf(),
            executed(old(self)@, c, final(self)@, r),
    {
        let ghost m = self@;
        if let ParseMode::Text(q) = self.mode {
            if c != q {
                self.push_value(V::from_u32(c as u32));
                return Ok(());
            }
        }
        if let Some(d) = hex_digit(c) {
            self.push_value(V::from_u32(d));
            return Ok(());
        }
        match c {
            '+' | '-' | '*' | ',' | '%' | '=' | ')' | '(' => self.binary_op(c),
            ':' | '~' | '$' | '@' | '}' | '{' | 'r' | '&' => self.substack_op(c),
            '[' => {
                let r = self.stack.split_stack();
                proof {
                    if m.top().values.len() > 0 {
                        assert(self@ == (Machine { stacks: self@.stacks, ..m }));
                    } else {
                        assert(self@ == m);
                    }
                }
                lift(r)
            },
            ']' => {
                self.stack.drop_stack();
                Ok(())
            },
            'l' => {
                let n = self.stack.top_len();
                self.push_value(V::from_usize(n));
                Ok(())
            },
            '!' => {
                self.move_to_next();
                Ok(())
            },
            '?' => {
                let v = match self.pop_value() {
                    Ok(v) => v,
                    Err(e) => return Err(e),
                };
                if v.is_zero() {
                    self.move_to_next();
                }
                Ok(())
            },
            '^' | '>' | 'v' | '<' | '/' | '\\' | '|' | '_' | '#' => {
                self.dir = self.dir.turn(c);
                Ok(())
            },
            'x' => {
                let draw: u32 = rand::random();
                self.dir = Direction::from_draw(draw);
                Ok(())
            },
            '.' => {
                let p = match self.load_pos() {
                    Ok(p) => p,
                    Err(e) => return Err(e),
                };
                self.ptr = p;
                Ok(())
            },
            '"' | '\'' => {
                self.switch_parse_mode(c);
                Ok(())
            },
            'n' => {
                let v = match self.pop_value() {
                    Ok(v) => v,
                    Err(e) => return Err(e),
                };
                self.host.write_number(v);
                self.output = Ghost(self.output@.push(Emitted::Number(v)));
                Ok(())
            },
            'o' => {
                let v = match self.pop_value() {
                    Ok(v) => v,
                    Err(e) => return Err(e),
                };
                let ch = match Self::value_to_char(v) {
                    Ok(ch) => ch,
                    Err(e) => return Err(e),
                };
                self.host.write_char(ch);
                self.output = Ghost(self.output@.push(Emitted::Char(ch)));
                assert(self@ == m.popped(1).emitted(Emitted::Char(ch)));
                Ok(())
            },
            'i' => {
                let input = self.host.read_char();
                proof {
                    assert(self@ == m);
                }
                match input {
                    None => {
                        self.push_value(V::negative_one());
                    },
                    Some(ch) => {
                        self.push_value(V::from_u32(ch as u32));
                        assert(self@ == m.pushed_char(ch));
                    },
                }
                Ok(())
            },
            'g' => {
                let p = match self.load_pos() {
                    Ok(p) => p,
                    Err(e) => return Err(e),
                };
                let code = self.code_at(&p);
                self.push_value(V::from_u32(code));
                Ok(())
            },
            'p' => {
                let p = match self.load_pos() {
                    Ok(p) => p,
                    Err(e) => return Err(e),
                };
                let v = match self.pop_value() {
                    Ok(v) => v,
                    Err(e) => return Err(e),
                };
                proof {
                    let t = m.top().values;
                    assert(t.take(t.len() - 2).take(t.len() - 3) =~= t.take(t.len() - 3));
                    assert(self@.stacks =~= m.popped(3).stacks);
                }
                let ch = match Self::value_to_char(v) {
                    Ok(ch) => ch,
                    Err(e) => return Err(e),
                };
                self.codebox.set_instruction(p, ch);
                proof {
                    assert(self@ == m.written(p, ch));
                }
                Ok(())
            },
            ';' => {
                self.state = State::Done;
                assert(executed(m, c, self@, Ok(())));
                Ok(())
            },
            _ => {
                assert(executed(m, c, self@, Err(RuntimeError::InvalidInstruction(c))));
                Err(RuntimeError::InvalidInstruction(c))
            },
        }
    }

    /// Executes the cell under the pointer and moves the pointer on. A no-op
    /// pushes a space in text mode. An error ends the run.
    pub fn step(&mut self) -> (r: Result<(), RuntimeError<V>>)
        requires
            old(self).wf(),
        ensures
            final(self).wf(),
            final(self)@.stacks.len() >= 1,
            stepped(old(self)@, final(self)@, r),
    {
        let ghost m = self@;
        let instr = self.codebox.get_instruction(&self.ptr);
        let r = match instr {
            Instruction::Op(c) => self.execute_instruction(c),
            Instruction::Noop => {
                if let ParseMode::Text(_) = self.mode {
                    self.push_value(V::from_u32(32));
                }
                Ok(())
            },
        };
        let ghost mid = self@;
        match r {
            Ok(u) => {
                self.move_to_next();
                proof {
                    if let Instruction::Op(c) = instr {
                        assert(executed(m, c, mid, r));
                        assert(self@ == mid.moved_on());
                        assert(m.at(m.ptr) == Instruction::Op(c));
                    } else {
                        assert(m.at(m.ptr) == Instruction::Noop);
                        assert(self@ == mid.moved_on());
                    }
                }
                Ok(u)
            },
            Err(e) => {
                self.state = State::Done;
                proof {
                    if let Instruction::Op(c) = instr {
                        assert(executed(m, c, mid, r));
                    }
                }
                Err(e)
            },
        }
    }

    /// Runs until the program ends, an error occurs, or `max_steps` steps
    /// have been taken: `Ok(true)` when it ended, `Ok(false)` when it is
    /// still running after `max_steps` steps.
    pub fn run_to_end(&mut self, max_steps: usize) -> (r: Result<bool, RuntimeError<V>>)
        requires
            old(self).wf(),
        ensures
            final(self).wf(),
            r matches Ok(done) ==> {
                &&& done == (final(self)@.state == State::Done)
                &&& exists|k: nat|
                    k <= max_steps && #[trigger] runs(old(self)@, final(self)@, k) && (!done ==> k
                        == max_steps)
            },
            r matches Err(e) ==> final(self)@.state == State::Done && exists|k: nat, mid: Machine<V>|
                k < max_steps && #[trigger] runs(old(self)@, mid, k) && mid.state
                    == State::Running && stepped(mid, final(self)@, Err(e)),
            old(self)@.state == State::Done ==> r == Ok::<bool, RuntimeError<V>>(true)
                && final(self)@ == old(self)@,
    {
        let mut i: usize = 0;
        assert(runs(old(self)@, self@, 0));
        while i < max_steps && !self.is_done()
            invariant
                self.wf(),
                i <= max_steps,
                runs(old(self)@, self@, i as nat),
                old(self)@.state == State::Done ==> self@ == old(self)@,
            decreases max_steps - i,
        {
            let ghost prev = self@;
            let res = self.step();
            match res {
                Ok(()) => {
                    assert(prev.state == State::Running);
                    assert(stepped(prev, self@, res));
                    assert(runs(old(self)@, prev, i as nat));
                    proof {
                        lemma_runs_extend(old(self)@, prev, self@, i as nat, res);
                    }
                },
                Err(e) => {
                    assert(runs(old(self)@, prev, i as nat));
                    return Err(e);
                },
            }
            i = i + 1;
        }
        Ok(self.is_done())
    }
}

} // verus!
