//! The stack machine: a stack of substacks, each with its own register.

use crate::number::Number;
use std::collections::VecDeque;
use vstd::prelude::*;

verus! {

broadcast use vstd::std_specs::vecdeque::group_vec_dequeue_axioms;

/// Failures of stack operations.
#[derive(Debug, Clone, Copy, PartialEq, Eq, Structural)]
pub enum StackError {
    /// An operation needed more values than the substack holds.
    Underflow,
}

/// The abstract content of a substack: its values, bottom to top, and its
/// register.
pub struct Substack<T> {
    pub values: Seq<T>,
    pub register: Option<T>,
}

/// A fresh substack holding `values` and an empty register.
pub open spec fn fresh<T>(values: Seq<T>) -> Substack<T> {
    Substack { values, register: None }
}

/// The same substack with other values and the same register.
pub open spec fn with_values<T>(s: Substack<T>, values: Seq<T>) -> Substack<T> {
    Substack { values, register: s.register }
}

/// `s` with its top element moved down to depth `n - 1` (counting the top as
/// depth 0), the others keeping their order: `n - 1` adjacent swaps walking
/// down from the top.
pub open spec fn swap_depth<T>(s: Seq<T>, n: nat) -> Seq<T> {
    if n == 0 {
        s
    } else {
        s.take(s.len() - n).push(s.last()) + s.subrange(s.len() - n, s.len() - 1)
    }
}

/// `s` with its top element moved to the bottom.
pub open spec fn rotated_up<T>(s: Seq<T>) -> Seq<T> {
    if s.len() == 0 {
        s
    } else {
        seq![s.last()] + s.drop_last()
    }
}

/// `s` with its bottom element moved to the top.
pub open spec fn rotated_down<T>(s: Seq<T>) -> Seq<T> {
    if s.len() == 0 {
        s
    } else {
        s.drop_first().push(s[0])
    }
}

/// One substack: values from bottom to top, and a register holding at most
/// one value.
pub struct Stack<T> {
    entries: VecDeque<T>,
    register: Option<T>,
}

impl<T> View for Stack<T> {
    type V = Substack<T>;

    closed spec fn view(&self) -> Substack<T> {
        Substack { values: self.entries@, register: self.register }
    }
}

impl<T: Copy> Stack<T> {
    /// An empty substack with an empty register.
    pub fn new() -> (r: Self)
        ensures
            r@ == fresh(Seq::<T>::empty()),
    {
        Stack { entries: VecDeque::new(), register: None }
    }

    /// The number of values.
    pub fn len(&self) -> (r: usize)
        ensures
            r == self@.values.len(),
    {
        self.entries.len()
    }

    /// Removes and returns the top value.
    pub fn pop(&mut self) -> (r: Result<T, StackError>)
        ensures
            match r {
                Ok(v) => {
                    &&& old(self)@.values.len() > 0
                    &&& v == old(self)@.values.last()
                    &&& final(self)@ == with_values(old(self)@, old(self)@.values.drop_last())
                },
                Err(e) => {
                    &&& e == StackError::Underflow
                    &&& old(self)@.values.len() == 0
                    &&& final(self)@ == old(self)@
                },
            },
    {
        match self.entries.pop_back() {
            Some(v) => Ok(v),
            None => Err(StackError::Underflow),
        }
    }

    /// Puts `val` on top.
    pub fn push(&mut self, val: T)
        ensures
            final(self)@ == with_values(old(self)@, old(self)@.values.push(val)),
    {
        self.entries.push_back(val);
    }

    /// Removes every value and empties the register.
    pub fn clear(&mut self)
        ensures
            final(self)@ == fresh(Seq::<T>::empty()),
    {
        self.register = None;
        self.entries.clear();
    }

    /// Moves the top `n` values, in their order, into a new substack.
    pub fn take_top(&mut self, n: usize) -> (r: Result<Self, StackError>)
        ensures
            match r {
                Ok(s) => {
                    &&& n <= old(self)@.values.len()
                    &&& final(self)@ == with_values(
                        old(self)@,
                        old(self)@.values.take(old(self)@.values.len() - n),
                    )
                    &&& s@ == fresh(old(self)@.values.skip(old(self)@.values.len() - n))
                },
                Err(e) => {
                    &&& e == StackError::Underflow
                    &&& n > old(self)@.values.len()
                    &&& final(self)@ == old(self)@
                },
            },
    {
        let len = self.entries.len();
        if len < n {
            Err(StackError::Underflow)
        } else {
            let moved = self.entries.split_off(len - n);
            Ok(Stack { entries: moved, register: None })
        }
    }

    /// Appends the values of `other`, in order, on top; the register of
    /// `other` is dropped.
    pub fn extend(&mut self, other: Self)
        ensures
            final(self)@ == with_values(old(self)@, old(self)@.values + other@.values),
    {
        let mut moved = other.entries;
        self.entries.append(&mut moved);
    }

    /// `:` pushes a copy of the top value.
    pub fn dup(&mut self) -> (r: Result<(), StackError>)
        ensures
            r is Err <==> old(self)@.values.len() == 0,
            r is Ok ==> final(self)@ == with_values(
                old(self)@,
                old(self)@.values.push(old(self)@.values.last()),
            ),
            r is Err ==> final(self)@ == old(self)@ && r == Err::<(), _>(StackError::Underflow),
    {
        let len = self.entries.len();
        if len == 0 {
            return Err(StackError::Underflow);
        }
        let val = self.entries[len - 1];
        self.entries.push_back(val);
        Ok(())
    }

    /// `$` (n = 2) and `@` (n = 3): moves the top value down to depth
    /// `n - 1`, by `n - 1` adjacent swaps walking down from the top.
    pub fn swap(&mut self, n: usize) -> (r: Result<(), StackError>)
        ensures
            r is Err <==> n > old(self)@.values.len(),
            r is Ok ==> final(self)@ == with_values(
                old(self)@,
                swap_depth(old(self)@.values, n as nat),
            ),
            r is Err ==> final(self)@ == old(self)@ && r == Err::<(), _>(StackError::Underflow),
    {
        let len = self.entries.len();
        if n > len {
            return Err(StackError::Underflow);
        }
        if n > 0 {
            let ghost s = self.entries@;
            let top = self.entries.pop_back().unwrap();
            self.entries.insert(len - n, top);
            proof {
                assert(self.entries@ =~= swap_depth(s, n as nat));
            }
        }
        Ok(())
    }

    /// `}` moves the top value to the bottom.
    pub fn shift_right(&mut self)
        ensures
            final(self)@ == with_values(old(self)@, rotated_up(old(self)@.values)),
    {
        if let Some(val) = self.entries.pop_back() {
            self.entries.push_front(val);
        }
    }

    /// `{` moves the bottom value to the top.
    pub fn shift_left(&mut self)
        ensures
            final(self)@ == with_values(old(self)@, rotated_down(old(self)@.values)),
    {
        if let Some(val) = self.entries.pop_front() {
            self.entries.push_back(val);
        }
    }

    /// `r` reverses the order of the values.
    pub fn reverse(&mut self)
        ensures
            final(self)@ == with_values(old(self)@, old(self)@.values.reverse()),
    {
        let ghost s = self.entries@;
        let ghost reg = self.register;
        let mut reversed: VecDeque<T> = VecDeque::new();
        while self.entries.len() > 0
            invariant
                self.register == reg,
                self.entries@ == s.take(self.entries@.len() as int),
                self.entries@.len() <= s.len(),
                reversed@.len() == s.len() - self.entries@.len(),
                forall|i: int|
                    0 <= i < reversed@.len() ==> #[trigger] reversed@[i] == s[s.len() - 1 - i],
            decreases self.entries@.len(),
        {
            let val = self.entries.pop_back().unwrap();
            reversed.push_back(val);
        }
        self.entries = reversed;
        assert(self.entries@ =~= s.reverse());
    }

    /// `&`: with an empty register, moves the top value into it; otherwise
    /// pushes the register's value and empties it.
    pub fn swap_register(&mut self) -> (r: Result<(), StackError>)
        ensures
            match old(self)@.register {
                Some(v) => r is Ok && final(self)@ == fresh(old(self)@.values.push(v)),
                None => if old(self)@.values.len() == 0 {
                    r == Err::<(), _>(StackError::Underflow) && final(self)@ == old(self)@
                } else {
                    r is Ok && final(self)@ == Substack {
                        values: old(self)@.values.drop_last(),
                        register: Some(old(self)@.values.last()),
                    }
                },
            },
    {
        match self.register {
            Some(val) => {
                self.entries.push_back(val);
                self.register = None;
                Ok(())
            },
            None => {
                let val = self.pop()?;
                self.register = Some(val);
                Ok(())
            },
        }
    }

    /// The values, bottom to top.
    pub fn into_vec(self) -> (r: Vec<T>)
        ensures
            r@ == self@.values,
    {
        let mut entries = self.entries;
        let ghost s = entries@;
        let mut out: Vec<T> = Vec::new();
        while entries.len() > 0
            invariant
                out@ + entries@ == s,
            decreases entries@.len(),
        {
            let val = entries.pop_front().unwrap();
            proof {
                assert(out@.push(val) + entries@ =~= s);
            }
            out.push(val);
        }
        assert(out@ =~= s);
        out
    }
}

impl<T: Number> Stack<T> {
    /// Pops `x`, then `y`, and pushes the result of the binary operation
    /// `op` on them (see `binary_outcome`).
    fn binary(&mut self, op: char) -> (r: Result<(), StackError>)
        requires
            is_binary_op(op),
        ensures
            binary_outcome(op, old(self)@, final(self)@, r),
    {
        let x = self.pop()?;
        let y = match self.pop() {
            Ok(y) => y,
            Err(e) => {
                assert(self@.values =~= Seq::<T>::empty());
                return Err(e);
            },
        };
        let v = match op {
            '+' => y.plus(x),
            '-' => y.minus(x),
            '*' => y.times(x),
            ',' => y.divided_by(x),
            '%' => y.remainder(x),
            '=' => T::from_u32(if y.nearly_equals(x) { 1 } else { 0 }),
            ')' => T::from_u32(if y.greater_than(x) { 1 } else { 0 }),
            _ => T::from_u32(if y.less_than(x) { 1 } else { 0 }),
        };
        self.push(v);
        proof {
            let s = old(self)@.values;
            assert(s.drop_last().drop_last() =~= s.take(s.len() - 2));
        }
        Ok(())
    }

    /// `+` replaces `y` and `x` (the top) by `y + x`.
    pub fn add(&mut self) -> (r: Result<(), StackError>)
        ensures
            binary_outcome('+', old(self)@, final(self)@, r),
    {
        self.binary('+')
    }

    /// `-` replaces `y` and `x` (the top) by `y - x`.
    pub fn subtract(&mut self) -> (r: Result<(), StackError>)
        ensures
            binary_outcome('-', old(self)@, final(self)@, r),
    {
        self.binary('-')
    }

    /// `*` replaces `y` and `x` (the top) by `y * x`.
    pub fn multiply(&mut self) -> (r: Result<(), StackError>)
        ensures
            binary_outcome('*', old(self)@, final(self)@, r),
    {
        self.binary('*')
    }

    /// `,` replaces `y` and `x` (the top) by `y / x`.
    pub fn divide(&mut self) -> (r: Result<(), StackError>)
        ensures
            binary_outcome(',', old(self)@, final(self)@, r),
    {
        self.binary(',')
    }

    /// `%` replaces `y` and `x` (the top) by the remainder of `y / x`.
    pub fn modulo(&mut self) -> (r: Result<(), StackError>)
        ensures
            binary_outcome('%', old(self)@, final(self)@, r),
    {
        self.binary('%')
    }

    /// `=` replaces `y` and `x` (the top) by 1 when they are nearly equal,
    /// else by 0.
    pub fn equals(&mut self) -> (r: Result<(), StackError>)
        ensures
            binary_outcome('=', old(self)@, final(self)@, r),
    {
        self.binary('=')
    }

    /// `)` replaces `y` and `x` (the top) by 1 when `y > x`, else by 0.
    pub fn greater_than(&mut self) -> (r: Result<(), StackError>)
        ensures
            binary_outcome(')', old(self)@, final(self)@, r),
    {
        self.binary(')')
    }

    /// `(` replaces `y` and `x` (the top) by 1 when `y < x`, else by 0.
    pub fn less_than(&mut self) -> (r: Result<(), StackError>)
        ensures
            binary_outcome('(', old(self)@, final(self)@, r),
    {
        self.binary('(')
    }

    /// `l` pushes the number of values.
    pub fn push_len(&mut self)
        ensures
            final(self)@ == with_values(
                old(self)@,
                old(self)@.values.push(T::spec_from_usize(old(self)@.values.len() as usize)),
            ),
    {
        let n = self.entries.len();
        self.entries.push_back(T::from_usize(n));
    }

    /// `[` on one substack: pops a count `n`, then moves the top `n`
    /// values into a new substack. Fails when the substack is empty, or
    /// when fewer than `n` values remain below the count (which is then
    /// consumed).
    pub fn split(&mut self) -> (r: Result<Self, StackError>)
        ensures
            old(self)@.values.len() == 0 ==> r is Err && final(self)@ == old(self)@,
            old(self)@.values.len() > 0 ==> split_outcome(
                old(self)@,
                old(self)@.values.last().spec_count() as nat,
                final(self)@,
                r,
            ),
    {
        let count = self.pop()?;
        let n = count.to_count();
        self.take_top(n)
    }
}

/// Whether `c` replaces the top two values by one.
pub open spec fn is_binary_op(c: char) -> bool {
    c == '+' || c == '-' || c == '*' || c == ',' || c == '%' || c == '=' || c == ')' || c == '('
}

/// The value that the binary operation `c` computes from `y` and `x` (`x`
/// the one that was on top): comparisons give 1 or 0.
pub open spec fn binary_result<T: Number>(c: char, y: T, x: T) -> T {
    if c == '+' {
        y.spec_plus(x)
    } else if c == '-' {
        y.spec_minus(x)
    } else if c == '*' {
        y.spec_times(x)
    } else if c == ',' {
        y.spec_divided_by(x)
    } else if c == '%' {
        y.spec_remainder(x)
    } else if c == '=' {
        T::spec_from_u32(if y.spec_nearly_equals(x) { 1 } else { 0 })
    } else if c == ')' {
        T::spec_from_u32(if y.spec_greater_than(x) { 1 } else { 0 })
    } else {
        T::spec_from_u32(if y.spec_less_than(x) { 1 } else { 0 })
    }
}

/// What the binary operation `c` does to the substack `old`: `x` is popped,
/// then `y`, and their result pushed. With one value, that value is popped
/// before the underflow; with none, nothing changes.
pub open spec fn binary_outcome<T: Number>(
    c: char,
    old: Substack<T>,
    new: Substack<T>,
    r: Result<(), StackError>,
) -> bool {
    let s = old.values;
    if s.len() == 0 {
        r == Err::<(), _>(StackError::Underflow) && new == old
    } else if s.len() == 1 {
        r == Err::<(), _>(StackError::Underflow) && new == with_values(old, Seq::empty())
    } else {
        r is Ok && new == with_values(
            old,
            s.take(s.len() - 2).push(binary_result(c, s[s.len() - 2], s.last())),
        )
    }
}

/// What `[` does to a non-empty substack `old` when its top value reads as
/// the count `n`: the count is consumed, and either the `n` values below it
/// move to a fresh substack `r`, or there are fewer and `r` is an underflow.
pub open spec fn split_outcome<T>(
    old: Substack<T>,
    n: nat,
    new: Substack<T>,
    r: Result<Stack<T>, StackError>,
) -> bool {
    let rest = old.values.drop_last();
    match r {
        Ok(s) => {
            &&& n <= rest.len()
            &&& new == with_values(old, rest.take(rest.len() - n))
            &&& s@ == fresh(rest.skip(rest.len() - n))
        },
        Err(e) => {
            &&& e == StackError::Underflow
            &&& n > rest.len()
            &&& new == with_values(old, rest)
        },
    }
}


/// `s` with the count on top of its current substack consumed.
pub open spec fn count_popped<T>(s: Seq<Substack<T>>) -> Seq<Substack<T>> {
    let top = s.last();
    s.update(s.len() - 1, with_values(top, top.values.drop_last()))
}

/// `s` with the top `n` values of its current substack moved, in order, into
/// a fresh substack pushed on top.
pub open spec fn opened<T>(s: Seq<Substack<T>>, n: nat) -> Seq<Substack<T>> {
    let top = s.last();
    let keep = top.values.len() - n;
    s.update(s.len() - 1, with_values(top, top.values.take(keep))).push(
        fresh(top.values.skip(keep)),
    )
}

/// `s` after `]`: the current substack's values are appended to the one
/// below and its register is dropped; a lone base substack is emptied
/// instead, register included.
pub open spec fn closed<T>(s: Seq<Substack<T>>) -> Seq<Substack<T>> {
    if s.len() >= 2 {
        let lower = s[s.len() - 2];
        s.drop_last().update(s.len() - 2, with_values(lower, lower.values + s.last().values))
    } else {
        seq![fresh(Seq::<T>::empty())]
    }
}

/// `s` with the register of its current substack holding `held`.
pub open spec fn with_top_register<T>(s: Seq<Substack<T>>, held: Option<T>) -> Seq<Substack<T>> {
    s.update(s.len() - 1, Substack { values: s.last().values, register: held })
}

/// What `[` does to the machine `old` when the count on top reads as `n`.
pub open spec fn split_stack_outcome<T>(
    old: Seq<Substack<T>>,
    n: nat,
    new: Seq<Substack<T>>,
    r: Result<(), StackError>,
) -> bool {
    let popped = count_popped(old);
    match r {
        Ok(_) => n <= popped.last().values.len() && new == opened(popped, n),
        Err(e) => e == StackError::Underflow && n > popped.last().values.len() && new == popped,
    }
}

/// The operand store: a non-empty stack of substacks, the last one current.
pub struct ProgramStack<T> {
    stacks: Vec<Stack<T>>,
}

impl<T> View for ProgramStack<T> {
    type V = Seq<Substack<T>>;

    closed spec fn view(&self) -> Seq<Substack<T>> {
        Seq::new(self.stacks@.len(), |i: int| self.stacks@[i]@)
    }
}

impl<T: Copy> ProgramStack<T> {
    /// The machine always holds at least its base substack.
    pub open spec fn wf(&self) -> bool {
        self@.len() >= 1
    }

    /// A machine holding one empty substack.
    pub fn new() -> (r: Self)
        ensures
            r@ == seq![fresh(Seq::<T>::empty())],
            r.wf(),
    {
        let mut stacks: Vec<Stack<T>> = Vec::new();
        stacks.push(Stack::new());
        let r = ProgramStack { stacks };
        assert(r@ =~= seq![fresh(Seq::<T>::empty())]);
        r
    }

    /// The number of substacks.
    pub fn depth(&self) -> (r: usize)
        ensures
            r == self@.len(),
    {
        self.stacks.len()
    }

    /// The substacks themselves, base first.
    pub closed spec fn substacks(&self) -> Seq<Stack<T>> {
        self.stacks@
    }

    /// The current substack, to operate on.
    fn top(&mut self) -> (r: &mut Stack<T>)
        requires
            old(self).wf(),
        ensures
            *r == old(self).substacks().last(),
            final(self).substacks() == old(self).substacks().update(
                old(self).substacks().len() - 1,
                *final(r),
            ),
    {
        let n = self.stacks.len();
        &mut self.stacks[n - 1]
    }

    /// The number of values on the current substack.
    pub fn top_len(&self) -> (r: usize)
        requires
            self.wf(),
        ensures
            r == self@.last().values.len(),
    {
        self.stacks[self.stacks.len() - 1].len()
    }

    /// Takes the current substack out, to operate on it; `put_top` puts it
    /// back.
    pub fn take_top(&mut self) -> (r: Stack<T>)
        requires
            old(self).wf(),
        ensures
            r == old(self).substacks().last(),
            final(self).substacks() == old(self).substacks().drop_last(),
    {
        self.stacks.pop().unwrap()
    }

    /// Puts `s` on top as the current substack.
    pub fn put_top(&mut self, s: Stack<T>)
        ensures
            final(self).substacks() == old(self).substacks().push(s),
    {
        self.stacks.push(s);
    }

    /// Taking the current substack out and putting `s` back changes only the
    /// last substack of the view.
    pub proof fn lemma_top_replaced(old: Self, new: Self, s: Stack<T>)
        requires
            old.wf(),
            new.substacks() == old.substacks().drop_last().push(s),
        ensures
            new@ == old@.update(old@.len() - 1, s@),
            new@.last() == s@,
            old@.last() == old.substacks().last()@,
            new.wf(),
    {
        assert(new@ =~= old@.update(old@.len() - 1, s@));
    }

    /// `]`: closes the current substack (see `closed`).
    pub fn drop_stack(&mut self)
        requires
            old(self).wf(),
        ensures
            final(self)@ == closed(old(self)@),
            final(self).wf(),
    {
        let n = self.stacks.len();
        if n >= 2 {
            let top = self.stacks.pop().unwrap();
            let lower = self.top();
            lower.extend(top);
            assert(self@ =~= closed(old(self)@));
        } else {
            let base = self.top();
            base.clear();
            assert(self@ =~= closed(old(self)@));
        }
    }
}

impl<T: Number> ProgramStack<T> {
    /// `[`: pops a count `n` from the current substack and moves the `n`
    /// values below it into a new substack on top.
    pub fn split_stack(&mut self) -> (r: Result<(), StackError>)
        requires
            old(self).wf(),
        ensures
            final(self).wf(),
            old(self)@.last().values.len() == 0 ==> r is Err && final(self)@ == old(self)@,
            old(self)@.last().values.len() > 0 ==> split_stack_outcome(
                old(self)@,
                old(self)@.last().values.last().spec_count() as nat,
                final(self)@,
                r,
            ),
    {
        let ghost before = *self;
        let mut top = self.take_top();
        let split = top.split();
        let ghost after = top;
        self.put_top(top);
        let ghost mid = *self;
        proof {
            Self::lemma_top_replaced(before, mid, after);
        }
        proof {
            if before@.last().values.len() == 0 {
                assert(self@ =~= before@);
            }
        }
        let ghost n = before@.last().values.last().spec_count() as nat;
        match split {
            Ok(s) => {
                self.stacks.push(s);
                assert(self@ =~= opened(count_popped(before@), n));
                assert(split_stack_outcome(before@, n, self@, Ok(())));
                Ok(())
            },
            Err(e) => {
                proof {
                    if before@.last().values.len() > 0 {
                        assert(self@ =~= count_popped(before@));
                        assert(split_stack_outcome(before@, n, self@, Err(e)));
                    }
                }
                Err(e)
            },
        }
    }
}

/// Opening a substack with `[` and closing it with `]` gives back the
/// machine it was opened on, values in the same order (so the same
/// multiset), whatever the new substack's register held in between: that
/// register is lost.
pub proof fn lemma_open_then_close<T>(s: Seq<Substack<T>>, n: nat, held: Option<T>)
    requires
        s.len() >= 1,
        n <= s.last().values.len(),
    ensures
        closed(with_top_register(opened(s, n), held)) == s,
        closed(with_top_register(opened(s, n), held)).last().values.to_multiset()
            == s.last().values.to_multiset(),
{
    let top = s.last();
    let keep = top.values.len() - n;
    assert(top.values.take(keep) + top.values.skip(keep) =~= top.values);
    assert(closed(with_top_register(opened(s, n), held)) =~= s);
}

/// `r` twice leaves a substack as it was.
pub proof fn lemma_reverse_twice<T>(s: Substack<T>)
    ensures
        with_values(with_values(s, s.values.reverse()), s.values.reverse().reverse()) == s,
{
    assert(s.values.reverse().reverse() =~= s.values);
}

/// `:` followed by `~` leaves a non-empty substack as it was.
pub proof fn lemma_dup_then_pop<T>(s: Substack<T>)
    requires
        s.values.len() > 0,
    ensures
        ({
            let duplicated = with_values(s, s.values.push(s.values.last()));
            with_values(duplicated, duplicated.values.drop_last()) == s
        }),
{
    assert(s.values.push(s.values.last()).drop_last() =~= s.values);
}

} // verus!
