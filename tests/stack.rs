use red_cod::stack::{ProgramStack, Stack};
use red_cod::{Number, StackError};

#[derive(Clone, Copy, Debug, PartialEq)]
struct F(f64);

impl Number for F {
    // The specification side of each operation is the operation itself.
    fn spec_from_u32(n: u32) -> Self {
        Self::from_u32(n)
    }
    fn spec_from_usize(n: usize) -> Self {
        Self::from_usize(n)
    }
    fn spec_negative_one() -> Self {
        Self::negative_one()
    }
    fn spec_plus(self, rhs: Self) -> Self {
        self.plus(rhs)
    }
    fn spec_minus(self, rhs: Self) -> Self {
        self.minus(rhs)
    }
    fn spec_times(self, rhs: Self) -> Self {
        self.times(rhs)
    }
    fn spec_divided_by(self, rhs: Self) -> Self {
        self.divided_by(rhs)
    }
    fn spec_remainder(self, rhs: Self) -> Self {
        self.remainder(rhs)
    }
    fn spec_nearly_equals(self, rhs: Self) -> bool {
        self.nearly_equals(rhs)
    }
    fn spec_greater_than(self, rhs: Self) -> bool {
        self.greater_than(rhs)
    }
    fn spec_less_than(self, rhs: Self) -> bool {
        self.less_than(rhs)
    }
    fn spec_is_zero(self) -> bool {
        self.is_zero()
    }
    fn spec_coordinate(self) -> Option<usize> {
        self.to_coordinate()
    }
    fn spec_code(self) -> Option<u32> {
        self.to_code()
    }
    fn spec_count(self) -> usize {
        self.to_count()
    }
    fn from_u32(n: u32) -> Self {
        F(n as f64)
    }
    fn from_usize(n: usize) -> Self {
        F(n as f64)
    }
    fn negative_one() -> Self {
        F(-1.0)
    }
    fn plus(self, rhs: Self) -> Self {
        F(self.0 + rhs.0)
    }
    fn minus(self, rhs: Self) -> Self {
        F(self.0 - rhs.0)
    }
    fn times(self, rhs: Self) -> Self {
        F(self.0 * rhs.0)
    }
    fn divided_by(self, rhs: Self) -> Self {
        F(self.0 / rhs.0)
    }
    fn remainder(self, rhs: Self) -> Self {
        F(self.0 % rhs.0)
    }
    fn nearly_equals(self, rhs: Self) -> bool {
        (self.0 - rhs.0).abs() < f64::EPSILON
    }
    fn greater_than(self, rhs: Self) -> bool {
        self.0 > rhs.0
    }
    fn less_than(self, rhs: Self) -> bool {
        self.0 < rhs.0
    }
    fn is_zero(self) -> bool {
        self.0 == 0.0
    }
    fn to_coordinate(self) -> Option<usize> {
        if self.0 >= 0.0 && self.0 == self.0.trunc() {
            Some(self.0 as usize)
        } else {
            None
        }
    }
    fn to_code(self) -> Option<u32> {
        let v = self.0;
        if v < 0.0 || v > u32::MAX as f64 || v != v.trunc() {
            None
        } else {
            Some(v as u32)
        }
    }
    fn to_count(self) -> usize {
        self.0 as usize
    }
}

fn stack(vals: &[f64]) -> Stack<F> {
    let mut s = Stack::new();
    for v in vals {
        s.push(F(*v));
    }
    s
}

fn values(s: Stack<F>) -> Vec<f64> {
    s.into_vec().into_iter().map(|v| v.0).collect()
}

#[test]
fn test_into_iterator() {
    let s = stack(&[1f64, 2f64, 3f64]);
    let stack_vec: Vec<_> = values(s);
    assert_eq!(stack_vec, vec![1f64, 2f64, 3f64]);
}

#[test]
fn pop_cases() {
    let mut s = stack(&[]);
    assert_eq!(s.pop(), Err(StackError::Underflow));
    let mut s = stack(&[1.0]);
    assert_eq!(s.pop(), Ok(F(1.0)));
    assert_eq!(values(s), Vec::<f64>::new());
    let mut s = stack(&[3.0, 2.0]);
    assert_eq!(s.pop(), Ok(F(2.0)));
    assert_eq!(values(s), vec![3.0]);
}

type Op = fn(&mut Stack<F>) -> Result<(), StackError>;

fn check_binary(op: Op, a: f64, b: f64, expected: f64) {
    let mut s = stack(&[]);
    assert_eq!(op(&mut s), Err(StackError::Underflow));
    let mut s = stack(&[1.0]);
    assert_eq!(op(&mut s), Err(StackError::Underflow));
    assert_eq!(values(s), Vec::<f64>::new());
    let mut s = stack(&[a, b]);
    assert_eq!(op(&mut s), Ok(()));
    assert_eq!(values(s), vec![expected]);
}

#[test]
fn add_cases() {
    check_binary(Stack::add, 1.0, 2.0, 3.0);
}

#[test]
fn subtract_cases() {
    check_binary(Stack::subtract, 3.0, 1.0, 2.0);
}

#[test]
fn multiply_cases() {
    check_binary(Stack::multiply, 3.0, 2.0, 6.0);
}

#[test]
fn divide_cases() {
    check_binary(Stack::divide, 10.0, 5.0, 2.0);
    check_binary(Stack::divide, 5.0, 10.0, 0.5);
}

#[test]
fn modulo_cases() {
    check_binary(Stack::modulo, 10.0, 3.0, 1.0);
}

#[test]
fn equals_cases() {
    check_binary(Stack::equals, 10.0, 3.0, 0.0);
    check_binary(Stack::equals, 10.0, 10.0, 1.0);
}

#[test]
fn greater_than_cases() {
    check_binary(Stack::greater_than, 1.0, 3.0, 0.0);
    check_binary(Stack::greater_than, 3.0, 3.0, 0.0);
    check_binary(Stack::greater_than, 10.0, 3.0, 1.0);
}

#[test]
fn less_than_cases() {
    check_binary(Stack::less_than, 10.0, 3.0, 0.0);
    check_binary(Stack::less_than, 3.0, 3.0, 0.0);
    check_binary(Stack::less_than, 1.0, 3.0, 1.0);
}

#[test]
fn dup_cases() {
    let mut s = stack(&[]);
    assert_eq!(s.dup(), Err(StackError::Underflow));
    let mut s = stack(&[1.0]);
    assert_eq!(s.dup(), Ok(()));
    assert_eq!(values(s), vec![1.0, 1.0]);
}

#[test]
fn swap2_cases() {
    let mut s = stack(&[]);
    assert_eq!(s.swap(2), Err(StackError::Underflow));
    let mut s = stack(&[1.0]);
    assert_eq!(s.swap(2), Err(StackError::Underflow));
    assert_eq!(values(s), vec![1.0]);
    let mut s = stack(&[1.0, 2.0]);
    assert_eq!(s.swap(2), Ok(()));
    assert_eq!(values(s), vec![2.0, 1.0]);
    let mut s = stack(&[1.0, 2.0, 3.0, 4.0]);
    assert_eq!(s.swap(2), Ok(()));
    assert_eq!(values(s), vec![1.0, 2.0, 4.0, 3.0]);
}

#[test]
fn swap3_cases() {
    let mut s = stack(&[]);
    assert_eq!(s.swap(3), Err(StackError::Underflow));
    let mut s = stack(&[1.0]);
    assert_eq!(s.swap(3), Err(StackError::Underflow));
    assert_eq!(values(s), vec![1.0]);
    let mut s = stack(&[1.0, 2.0]);
    assert_eq!(s.swap(3), Err(StackError::Underflow));
    assert_eq!(values(s), vec![1.0, 2.0]);
    let mut s = stack(&[1.0, 2.0, 3.0, 4.0]);
    assert_eq!(s.swap(3), Ok(()));
    assert_eq!(values(s), vec![1.0, 4.0, 2.0, 3.0]);
}

type Shuffle = fn(&mut Stack<F>);

fn check_shuffle(op: Shuffle, two: Vec<f64>, many: Vec<f64>) {
    let mut s = stack(&[]);
    op(&mut s);
    assert_eq!(values(s), Vec::<f64>::new());
    let mut s = stack(&[1.0]);
    op(&mut s);
    assert_eq!(values(s), vec![1.0]);
    let mut s = stack(&[1.0, 2.0]);
    op(&mut s);
    assert_eq!(values(s), two);
    let mut s = stack(&[1.0, 2.0, 3.0, 4.0]);
    op(&mut s);
    assert_eq!(values(s), many);
}

#[test]
fn shift_right_cases() {
    check_shuffle(Stack::shift_right, vec![2.0, 1.0], vec![4.0, 1.0, 2.0, 3.0]);
}

#[test]
fn shift_left_cases() {
    check_shuffle(Stack::shift_left, vec![2.0, 1.0], vec![2.0, 3.0, 4.0, 1.0]);
}

#[test]
fn reverse_cases() {
    check_shuffle(Stack::reverse, vec![2.0, 1.0], vec![4.0, 3.0, 2.0, 1.0]);
}

#[test]
fn push_len_cases() {
    let mut s = stack(&[]);
    s.push_len();
    assert_eq!(values(s), vec![0.0]);
    let mut s = stack(&[1.0]);
    s.push_len();
    assert_eq!(values(s), vec![1.0, 1.0]);
    let mut s = stack(&[1.0, 2.0, 3.0, 2.0]);
    s.push_len();
    assert_eq!(values(s), vec![1.0, 2.0, 3.0, 2.0, 4.0]);
}

#[test]
fn swap_register_cases() {
    let mut s = stack(&[]);
    assert_eq!(s.swap_register(), Err(StackError::Underflow));
    let mut s = stack(&[1.0, 2.0]);
    assert_eq!(s.swap_register(), Ok(()));
    s.push(F(5.0));
    assert_eq!(s.swap_register(), Ok(()));
    assert_eq!(values(s), vec![1.0, 5.0, 2.0]);
}

#[test]
fn split_cases() {
    let mut s = stack(&[]);
    assert!(s.split().is_err());
    let mut s = stack(&[1.0, 2.0, 3.0, 2.0]);
    let top = s.split().unwrap();
    assert_eq!(values(top), vec![2.0, 3.0]);
    assert_eq!(values(s), vec![1.0]);
    let mut s = stack(&[1.0, 5.0]);
    assert!(s.split().is_err());
}

#[test]
fn reverse_twice_restores() {
    let mut s = stack(&[1.0, 2.0, 3.0]);
    s.reverse();
    s.reverse();
    assert_eq!(values(s), vec![1.0, 2.0, 3.0]);
}

#[test]
fn dup_then_pop_restores() {
    let mut s = stack(&[4.0, 7.0]);
    s.dup().unwrap();
    s.pop().unwrap();
    assert_eq!(values(s), vec![4.0, 7.0]);
}

#[test]
fn open_then_close_restores_base() {
    let mut p: ProgramStack<F> = ProgramStack::new();
    for v in [1.0, 2.0, 3.0, 4.0, 2.0] {
        let mut t = p.take_top();
        t.push(F(v));
        p.put_top(t);
    }
    p.split_stack().unwrap();
    assert_eq!(p.depth(), 2);
    let mut t = p.take_top();
    assert_eq!(t.len(), 2);
    t.swap_register().unwrap();
    p.put_top(t);
    p.drop_stack();
    assert_eq!(p.depth(), 1);
    let base = p.take_top();
    assert_eq!(values(base), vec![1.0, 2.0, 3.0]);
}

#[test]
fn closing_the_base_clears_it() {
    let mut p: ProgramStack<F> = ProgramStack::new();
    let mut t = p.take_top();
    t.push(F(1.0));
    t.push(F(2.0));
    t.swap_register().unwrap();
    p.put_top(t);
    p.drop_stack();
    assert_eq!(p.depth(), 1);
    assert_eq!(p.top_len(), 0);
    let mut t = p.take_top();
    // the register was cleared too: `&` now needs a value
    assert_eq!(t.swap_register(), Err(StackError::Underflow));
}
