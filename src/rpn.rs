//! A stack calculator over integers and booleans, in reverse Polish notation.
use vstd::prelude::*;

verus! {

/// An element of the stack: an integer or a boolean.
#[derive(PartialEq, Eq, Structural, PartialOrd, Ord, Debug, Clone, Copy)]
pub enum Elt {
    Int(i32),
    Bool(bool),
}

/// Declares `std::io::Error`, carried opaquely by `Error::IO`.
#[verifier::external_type_specification]
#[verifier::external_body]
pub struct ExIoError(std::io::Error);

/// A calculator error.
#[derive(Debug)]
pub enum Error {
    /// Tried to pop from an empty stack.
    Underflow,
    /// Tried to operate on values of the wrong kind (e.g. 4 + true).
    Type,
    /// Unable to parse the input.
    Syntax,
    /// Reading input or writing output failed.
    IO(std::io::Error),
    /// The user quit (with `quit`).
    Quit,
}

/// A calculator operation.
#[derive(PartialEq, Eq, Structural, Debug, Clone, Copy)]
pub enum Op {
    /// Adds two numbers: pop x, pop y, push x + y.
    Add,
    /// Checks equality of two numbers: pop x, pop y, push x == y.
    Eq,
    /// Negates a value: pop x, push ~x.
    Neg,
    /// Swaps two values: pop x, pop y, push x, push y.
    Swap,
    /// Draws a random number: pop x, push a random number in [0, x).
    Rand,
    /// Quits the calculator.
    Quit,
}

/// The kind of an error, as contracts see it.
pub enum Fault {
    Underflow,
    Type,
    Syntax,
    IO,
    Quit,
}

pub open spec fn fault_of<T>(r: Result<T, Error>) -> Option<Fault> {
    match r {
        Ok(_) => None,
        Err(Error::Underflow) => Some(Fault::Underflow),
        Err(Error::Type) => Some(Fault::Type),
        Err(Error::Syntax) => Some(Fault::Syntax),
        Err(Error::IO(_)) => Some(Fault::IO),
        Err(Error::Quit) => Some(Fault::Quit),
    }
}

/// Where a random draw for bound `k` lands: in `[0, k)` for a positive `k`,
/// in `(k, 0]` for a negative one, and at `0` for `0`.
pub open spec fn in_rand_range(k: i32, v: i32) -> bool {
    if k > 0 {
        0 <= v < k
    } else if k < 0 {
        k < v <= 0
    } else {
        v == 0
    }
}

/// The stack and the error kind that `op` leaves behind on stack `s`; the
/// integer that `Rand` pushes is `drawn`.
pub open spec fn eval_spec(s: Seq<Elt>, op: Op, drawn: i32) -> (Seq<Elt>, Option<Fault>) {
    let n = s.len();
    match op {
        Op::Quit => (s, Some(Fault::Quit)),
        Op::Neg | Op::Rand => {
            if n == 0 {
                (s, Some(Fault::Underflow))
            } else {
                let rest = s.drop_last();
                match (op, s.last()) {
                    (Op::Neg, Elt::Int(x)) => (rest.push(Elt::Int((-x) as i32)), None),
                    (Op::Neg, Elt::Bool(b)) => (rest.push(Elt::Bool(!b)), None),
                    (_, Elt::Int(_)) => (rest.push(Elt::Int(drawn)), None),
                    (_, Elt::Bool(_)) => (rest, Some(Fault::Type)),
                }
            }
        },
        _ => {
            if n == 0 {
                (s, Some(Fault::Underflow))
            } else if n == 1 {
                (Seq::empty(), Some(Fault::Underflow))
            } else {
                let x = s[n - 1];
                let y = s[n - 2];
                let rest = s.take(n - 2);
                match (op, x, y) {
                    (Op::Swap, _, _) => (rest.push(x).push(y), None),
                    (Op::Add, Elt::Int(a), Elt::Int(b)) => (rest.push(Elt::Int((a + b) as i32)), None),
                    (Op::Eq, Elt::Int(a), Elt::Int(b)) => (rest.push(Elt::Bool(a == b)), None),
                    _ => (rest, Some(Fault::Type)),
                }
            }
        },
    }
}

/// `op` on stack `s` stays within `i32`: an addition of two integers fits,
/// and a negated integer is not `i32::MIN`.
pub open spec fn eval_fits(s: Seq<Elt>, op: Op) -> bool {
    let n = s.len();
    &&& (op == Op::Add && n >= 2) ==> match (s[n - 1], s[n - 2]) {
        (Elt::Int(a), Elt::Int(b)) => i32::MIN <= a + b <= i32::MAX,
        _ => true,
    }
    &&& (op == Op::Neg && n >= 1) ==> s[n - 1] != Elt::Int(i32::MIN)
}

/// The draw that `eval` may have used: for `Rand` on an integer bound, any
/// value in range; otherwise none is used.
pub open spec fn valid_draw(s: Seq<Elt>, op: Op, v: i32) -> bool {
    if op == Op::Rand && s.len() > 0 && s.last() is Int {
        in_rand_range(s.last()->Int_0, v)
    } else {
        v == 0
    }
}

/// Relies on `rand::random`: a value drawn from the thread-local generator.
/// Nothing is known of which value comes.
pub assume_specification<T>[ rand::random::<T> ]() -> T
    where
        rand::distributions::Standard: rand::distributions::Distribution<T>,
;

/// Maps a uniformly drawn `draw` into the range for bound `k`.
pub fn rand_below(k: i32, draw: u32) -> (v: i32)
    ensures
        in_rand_range(k, v),
        k > 0 ==> v == draw % (k as u32),
        k < 0 ==> v == -((draw % ((-(k as int)) as u32)) as int),
{
    if k > 0 {
        (draw % (k as u32)) as i32
    } else if k < 0 {
        let m: u32 = (-(k as i64)) as u32;
        let r: u32 = draw % m;
        (-(r as i64)) as i32
    } else {
        0
    }
}

/// A calculator stack.
pub struct Stack(Vec<Elt>);

impl View for Stack {
    type V = Seq<Elt>;

    closed spec fn view(&self) -> Seq<Elt> {
        self.0@
    }
}

impl Stack {
    /// An empty stack.
    pub fn new() -> (r: Stack)
        ensures
            r@ == Seq::<Elt>::empty(),
    {
        Stack(Vec::new())
    }

    /// Pushes a value; never fails.
    pub fn push(&mut self, val: Elt) -> (r: Result<(), Error>)
        ensures
            final(self)@ == old(self)@.push(val),
            r is Ok,
    {
        self.0.push(val);
        Ok(())
    }

    /// Pops the top value, or fails with `Underflow` on an empty stack.
    pub fn pop(&mut self) -> (r: Result<Elt, Error>)
        ensures
            old(self)@.len() == 0 ==> fault_of(r) == Some(Fault::Underflow) && final(self)@ == old(
                self,
            )@,
            old(self)@.len() > 0 ==> r == Ok::<Elt, Error>(old(self)@.last()) && final(self)@ == old(
                self,
            )@.drop_last(),
    {
        match self.0.pop() {
            Some(val) => Ok(val),
            None => Err(Error::Underflow),
        }
    }

    /// The value `depth` places below the top (`0` is the top), if the
    /// stack is that deep; the stack is left as it is.
    pub fn peek(&self, depth: usize) -> (r: Option<Elt>)
        ensures
            depth < self@.len() ==> r == Some(self@[self@.len() - 1 - depth]),
            depth >= self@.len() ==> r is None,
    {
        if depth < self.0.len() {
            Some(self.0[self.0.len() - 1 - depth])
        } else {
            None
        }
    }

    /// Whether `op` on this stack stays within `i32`, so that `eval` may be
    /// called.
    pub fn can_eval(&self, op: Op) -> (r: bool)
        ensures
            r == eval_fits(self@, op),
    {
        let n = self.0.len();
        match op {
            Op::Add => {
                if n < 2 {
                    true
                } else {
                    match (self.0[n - 1], self.0[n - 2]) {
                        (Elt::Int(a), Elt::Int(b)) => {
                            let sum: i64 = a as i64 + b as i64;
                            i32::MIN as i64 <= sum && sum <= i32::MAX as i64
                        },
                        _ => true,
                    }
                }
            },
            Op::Neg => n == 0 || self.0[n - 1] != Elt::Int(i32::MIN),
            _ => true,
        }
    }

    fn add(&self, x: Elt, y: Elt) -> (r: Result<Elt, Error>)
        requires
            x is Int && y is Int ==> i32::MIN <= x->Int_0 + y->Int_0 <= i32::MAX,
        ensures
            x is Int && y is Int ==> r == Ok::<Elt, Error>(Elt::Int((x->Int_0 + y->Int_0) as i32)),
            !(x is Int && y is Int) ==> fault_of(r) == Some(Fault::Type),
    {
        if let Elt::Int(number_x) = x {
            if let Elt::Int(number_y) = y {
                Ok(Elt::Int(number_x + number_y))
            } else {
                Err(Error::Type)
            }
        } else {
            Err(Error::Type)
        }
    }

    fn eq(&self, x: Elt, y: Elt) -> (r: Result<Elt, Error>)
        ensures
            x is Int && y is Int ==> r == Ok::<Elt, Error>(Elt::Bool(x->Int_0 == y->Int_0)),
            !(x is Int && y is Int) ==> fault_of(r) == Some(Fault::Type),
    {
        if let Elt::Int(number_x) = x {
            if let Elt::Int(number_y) = y {
                Ok(Elt::Bool(number_x == number_y))
            } else {
                Err(Error::Type)
            }
        } else {
            Err(Error::Type)
        }
    }

    fn neg(&self, x: Elt) -> (r: Result<Elt, Error>)
        requires
            x != Elt::Int(i32::MIN),
        ensures
            r == Ok::<Elt, Error>(
                match x {
                    Elt::Int(n) => Elt::Int((-n) as i32),
                    Elt::Bool(b) => Elt::Bool(!b),
                },
            ),
    {
        match x {
            Elt::Int(number_x) => Ok(Elt::Int(-number_x)),
            Elt::Bool(bool_x) => Ok(Elt::Bool(!bool_x)),
        }
    }

    fn draw(&mut self, x: Elt) -> (r: Result<Elt, Error>)
        ensures
            *final(self) == *old(self),
            x is Int ==> r is Ok && r->Ok_0 is Int && in_rand_range(x->Int_0, r->Ok_0->Int_0),
            x is Bool ==> fault_of(r) == Some(Fault::Type),
    {
        if let Elt::Int(number_x) = x {
            let draw: u32 = rand::random::<u32>();
            Ok(Elt::Int(rand_below(number_x, draw)))
        } else {
            Err(Error::Type)
        }
    }

    fn swap(&mut self, x: Elt, y: Elt) -> (r: Result<Elt, Error>)
        ensures
            final(self)@ == old(self)@.push(x).push(y),
            r is Ok,
    {
        self.push(x);
        self.push(y);
        Ok(Elt::Bool(true))
    }

    /// Evaluates `op` on the values at the top of the stack.
    pub fn eval(&mut self, op: Op) -> (r: Result<(), Error>)
        requires
            eval_fits(old(self)@, op),
        ensures
            exists|v: i32|
                valid_draw(old(self)@, op, v) && #[trigger] eval_spec(old(self)@, op, v) == (
                    final(self)@,
                    fault_of(r),
                ),
    {
        let ghost s = self@;
        let ghost n = s.len();
        let result = match op {
            Op::Add => {
                let x = self.pop();
                let y = self.pop();
                match (x, y) {
                    (Ok(x), Ok(y)) => self.add(x, y),
                    (Err(e), _) => Err(e),
                    (_, Err(e)) => Err(e),
                }
            },
            Op::Eq => {
                let x = self.pop();
                let y = self.pop();
                match (x, y) {
                    (Ok(x), Ok(y)) => self.eq(x, y),
                    (Err(e), _) => Err(e),
                    (_, Err(e)) => Err(e),
                }
            },
            Op::Neg => {
                let x = self.pop();
                match x {
                    Ok(x) => self.neg(x),
                    Err(e) => Err(e),
                }
            },
            Op::Quit => Err(Error::Quit),
            Op::Rand => {
                let x = self.pop();
                match x {
                    Ok(x) => self.draw(x),
                    Err(e) => Err(e),
                }
            },
            Op::Swap => {
                let x = self.pop();
                let y = self.pop();
                match (x, y) {
                    (Ok(x), Ok(y)) => self.swap(x, y),
                    (Err(e), _) => Err(e),
                    (_, Err(e)) => Err(e),
                }
            },
        };
        let ghost mid = self@;
        let r = match (result, op) {
            (Ok(_), Op::Swap) => Ok(()),
            (Ok(val), _) => self.push(val),
            (Err(err), _) => Err(err),
        };
        proof {
            let v: i32 = if op == Op::Rand && n > 0 && s.last() is Int {
                self@.last()->Int_0
            } else {
                0
            };
            if n >= 2 {
                assert(s.drop_last().drop_last() =~= s.take(n - 2));
                assert(s.drop_last().last() == s[n - 2]);
            }
            if n == 1 {
                assert(s.drop_last() =~= Seq::<Elt>::empty());
            }
            assert(valid_draw(s, op, v));
            assert(eval_spec(s, op, v).0 =~= self@);
            assert(eval_spec(s, op, v) == (self@, fault_of(r)));
        }
        r
    }
}

} // verus!
