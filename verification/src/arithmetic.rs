//! The arithmetic that a graph leaves to its host.
//!
//! Sums, products, quotients, powers, roots and sines of samples round, and
//! rounding is the business of the machine's floating-point unit. A graph asks
//! for each of them through a [`Unit`], which passes the request on to the
//! [`Arithmetic`] that its caller has put in, and keeps a journal of the
//! requests. The contracts of a graph say which requests it makes, in which
//! order, and what it does with the answers, whatever the answers are.

use vstd::prelude::*;

verus! {

/// One request for arithmetic, with its operands in their order.
#[derive(Debug, PartialEq)]
pub enum Operation<T> {
    /// The sum of the two.
    Add(T, T),
    /// The first less the second.
    Subtract(T, T),
    /// The product of the two.
    Multiply(T, T),
    /// The first over the second.
    Divide(T, T),
    /// The first raised to the second.
    Pow(T, T),
    /// The square root.
    Sqrt(T),
    /// The sine, of an angle in radians.
    Sin(T),
}

/// Something that answers [`Operation`]s. Nothing is asked of its answers:
/// what a graph puts out is stated in terms of them.
pub trait Arithmetic<T> {
    /// The answer to one request.
    fn perform(&self, operation: Operation<T>) -> T;
}

/// Whether `answer` is among the answers to `operation`.
pub open spec fn gives<T>(
    answers: spec_fn(Operation<T>, T) -> bool,
    operation: Operation<T>,
    answer: T,
) -> bool {
    answers(operation, answer)
}

/// Whether a relation between requests and answers leaves no choice: no
/// request has two answers.
pub open spec fn single_valued<T>(answers: spec_fn(Operation<T>, T) -> bool) -> bool {
    forall|operation: Operation<T>, a: T, b: T|
        #![trigger gives(answers, operation, a), gives(answers, operation, b)]
        gives(answers, operation, a) && gives(answers, operation, b) ==> a == b
}

/// An arithmetic at work for a graph, with the journal of what it has been
/// asked. The journal is there for the contracts only and takes no room.
pub struct Unit<T, A: Arithmetic<T>> {
    arithmetic: A,
    journal: Ghost<Seq<Operation<T>>>,
}

impl<T, A: Arithmetic<T>> Unit<T, A> {
    /// The arithmetic that answers.
    pub closed spec fn arithmetic(&self) -> A {
        self.arithmetic
    }

    /// Every request made so far, the first one first.
    pub closed spec fn asked(&self) -> Seq<Operation<T>> {
        self.journal@
    }

    /// What the unit may answer: the relation between a request and each
    /// answer that its arithmetic may give to it.
    pub open spec fn answers(&self) -> spec_fn(Operation<T>, T) -> bool {
        |operation: Operation<T>, answer: T|
            call_ensures(A::perform, (&self.arithmetic(), operation), answer)
    }

    /// Whether this is the unit `before` some requests later: the same
    /// arithmetic, and a journal that goes on from where that one ends.
    pub open spec fn follows(&self, before: &Self) -> bool {
        &&& self.arithmetic() == before.arithmetic()
        &&& before.asked().is_prefix_of(self.asked())
    }

    /// The requests made since the unit was `before`, the first one first.
    pub open spec fn asked_since(&self, before: &Self) -> Seq<Operation<T>> {
        self.asked().skip(before.asked().len() as int)
    }

    /// A unit that works with `arithmetic` and has not been asked anything.
    pub fn new(arithmetic: A) -> (unit: Self)
        ensures
            unit.arithmetic() == arithmetic,
            unit.asked() == Seq::<Operation<T>>::empty(),
    {
        Unit { arithmetic, journal: Ghost(Seq::empty()) }
    }

    /// Gives the arithmetic back.
    pub fn into_arithmetic(self) -> (arithmetic: A)
        ensures
            arithmetic == self.arithmetic(),
    {
        self.arithmetic
    }

    /// The requests since `before` are those up to `middle` and then those
    /// since `middle`.
    pub proof fn lemma_asked_since_adds(&self, middle: &Self, before: &Self)
        requires
            middle.follows(before),
            self.follows(middle),
        ensures
            self.follows(before),
            self.asked_since(before) == middle.asked_since(before) + self.asked_since(middle),
    {
        assert(self.asked_since(before) =~= middle.asked_since(before) + self.asked_since(middle));
    }

    /// Passes one request on to the arithmetic and hands back its answer.
    pub fn ask(&mut self, operation: Operation<T>) -> (answer: T)
        ensures
            final(self).arithmetic() == old(self).arithmetic(),
            final(self).asked() == old(self).asked().push(operation),
            final(self).follows(old(self)),
            final(self).asked_since(old(self)) == seq![operation],
            gives(old(self).answers(), operation, answer),
    {
        proof {
            self.journal@ = self.journal@.push(operation);
        }
        let answer = self.arithmetic.perform(operation);
        proof {
            assert(self.asked_since(old(self)) =~= seq![operation]);
        }
        answer
    }
}

} // verus!
