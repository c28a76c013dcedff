//! The calculator engine: operators, their exact application, decimal input
//! and a bounded log of completed operations.
use crate::decimal::{dec_str_value, is_keypad_text, keypad_text_value, parse_dec_str};
use crate::rational::{
    is_canonical, lemma_add_then_subtract, lemma_canonical, lemma_divide_then_multiply, lemma_multiply_then_divide,
    lemma_subtract_then_add, rat_add, rat_div, rat_mul,
    rat_sub, rational_add, rational_div, rational_mul, rational_sub, Rational,
};
use std::collections::VecDeque;
use vstd::prelude::*;

verus! {

/// Maximum number of entries retained by a [`History`].
///
/// Older entries are discarded once this limit is reached.
pub const MAX_HISTORY_ENTRIES: usize = 50;

/// What the calculator's main display shows.
#[non_exhaustive]
#[derive(Debug)]
pub enum DisplayState {
    Editing(String),
    Error,
    Result(Rational),
}

impl Default for DisplayState {
    fn default() -> (r: Self)
        ensures
            r matches DisplayState::Editing(s) && s@ == Seq::<char>::empty(),
    {
        DisplayState::Editing(String::new())
    }
}

/// A bounded, chronological log of completed operations.
#[non_exhaustive]
#[derive(Debug)]
pub struct History {
    entries: VecDeque<HistoryEntry>,
}

impl View for History {
    type V = Seq<HistoryEntry>;

    /// The entries, oldest first.
    closed spec fn view(&self) -> Seq<HistoryEntry> {
        self.entries@
    }
}

/// The log after appending `entry` to `log`: the oldest entry is dropped
/// once the log would exceed [`MAX_HISTORY_ENTRIES`].
pub open spec fn pushed<T>(log: Seq<T>, entry: T) -> Seq<T> {
    if log.len() + 1 > MAX_HISTORY_ENTRIES {
        log.push(entry).drop_first()
    } else {
        log.push(entry)
    }
}

impl Default for History {
    fn default() -> (r: Self)
        ensures
            r@ == Seq::<HistoryEntry>::empty(),
            r@ == pushed_all(Seq::<HistoryEntry>::empty(), Seq::<HistoryEntry>::empty()),
    {
        History { entries: VecDeque::new() }
    }
}

impl History {
    /// The bound on the number of entries, kept by every operation.
    #[verifier::type_invariant]
    spec fn within_bound(&self) -> bool {
        self.entries@.len() <= MAX_HISTORY_ENTRIES
    }

    /// Returns whether the history is empty.
    pub fn is_empty(&self) -> (b: bool)
        ensures
            b == (self@.len() == 0),
    {
        self.entries.len() == 0
    }

    /// Returns the entries, oldest first.
    pub fn iter(&self) -> (r: Vec<&HistoryEntry>)
        ensures
            r@.len() == self@.len(),
            forall|i: int| 0 <= i < r@.len() ==> *r@[i] == self@[i],
    {
        let n = self.entries.len();
        let mut r: Vec<&HistoryEntry> = Vec::new();
        let mut i: usize = 0;
        while i < n
            invariant
                n == self.entries@.len(),
                i <= n,
                r@.len() == i,
                forall|j: int| 0 <= j < i ==> *r@[j] == self.entries@[j],
            decreases n - i,
        {
            r.push(&self.entries[i]);
            i = i + 1;
        }
        r
    }

    /// Returns the number of entries.
    pub fn len(&self) -> (n: usize)
        ensures
            n == self@.len(),
            n <= MAX_HISTORY_ENTRIES,
    {
        proof {
            use_type_invariant(self);
        }
        self.entries.len()
    }

    /// Appends an entry, discarding the oldest entry if [`MAX_HISTORY_ENTRIES`] is exceeded.
    pub fn push(&mut self, entry: HistoryEntry)
        ensures
            final(self)@ == pushed(old(self)@, entry),
            final(self)@.len() <= MAX_HISTORY_ENTRIES,
            forall|pushed_before: Seq<HistoryEntry>|
                #[trigger] pushed_all(Seq::<HistoryEntry>::empty(), pushed_before) == old(self)@
                    ==> final(self)@ == pushed_all(
                    Seq::<HistoryEntry>::empty(),
                    pushed_before.push(entry),
                ),
    {
        proof {
            use_type_invariant(&*self);
        }
        let ghost before = self@;
        let mut entries = VecDeque::new();
        std::mem::swap(&mut entries, &mut self.entries);
        entries.push_back(entry);
        if entries.len() > MAX_HISTORY_ENTRIES {
            entries.pop_front();
        }
        self.entries = entries;
        proof {
            assert forall|pushed_before: Seq<HistoryEntry>|
                #[trigger] pushed_all(Seq::<HistoryEntry>::empty(), pushed_before) == before
                    implies self@ == pushed_all(
                    Seq::<HistoryEntry>::empty(),
                    pushed_before.push(entry),
                ) by {
                assert(pushed_before.push(entry).drop_last() =~= pushed_before);
            }
        }
    }
}

/// A single completed operation and its result.
#[non_exhaustive]
#[allow(inconsistent_fields)]
#[derive(Debug, Eq, PartialEq)]
pub enum HistoryEntry {
    Binary { left: Rational, operator: Operator, result: Result<Rational, MathError>, right: Rational },
    Unary { operand: Rational, operator: UnaryOperator, result: Result<Rational, MathError> },
}

/// The view of an operation's outcome.
pub open spec fn outcome_view(r: Result<Rational, MathError>) -> Result<(int, int), MathError> {
    match r {
        Ok(v) => Ok(v@),
        Err(e) => Err(e),
    }
}

/// Two log entries record the same operation: the same kind and operator,
/// and operands and outcome of the same values.
pub open spec fn same_operation(a: HistoryEntry, b: HistoryEntry) -> bool {
    match (a, b) {
        (
            HistoryEntry::Binary { left: l1, operator: o1, result: r1, right: g1 },
            HistoryEntry::Binary { left: l2, operator: o2, result: r2, right: g2 },
        ) => l1@ == l2@ && o1 == o2 && g1@ == g2@ && outcome_view(r1) == outcome_view(r2),
        (
            HistoryEntry::Unary { operand: a1, operator: o1, result: r1 },
            HistoryEntry::Unary { operand: a2, operator: o2, result: r2 },
        ) => a1@ == a2@ && o1 == o2 && outcome_view(r1) == outcome_view(r2),
        _ => false,
    }
}

impl Clone for HistoryEntry {
    /// A copy of the entry.
    fn clone(&self) -> (r: Self)
        ensures
            same_operation(r, *self),
    {
        match self {
            HistoryEntry::Binary { left, operator, result, right } => HistoryEntry::Binary {
                left: left.clone(),
                operator: *operator,
                result: match result {
                    Ok(v) => Ok(v.clone()),
                    Err(e) => Err(*e),
                },
                right: right.clone(),
            },
            HistoryEntry::Unary { operand, operator, result } => HistoryEntry::Unary {
                operand: operand.clone(),
                operator: *operator,
                result: match result {
                    Ok(v) => Ok(v.clone()),
                    Err(e) => Err(*e),
                },
            },
        }
    }
}

/// Why an operation has no result.
#[non_exhaustive]
#[derive(Debug, Clone, Copy, Eq, PartialEq)]
pub enum MathError {
    DivisionByZero,
}

impl MathError {
    /// The message that describes the error.
    pub fn message(&self) -> (s: &'static str)
        ensures
            s@ == "division by zero"@,
    {
        match self {
            MathError::DivisionByZero => "division by zero",
        }
    }
}

/// A binary arithmetic operator.
#[non_exhaustive]
#[derive(Debug, Clone, Copy, Eq, PartialEq)]
pub enum Operator {
    Add,
    Divide,
    Multiply,
    Subtract,
}

/// An operation waiting for its right operand.
#[non_exhaustive]
#[derive(Debug)]
pub struct PendingOperation {
    pub left: Rational,
    pub operator: Operator,
}

/// An operator that takes a single operand.
#[non_exhaustive]
#[derive(Debug, Clone, Copy, Eq, PartialEq)]
pub enum UnaryOperator {
    Negate,
}

/// The result of `left op right` on fractions: `None` for division by zero.
pub open spec fn operation(left: (int, int), op: Operator, right: (int, int)) -> Option<(int, int)> {
    match op {
        Operator::Add => Some(rat_add(left, right)),
        Operator::Divide => if right.0 == 0 {
            None
        } else {
            Some(rat_div(left, right))
        },
        Operator::Multiply => Some(rat_mul(left, right)),
        Operator::Subtract => Some(rat_sub(left, right)),
    }
}

/// Applies a binary operator to two rational operands.
///
/// # Errors
///
/// Returns `MathError::DivisionByZero` if the operator is `Operator::Divide` and the right operand is zero.
pub fn apply_operator(left: Rational, op: Operator, right: Rational) -> (r: Result<
    Rational,
    MathError,
>)
    requires
        left.wf(),
        right.wf(),
    ensures
        match r {
            Ok(v) => v.wf() && operation(left@, op, right@) == Some(v@),
            Err(e) => e == MathError::DivisionByZero && operation(left@, op, right@) is None,
        },
{
    match op {
        Operator::Add => Ok(rational_add(&left, &right)),
        Operator::Divide => {
            if right.is_zero() {
                Err(MathError::DivisionByZero)
            } else {
                Ok(rational_div(&left, &right))
            }
        },
        Operator::Multiply => Ok(rational_mul(&left, &right)),
        Operator::Subtract => Ok(rational_sub(&left, &right)),
    }
}

/// The value of decimal text for the calculator: the parsed rational, or
/// zero where the text does not parse.
pub open spec fn decimal_or_zero(s: Seq<char>) -> (int, int) {
    match dec_str_value(s) {
        Some(v) => v,
        None => (0, 1),
    }
}

/// Parses a decimal string into a rational.
///
/// Input that is empty or otherwise unparseable yields zero.
pub fn parse_decimal(value: &str) -> (r: Rational)
    ensures
        r.wf(),
        r@ == decimal_or_zero(value@),
        is_keypad_text(value@) ==> r@ == match keypad_text_value(value@) {
            Some(v) => v,
            None => (0, 1),
        },
{
    value_or_zero(parse_dec_str(value))
}

/// The value a parse result stands for: the parsed rational, or zero where
/// the text did not parse.
pub fn value_or_zero(parsed: Option<Rational>) -> (r: Rational)
    requires
        parsed matches Some(x) ==> x.wf(),
    ensures
        r.wf(),
        r@ == match parsed {
            Some(v) => v@,
            None => (0, 1),
        },
{
    match parsed {
        Some(v) => v,
        None => Rational::zero(),
    }
}

/// The arithmetic is exact: adding a value and then subtracting it gives
/// back the value it started from.
pub proof fn lemma_add_then_subtract_restores(a: (int, int), b: (int, int))
    requires
        is_canonical(a),
        is_canonical(b),
    ensures
        operation(a, Operator::Add, b) matches Some(c) && operation(c, Operator::Subtract, b)
            == Some(a),
{
    lemma_add_then_subtract(a, b);
}

/// The arithmetic is exact: multiplying by a non-zero value and then
/// dividing by it gives back the value it started from.
pub proof fn lemma_multiply_then_divide_restores(a: (int, int), b: (int, int))
    requires
        is_canonical(a),
        is_canonical(b),
        b.0 != 0,
    ensures
        operation(a, Operator::Multiply, b) matches Some(c) && operation(c, Operator::Divide, b)
            == Some(a),
{
    lemma_multiply_then_divide(a, b);
}

/// The arithmetic is exact: subtracting a value and then adding it gives
/// back the value it started from.
pub proof fn lemma_subtract_then_add_restores(a: (int, int), b: (int, int))
    requires
        is_canonical(a),
        is_canonical(b),
    ensures
        operation(a, Operator::Subtract, b) matches Some(c) && operation(c, Operator::Add, b)
            == Some(a),
{
    lemma_subtract_then_add(a, b);
}

/// The arithmetic is exact: dividing by a non-zero value and then
/// multiplying by it gives back the value it started from.
pub proof fn lemma_divide_then_multiply_restores(a: (int, int), b: (int, int))
    requires
        is_canonical(a),
        is_canonical(b),
        b.0 != 0,
    ensures
        operation(a, Operator::Divide, b) matches Some(c) && operation(c, Operator::Multiply, b)
            == Some(a),
{
    lemma_divide_then_multiply(a, b);
}

/// The log after pushing `entries`, in order, onto `log`.
pub open spec fn pushed_all<T>(log: Seq<T>, entries: Seq<T>) -> Seq<T>
    decreases entries.len(),
{
    if entries.len() == 0 {
        log
    } else {
        pushed(pushed_all(log, entries.drop_last()), entries.last())
    }
}

/// The number of oldest entries that a full log has dropped.
pub open spec fn dropped_count(n: nat) -> int {
    if n > MAX_HISTORY_ENTRIES {
        n - MAX_HISTORY_ENTRIES
    } else {
        0
    }
}

/// Pushing any entries onto an empty history keeps exactly the last
/// [`MAX_HISTORY_ENTRIES`] of them (all of them when there are fewer), in the
/// order they were pushed.
pub proof fn lemma_history_keeps_last_entries<T>(entries: Seq<T>)
    ensures
        pushed_all(Seq::<T>::empty(), entries) == entries.skip(dropped_count(entries.len())),
        pushed_all(Seq::<T>::empty(), entries).len() <= MAX_HISTORY_ENTRIES,
    decreases entries.len(),
{
    if entries.len() == 0 {
        assert(entries.skip(0) =~= entries);
    } else {
        let front = entries.drop_last();
        lemma_history_keeps_last_entries(front);
        let k = dropped_count(front.len());
        let log = front.skip(k);
        if log.len() + 1 > MAX_HISTORY_ENTRIES {
            assert(log.push(entries.last()).drop_first() =~= entries.skip(
                dropped_count(entries.len()),
            ));
        } else {
            assert(log.push(entries.last()) =~= entries.skip(dropped_count(entries.len())));
        }
    }
}

/// A history that started empty and has had `pushed_in_order` pushed onto it,
/// one call after another, holds exactly the last [`MAX_HISTORY_ENTRIES`] of
/// them (all of them when there are fewer), oldest first.
pub proof fn lemma_history_holds_last_pushed(h: History, pushed_in_order: Seq<HistoryEntry>)
    requires
        h@ == pushed_all(Seq::<HistoryEntry>::empty(), pushed_in_order),
    ensures
        h@ == pushed_in_order.skip(dropped_count(pushed_in_order.len())),
        h@.len() <= MAX_HISTORY_ENTRIES,
{
    lemma_history_keeps_last_entries(pushed_in_order);
}

/// Every operator gives the exact value of its arithmetic, in lowest terms:
/// the sum, difference and product of any two fractions (so anything times
/// zero is zero), and their quotient whenever the divisor is not zero;
/// dividing by zero, and only that, has no result.
pub proof fn lemma_operations_are_exact(a: (int, int), b: (int, int))
    requires
        is_canonical(a),
        is_canonical(b),
    ensures
        operation(a, Operator::Add, b) matches Some(c) && is_canonical(c) && c.0 * (a.1 * b.1)
            == (a.0 * b.1 + b.0 * a.1) * c.1,
        operation(a, Operator::Subtract, b) matches Some(c) && is_canonical(c) && c.0 * (a.1
            * b.1) == (a.0 * b.1 - b.0 * a.1) * c.1,
        operation(a, Operator::Multiply, b) matches Some(c) && is_canonical(c) && c.0 * (a.1
            * b.1) == (a.0 * b.0) * c.1,
        b.0 == 0 ==> operation(a, Operator::Multiply, b) == Some((0int, 1int)),
        b.0 == 0 <==> operation(a, Operator::Divide, b) is None,
        b.0 != 0 ==> (operation(a, Operator::Divide, b) matches Some(c) && is_canonical(c) && c.0
            * (a.1 * b.0) == (a.0 * b.1) * c.1),
{
    assert(a.1 * b.1 != 0) by (nonlinear_arith)
        requires
            a.1 > 0,
            b.1 > 0,
    ;
    lemma_canonical(a.0 * b.1 + b.0 * a.1, a.1 * b.1);
    lemma_canonical(a.0 * b.1 - b.0 * a.1, a.1 * b.1);
    lemma_canonical(a.0 * b.0, a.1 * b.1);
    if b.0 == 0 {
        assert(a.0 * b.0 == 0) by (nonlinear_arith)
            requires
                b.0 == 0,
        ;
        let c = rat_mul(a, b);
        assert(c.0 * (a.1 * b.1) == 0);
        assert(c.0 == 0) by (nonlinear_arith)
            requires
                c.0 * (a.1 * b.1) == 0,
                a.1 * b.1 != 0,
        ;
        assert(c.1 == 1) by {
            reveal_with_fuel(crate::rational::gcd, 2);
            assert(0nat % (c.1 as nat) == 0);
        }
    } else {
        assert(a.1 * b.0 != 0) by (nonlinear_arith)
            requires
                a.1 > 0,
                b.0 != 0,
        ;
        lemma_canonical(a.0 * b.1, a.1 * b.0);
    }
}

} // verus!
