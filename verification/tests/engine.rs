use exactulator::engine::{value_or_zero, History, HistoryEntry, MathError, Operator, MAX_HISTORY_ENTRIES};
use exactulator::rational::Rational;

fn integer(value: i64) -> Rational {
    Rational::from_integer(value)
}

fn addition(left: i64, right: i64) -> HistoryEntry {
    HistoryEntry::Binary {
        left: integer(left),
        operator: Operator::Add,
        result: Ok(integer(left + right)),
        right: integer(right),
    }
}

#[test]
fn history_starts_empty() {
    let history = History::default();
    assert!(history.is_empty());
    assert_eq!(history.len(), 0);
}

#[test]
fn history_iterates_oldest_first() {
    let mut history = History::default();
    history.push(addition(1, 1));
    history.push(addition(2, 2));

    let entries: Vec<&HistoryEntry> = history.iter();

    assert_eq!(entries, vec![&addition(1, 1), &addition(2, 2)]);
}

#[test]
fn history_discards_oldest_entry_when_full() {
    let mut history = History::default();

    for i in 0..MAX_HISTORY_ENTRIES + 5 {
        history.push(addition(i64::try_from(i).unwrap(), 0));
    }

    assert_eq!(history.len(), MAX_HISTORY_ENTRIES);
    assert_eq!(history.iter().first().copied(), Some(&addition(5, 0)));
}

#[test]
fn history_keeps_the_last_entries_in_order() {
    let mut history = History::default();
    for i in 0..120 {
        history.push(addition(i, 1));
    }
    let entries = history.iter();
    assert_eq!(entries.len(), MAX_HISTORY_ENTRIES);
    for (k, entry) in entries.iter().enumerate() {
        assert_eq!(**entry, addition(70 + i64::try_from(k).unwrap(), 1));
    }
}

#[test]
fn a_cloned_entry_equals_the_original() {
    let entry = HistoryEntry::Binary {
        left: integer(1),
        operator: Operator::Divide,
        result: Err(MathError::DivisionByZero),
        right: integer(0),
    };
    assert_eq!(entry.clone(), entry);
    assert_eq!(addition(3, 4).clone(), addition(3, 4));
}

#[test]
fn a_missing_value_counts_as_zero() {
    assert_eq!(value_or_zero(None), Rational::zero());
    assert_eq!(value_or_zero(Some(integer(-8))), integer(-8));
}
