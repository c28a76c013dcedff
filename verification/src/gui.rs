//! The state of the calculator's window and how each key press changes it.
//! Drawing the window and reading keys is left to the application.
use crate::decimal::{
    dec_string, digits_value, is_keypad_text, keypad_text_value, sign_len, keypad_value_or_zero, lemma_keypad_add_minus,
    lemma_keypad_drop_last, lemma_keypad_push_digit, lemma_keypad_push_dot,
    lemma_keypad_strip_minus, to_dec_string,
};
use crate::engine::{
    apply_operator, operation, parse_decimal, pushed, DisplayState, Operator,
    PendingOperation, MAX_HISTORY_ENTRIES,
};
use crate::format::minus_sign;
use crate::rational::{abs, canonical, rat_neg, rational_neg, Rational};
use crate::text::{append_chars, chars_of, string_from_chars};
use std::collections::VecDeque;
use vstd::prelude::*;

verus! {

/// Maximum number of history lines the window keeps.
pub const MAX_VISIBLE_HISTORY: usize = MAX_HISTORY_ENTRIES;

/// One line pair of the history panel.
#[derive(Debug, Clone)]
pub struct HistoryEntry {
    pub expression: String,
    pub result: String,
}

/// A key press.
#[derive(Debug, Clone, Copy)]
pub enum Message {
    Answer,
    Backspace,
    Clear,
    ClearEntry,
    Decimal,
    Digit(char),
    Equals,
    Negate,
    Operator(Operator),
}

/// A key of the keyboard that the calculator listens to.
#[derive(Debug, Clone, Copy)]
pub enum Key {
    /// A key that types a character.
    Character(char),
    Enter,
    Backspace,
    Delete,
    Escape,
    F9,
}

/// The keyboard shortcuts: digits, '.', '+', '-', '*', '/' and '=' type
/// themselves, Enter evaluates, 'x' recalls the last result, Backspace
/// deletes the last digit, Delete clears the entry, Escape clears all and
/// F9 negates.
pub open spec fn shortcut(key: Key) -> Option<Message> {
    match key {
        Key::Character(c) => if '0' <= c && c <= '9' {
            Some(Message::Digit(c))
        } else if c == '.' {
            Some(Message::Decimal)
        } else if c == '+' {
            Some(Message::Operator(Operator::Add))
        } else if c == '-' {
            Some(Message::Operator(Operator::Subtract))
        } else if c == '*' {
            Some(Message::Operator(Operator::Multiply))
        } else if c == '/' {
            Some(Message::Operator(Operator::Divide))
        } else if c == '=' {
            Some(Message::Equals)
        } else if c == 'x' {
            Some(Message::Answer)
        } else {
            None
        },
        Key::Enter => Some(Message::Equals),
        Key::Backspace => Some(Message::Backspace),
        Key::Delete => Some(Message::ClearEntry),
        Key::Escape => Some(Message::Clear),
        Key::F9 => Some(Message::Negate),
    }
}

/// The message a key press sends, if the key is a shortcut.
pub fn message_for_key(key: Key) -> (r: Option<Message>)
    ensures
        r == shortcut(key),
{
    match key {
        Key::Character(c) => {
            if '0' <= c && c <= '9' {
                Some(Message::Digit(c))
            } else if c == '.' {
                Some(Message::Decimal)
            } else if c == '+' {
                Some(Message::Operator(Operator::Add))
            } else if c == '-' {
                Some(Message::Operator(Operator::Subtract))
            } else if c == '*' {
                Some(Message::Operator(Operator::Multiply))
            } else if c == '/' {
                Some(Message::Operator(Operator::Divide))
            } else if c == '=' {
                Some(Message::Equals)
            } else if c == 'x' {
                Some(Message::Answer)
            } else {
                None
            }
        },
        Key::Enter => Some(Message::Equals),
        Key::Backspace => Some(Message::Backspace),
        Key::Delete => Some(Message::ClearEntry),
        Key::Escape => Some(Message::Clear),
        Key::F9 => Some(Message::Negate),
    }
}

/// What the display shows, as text and fractions.
pub enum DisplayModel {
    Editing(Seq<char>),
    Error,
    Result((int, int)),
}

/// The window's state, as text and fractions.
pub struct AppModel {
    pub display: DisplayModel,
    /// (expression, result) lines, oldest first.
    pub history: Seq<(Seq<char>, Seq<char>)>,
    pub last_expression: Seq<char>,
    pub last_result: Option<(int, int)>,
    pub pending: Option<((int, int), Operator)>,
}

/// The window's state.
pub struct App {
    display: DisplayState,
    history: VecDeque<HistoryEntry>,
    last_expression: String,
    last_result: Option<Rational>,
    pending: Option<PendingOperation>,
}

/// The model of a display.
pub open spec fn display_model(d: DisplayState) -> DisplayModel {
    match d {
        DisplayState::Editing(s) => DisplayModel::Editing(s@),
        DisplayState::Error => DisplayModel::Error,
        DisplayState::Result(v) => DisplayModel::Result(v@),
    }
}

/// The model of a history line.
pub open spec fn line_model(e: HistoryEntry) -> (Seq<char>, Seq<char>) {
    (e.expression@, e.result@)
}

impl View for App {
    type V = AppModel;

    closed spec fn view(&self) -> AppModel {
        AppModel {
            display: display_model(self.display),
            history: self.history@.map_values(|e: HistoryEntry| line_model(e)),
            last_expression: self.last_expression@,
            last_result: match self.last_result {
                Some(v) => Some(v@),
                None => None,
            },
            pending: match self.pending {
                Some(p) => Some((p.left@, p.operator)),
                None => None,
            },
        }
    }
}

/// The symbol of an operator.
pub open spec fn operator_char(op: Operator) -> char {
    match op {
        Operator::Add => '+',
        Operator::Divide => '\u{f7}',
        Operator::Multiply => '\u{d7}',
        Operator::Subtract => '\u{2212}',
    }
}

/// The text "Error".
pub open spec fn error_text() -> Seq<char> {
    seq!['E', 'r', 'r', 'o', 'r']
}

/// The window before any key press.
pub open spec fn initial_model() -> AppModel {
    AppModel {
        display: DisplayModel::Editing(Seq::empty()),
        history: Seq::empty(),
        last_expression: Seq::empty(),
        last_result: None,
        pending: None,
    }
}

/// The value the display stands for: the value of the entry (zero where it
/// has none, as for "" or "5."), zero for an error, or the result.
pub open spec fn model_current_value(m: AppModel) -> (int, int) {
    match m.display {
        DisplayModel::Editing(s) => keypad_value_or_zero(s),
        DisplayModel::Error => (0, 1),
        DisplayModel::Result(v) => v,
    }
}

/// The entry reads as keypad text: an optional '-', digits, and at most one
/// '.' followed by digits.
pub open spec fn entry_is_keypad_text(m: AppModel) -> bool {
    m.display matches DisplayModel::Editing(s) ==> is_keypad_text(s)
}

/// Whether `s` holds no '-' before index `i`.
pub open spec fn no_minus_before(s: Seq<char>, i: int) -> bool {
    forall|j: int| 0 <= j < i ==> s[j] != '-'
}

/// `s` with its first '-' replaced by the Unicode minus sign.
pub open spec fn replace_first_minus(s: Seq<char>) -> Seq<char> {
    if exists|i: int| 0 <= i < s.len() && s[i] == '-' && no_minus_before(s, i) {
        let i = choose|i: int| 0 <= i < s.len() && s[i] == '-' && no_minus_before(s, i);
        s.take(i) + seq!['\u{2212}'] + s.skip(i + 1)
    } else {
        s
    }
}

/// The text on the display.
pub open spec fn model_display_value(m: AppModel) -> Seq<char> {
    match m.display {
        DisplayModel::Editing(s) => replace_first_minus(s),
        DisplayModel::Error => error_text(),
        DisplayModel::Result(v) => dec_string(v),
    }
}

/// Ans: show the last result, if there is one.
pub open spec fn model_answer(m: AppModel) -> AppModel {
    match m.last_result {
        Some(v) => AppModel { display: DisplayModel::Result(v), ..m },
        None => m,
    }
}

/// CE: empty the entry.
pub open spec fn model_clear_entry(m: AppModel) -> AppModel {
    AppModel { display: DisplayModel::Editing(Seq::empty()), ..m }
}

/// A shown result gives way to an empty entry.
pub open spec fn model_ensure_editing(m: AppModel) -> AppModel {
    match m.display {
        DisplayModel::Result(_) => AppModel { display: DisplayModel::Editing(Seq::empty()), ..m },
        _ => m,
    }
}

/// =: apply the pending operation to the current value and log it.
pub open spec fn model_evaluate(m: AppModel) -> AppModel {
    match m.pending {
        None => m,
        Some((left, op)) => {
            let right = model_current_value(m);
            let expression = m.last_expression + dec_string(right) + seq![' ', '='];
            match operation(left, op, right) {
                Some(v) => AppModel {
                    display: DisplayModel::Result(v),
                    history: pushed(m.history, (expression, dec_string(v))),
                    last_expression: expression,
                    last_result: Some(v),
                    pending: None,
                },
                None => AppModel {
                    display: DisplayModel::Error,
                    history: pushed(m.history, (expression, error_text())),
                    last_expression: expression,
                    last_result: m.last_result,
                    pending: None,
                },
            }
        },
    }
}

/// '.': start the fractional part of the entry, once.
pub open spec fn model_input_decimal(m: AppModel) -> AppModel {
    let m1 = model_ensure_editing(m);
    match m1.display {
        DisplayModel::Editing(s) => if s.contains('.') {
            m1
        } else {
            AppModel {
                display: DisplayModel::Editing(
                    (if s.len() == 0 {
                        seq!['0']
                    } else {
                        s
                    }).push('.'),
                ),
                ..m1
            }
        },
        _ => m1,
    }
}

/// A digit key: append an ASCII digit to the entry (replacing a lone "0").
pub open spec fn model_input_digit(m: AppModel, c: char) -> AppModel {
    if !('0' <= c && c <= '9') {
        m
    } else {
        let m1 = model_ensure_editing(m);
        match m1.display {
            DisplayModel::Editing(s) => AppModel {
                display: DisplayModel::Editing(
                    (if s == seq!['0'] {
                        Seq::empty()
                    } else {
                        s
                    }).push(c),
                ),
                ..m1
            },
            _ => m1,
        }
    }
}

/// The expression line for `v op`.
pub open spec fn operator_expression(v: (int, int), op: Operator) -> Seq<char> {
    dec_string(v) + seq![' ', operator_char(op), ' ']
}

/// An operator key: with an operation pending and an empty entry, change
/// its operator; otherwise evaluate what is pending (stopping when that
/// evaluation fails, so that its error stays on the display until Clear) and
/// make the current value (zero while an error is shown) the left operand of
/// a new pending operation.
pub open spec fn model_input_operator(m: AppModel, op: Operator) -> AppModel {
    match m.pending {
        Some((left, _)) if m.display == DisplayModel::Editing(Seq::<char>::empty()) => AppModel {
            pending: Some((left, op)),
            last_expression: operator_expression(left, op),
            ..m
        },
        _ => {
            let m1 = model_evaluate(m);
            if m.pending is Some && m1.display is Error {
                m1
            } else {
                let current = model_current_value(m1);
                AppModel {
                    last_expression: operator_expression(current, op),
                    pending: Some((current, op)),
                    display: DisplayModel::Editing(Seq::empty()),
                    ..m1
                }
            }
        },
    }
}

/// The expression line for negating `v` on its own.
pub open spec fn negation_expression(v: (int, int)) -> Seq<char> {
    minus_sign(true) + seq!['('] + dec_string(v) + seq![')', ' ', '=']
}

/// ±: negate a shown result (logging it when nothing is pending), or toggle
/// the sign of the entry (leaving a lone "0" alone).
pub open spec fn model_negate(m: AppModel) -> AppModel {
    match m.display {
        DisplayModel::Result(v) => {
            let negated = rat_neg(v);
            if m.pending is None {
                AppModel {
                    display: DisplayModel::Result(negated),
                    history: pushed(m.history, (negation_expression(v), dec_string(negated))),
                    last_expression: negation_expression(v),
                    last_result: Some(negated),
                    pending: None,
                }
            } else {
                AppModel { display: DisplayModel::Result(negated), ..m }
            }
        },
        DisplayModel::Editing(s) => if s.len() > 0 && s[0] == '-' {
            AppModel { display: DisplayModel::Editing(s.skip(1)), ..m }
        } else if s != seq!['0'] {
            AppModel { display: DisplayModel::Editing(seq!['-'] + s), ..m }
        } else {
            m
        },
        DisplayModel::Error => m,
    }
}

/// Backspace: delete the last character of the entry.
pub open spec fn model_backspace(m: AppModel) -> AppModel {
    match m.display {
        DisplayModel::Editing(s) => if s.len() > 0 {
            AppModel { display: DisplayModel::Editing(s.drop_last()), ..m }
        } else {
            m
        },
        _ => m,
    }
}

/// How a key press changes the window: after an error only Clear is heeded.
pub open spec fn model_update(m: AppModel, message: Message) -> AppModel {
    if m.display is Error && !(message is Clear) {
        m
    } else {
        match message {
            Message::Answer => model_answer(m),
            Message::Backspace => model_backspace(m),
            Message::Clear => initial_model(),
            Message::ClearEntry => model_clear_entry(m),
            Message::Decimal => model_input_decimal(m),
            Message::Digit(c) => model_input_digit(m, c),
            Message::Equals => model_evaluate(m),
            Message::Negate => model_negate(m),
            Message::Operator(op) => model_input_operator(m, op),
        }
    }
}

/// The characters of "Error".
fn error_chars() -> (v: Vec<char>)
    ensures
        v@ == error_text(),
{
    let v = vec!['E', 'r', 'r', 'o', 'r'];
    proof {
        assert(v@ =~= error_text());
    }
    v
}

/// Whether `v` holds `c`.
fn contains_char(v: &Vec<char>, c: char) -> (b: bool)
    ensures
        b == v@.contains(c),
{
    let n = v.len();
    let mut i: usize = 0;
    while i < n
        invariant
            n == v@.len(),
            i <= n,
            forall|j: int| 0 <= j < i ==> v@[j] != c,
        decreases n - i,
    {
        if v[i] == c {
            return true;
        }
        i = i + 1;
    }
    false
}

/// The decimal text of a rational, as characters, as `big_rational_str`
/// writes it.
fn format_rational(v: &Rational) -> (r: Vec<char>)
    requires
        v.wf(),
    ensures
        r@ == dec_string(v@),
{
    let s = to_dec_string(v);
    chars_of(s.as_str())
}

/// The expression line for `v op`.
fn operator_expression_text(v: &Rational, op: Operator) -> (r: String)
    requires
        v.wf(),
    ensures
        r@ == operator_expression(v@, op),
{
    let mut cs = format_rational(v);
    cs.push(' ');
    cs.push(op.symbol());
    cs.push(' ');
    proof {
        assert(cs@ =~= operator_expression(v@, op));
    }
    string_from_chars(&cs)
}

/// `s` with its first '-' replaced by the Unicode minus sign.
fn replace_first_minus_text(s: &str) -> (r: String)
    ensures
        r@ == replace_first_minus(s@),
{
    let cs = chars_of(s);
    let n = cs.len();
    let mut i: usize = 0;
    while i < n && cs[i] != '-'
        invariant
            n == cs@.len(),
            i <= n,
            no_minus_before(cs@, i as int),
        decreases n - i,
    {
        i = i + 1;
    }
    if i < n {
        let mut out: Vec<char> = Vec::new();
        crate::text::append_range(&mut out, &cs, 0, i);
        out.push('\u{2212}');
        crate::text::append_range(&mut out, &cs, i + 1, n);
        proof {
            let s = cs@;
            let j = choose|j: int| 0 <= j < s.len() && s[j] == '-' && no_minus_before(s, j);
            assert(0 <= i < s.len() && s[i as int] == '-' && no_minus_before(s, i as int));
            if j < i {
                assert(s[j] != '-');
            }
            if i < j {
                assert(s[i as int] != '-');
            }
            assert(j == i);
            assert(s.subrange(0, i as int) =~= s.take(i as int));
            assert(s.subrange(i + 1, n as int) =~= s.skip(i + 1));
            assert(out@ =~= s.take(i as int) + seq!['\u{2212}'] + s.skip(i + 1));
        }
        string_from_chars(&out)
    } else {
        proof {
            let s = cs@;
            assert forall|j: int| !(0 <= j < s.len() && s[j] == '-' && no_minus_before(s, j)) by {
                if 0 <= j < s.len() && s[j] == '-' {
                    assert(no_minus_before(s, n as int));
                }
            }
        }
        string_from_chars(&cs)
    }
}

impl Default for App {
    fn default() -> (r: Self)
        ensures
            r@ == initial_model(),
    {
        let r = App {
            display: DisplayState::Editing(String::new()),
            history: VecDeque::new(),
            last_expression: String::new(),
            last_result: None,
            pending: None,
        };
        proof {
            assert(r@.history =~= Seq::<(Seq<char>, Seq<char>)>::empty());
        }
        r
    }
}

impl App {
    /// The invariant, kept by every key press: every rational held is in
    /// lowest terms, the entry reads as keypad text and the history is
    /// bounded.
    #[verifier::type_invariant]
    pub closed spec fn wf(&self) -> bool {
        &&& (self.display matches DisplayState::Result(v) ==> v.wf())
        &&& (self.last_result matches Some(v) ==> v.wf())
        &&& (self.pending matches Some(p) ==> p.left.wf())
        &&& self.history@.len() <= MAX_VISIBLE_HISTORY
        &&& entry_is_keypad_text(self@)
    }

    /// What the invariant (which `use_type_invariant` gives for any window)
    /// says of the state: the entry reads as keypad text and the history holds
    /// at most [`MAX_VISIBLE_HISTORY`] lines.
    pub proof fn lemma_invariant(&self)
        requires
            self.wf(),
        ensures
            entry_is_keypad_text(self@),
            self@.history.len() <= MAX_VISIBLE_HISTORY,
    {
    }

    /// The history lines, oldest first.
    pub fn history(&self) -> (r: &VecDeque<HistoryEntry>)
        ensures
            r@.map_values(|e: HistoryEntry| line_model(e)) == self@.history,
    {
        &self.history
    }

    /// The expression line above the display.
    pub fn last_expression(&self) -> (r: &String)
        ensures
            r@ == self@.last_expression,
    {
        &self.last_expression
    }

    /// Appends a line to the history, dropping the oldest beyond the limit.
    fn push_history(&mut self, expression: String, result: String)
        ensures
            final(self)@.history == pushed(old(self)@.history, (expression@, result@)),
            final(self).display == old(self).display,
            final(self).last_expression == old(self).last_expression,
            final(self).last_result == old(self).last_result,
            final(self).pending == old(self).pending,
    {
        proof {
            use_type_invariant(&*self);
        }
        let ghost before = self.history@;
        let entry = HistoryEntry { expression, result };
        let mut lines = VecDeque::new();
        std::mem::swap(&mut lines, &mut self.history);
        lines.push_back(entry);
        if lines.len() > MAX_VISIBLE_HISTORY {
            lines.pop_front();
        }
        self.history = lines;
        proof {
            let f = |e: HistoryEntry| line_model(e);
            assert(before.push(entry).map_values(f) =~= before.map_values(f).push(f(entry)));
            assert(before.push(entry).drop_first().map_values(f) =~= before.map_values(f).push(
                f(entry),
            ).drop_first());
        }
    }

    /// Ans: recalls the last result.
    pub fn answer(&mut self)
        ensures
            final(self)@ == model_answer(old(self)@),
    {
        proof {
            use_type_invariant(&*self);
        }
        if let Some(result) = &self.last_result {
            self.display = DisplayState::Result(result.clone());
        }
    }

    /// C: resets the display, the pending operation, the last result and the history.
    pub fn clear(&mut self)
        ensures
            final(self)@ == initial_model(),
    {
        proof {
            use_type_invariant(&*self);
        }
        self.display = DisplayState::default();
        self.history = VecDeque::new();
        self.last_expression = String::new();
        self.last_result = None;
        self.pending = None;
        proof {
            assert(self@.history =~= Seq::<(Seq<char>, Seq<char>)>::empty());
        }
    }

    /// CE: clears the current entry only.
    pub fn clear_entry(&mut self)
        ensures
            final(self)@ == model_clear_entry(old(self)@),
    {
        proof {
            use_type_invariant(&*self);
        }
        self.display = DisplayState::Editing(String::new());
    }

    /// The value the display stands for.
    pub fn current_value(&self) -> (r: Rational)
        ensures
            r.wf(),
            r@ == model_current_value(self@),
    {
        proof {
            use_type_invariant(self);
        }
        match &self.display {
            DisplayState::Editing(value) => parse_decimal(value.as_str()),
            DisplayState::Error => Rational::zero(),
            DisplayState::Result(value) => value.clone(),
        }
    }

    /// The text on the display.
    pub fn display_value(&self) -> (r: String)
        ensures
            r@ == model_display_value(self@),
    {
        proof {
            use_type_invariant(self);
        }
        match &self.display {
            DisplayState::Editing(value) => replace_first_minus_text(value.as_str()),
            DisplayState::Error => string_from_chars(&error_chars()),
            DisplayState::Result(value) => to_dec_string(value),
        }
    }

    /// Replaces a shown result with an empty entry.
    fn ensure_editing(&mut self)
        ensures
            final(self)@ == model_ensure_editing(old(self)@),
    {
        proof {
            use_type_invariant(&*self);
        }
        if let DisplayState::Result(_) = &self.display {
            self.display = DisplayState::Editing(String::new());
        }
    }

    /// =: evaluates the pending operation.
    pub fn evaluate(&mut self)
        ensures
            final(self)@ == model_evaluate(old(self)@),
    {
        proof {
            use_type_invariant(&*self);
        }
        let (left, op) = match &self.pending {
            Some(pending) => (pending.left.clone(), pending.operator),
            None => {
                return;
            },
        };
        let ghost m = self@;
        let right = self.current_value();
        let mut expression = chars_of(self.last_expression.as_str());
        let right_text = format_rational(&right);
        append_chars(&mut expression, &right_text);
        expression.push(' ');
        expression.push('=');
        proof {
            assert(expression@ =~= m.last_expression + dec_string(right@) + seq![' ', '=']);
        }
        let result = apply_operator(left, op, right);
        let result_text = match result {
            Ok(value) => {
                let text = to_dec_string(&value);
                self.display = DisplayState::Result(value.clone());
                self.last_result = Some(value);
                text
            },
            Err(_) => {
                self.display = DisplayState::Error;
                string_from_chars(&error_chars())
            },
        };
        let expression_text = string_from_chars(&expression);
        self.push_history(expression_text.clone(), result_text);
        proof {
            use_type_invariant(&*self);
        }
        self.last_expression = expression_text;
        self.pending = None;
    }

    /// '.': starts the fractional part of the entry.
    pub fn input_decimal(&mut self)
        ensures
            final(self)@ == model_input_decimal(old(self)@),
    {
        proof {
            use_type_invariant(&*self);
        }
        self.ensure_editing();
        proof {
            use_type_invariant(&*self);
        }
        let text = match &self.display {
            DisplayState::Editing(value) => chars_of(value.as_str()),
            _ => {
                return;
            },
        };
        if !contains_char(&text, '.') {
            let ghost before = text@;
            let mut out = if text.len() == 0 {
                vec!['0']
            } else {
                text
            };
            proof {
                if before.len() == 0 {
                    assert(out@ =~= seq!['0']);
                }
            }
            out.push('.');
            proof {
                lemma_keypad_push_dot(before);
                assert(out@ == (if before.len() == 0 {
                    seq!['0']
                } else {
                    before
                }).push('.'));
            }
            self.display = DisplayState::Editing(string_from_chars(&out));
        }
    }

    /// A digit key.
    pub fn input_digit(&mut self, c: char)
        ensures
            final(self)@ == model_input_digit(old(self)@, c),
    {
        proof {
            use_type_invariant(&*self);
        }
        if !('0' <= c && c <= '9') {
            return;
        }
        self.ensure_editing();
        proof {
            use_type_invariant(&*self);
        }
        let text = match &self.display {
            DisplayState::Editing(value) => chars_of(value.as_str()),
            _ => {
                return;
            },
        };
        let lone_zero = text.len() == 1 && text[0] == '0';
        proof {
            assert(lone_zero == (text@ == seq!['0'])) by {
                if text@ == seq!['0'] {
                    assert(text@[0] == '0');
                }
                if lone_zero {
                    assert(text@ =~= seq!['0']);
                }
            }
        }
        let mut out = if lone_zero {
            Vec::new()
        } else {
            text
        };
        out.push(c);
        proof {
            if lone_zero {
                assert(out@ =~= Seq::<char>::empty().push(c));
                lemma_empty_entry_is_keypad_text();
                lemma_keypad_push_digit(Seq::empty(), c);
            } else {
                lemma_keypad_push_digit(text@, c);
            }
        }
        self.display = DisplayState::Editing(string_from_chars(&out));
    }

    /// An operator key.
    pub fn input_operator(&mut self, op: Operator)
        ensures
            final(self)@ == model_input_operator(old(self)@, op),
    {
        proof {
            use_type_invariant(&*self);
        }
        let ghost m = self@;
        let empty_entry = match &self.display {
            DisplayState::Editing(value) => value.as_str().is_empty(),
            _ => false,
        };
        proof {
            assert(empty_entry == (m.display == DisplayModel::Editing(Seq::<char>::empty()))) by {
                if let DisplayModel::Editing(s) = m.display {
                    if s.len() == 0 {
                        assert(s =~= Seq::<char>::empty());
                    }
                }
            }
        }
        if self.pending.is_some() {
            if empty_entry {
                let left = match &self.pending {
                    Some(pending) => pending.left.clone(),
                    None => {
                        return;
                    },
                };
                self.last_expression = operator_expression_text(&left, op);
                self.pending = Some(PendingOperation { left, operator: op });
                return;
            }
            self.evaluate();
            proof {
                use_type_invariant(&*self);
            }
            if let DisplayState::Error = &self.display {
                return;
            }
        }
        let current = self.current_value();
        self.last_expression = operator_expression_text(&current, op);
        self.pending = Some(PendingOperation { left: current, operator: op });
        self.display = DisplayState::Editing(String::new());
    }

    /// ±: negates the shown result, or toggles the sign of the entry.
    pub fn negate(&mut self)
        ensures
            final(self)@ == model_negate(old(self)@),
    {
        proof {
            use_type_invariant(&*self);
            lemma_negate_keeps_entry(old(self)@);
        }
        let ghost m = self@;
        let shown = match &self.display {
            DisplayState::Result(value) => Some(value.clone()),
            _ => None,
        };
        match shown {
            Some(value) => {
                let negated = rational_neg(&value);
                if self.pending.is_none() {
                    let result_text = to_dec_string(&negated);
                    let mut expression: Vec<char> = Vec::new();
                    expression.push('\u{2212}');
                    expression.push('(');
                    let value_text = format_rational(&value);
                    append_chars(&mut expression, &value_text);
                    expression.push(')');
                    expression.push(' ');
                    expression.push('=');
                    proof {
                        assert(expression@ =~= negation_expression(value@));
                    }
                    let expression_text = string_from_chars(&expression);
                    self.push_history(expression_text.clone(), result_text);
                    proof {
                        use_type_invariant(&*self);
                    }
                    self.last_expression = expression_text;
                    self.last_result = Some(negated.clone());
                }
                self.display = DisplayState::Result(negated);
            },
            None => {
                let text = match &self.display {
                    DisplayState::Editing(value) => chars_of(value.as_str()),
                    _ => {
                        return;
                    },
                };
                let n = text.len();
                if n > 0 && text[0] == '-' {
                    let mut out: Vec<char> = Vec::new();
                    crate::text::append_range(&mut out, &text, 1, n);
                    proof {
                        assert(out@ =~= text@.skip(1));
                    }
                    self.display = DisplayState::Editing(string_from_chars(&out));
                } else if !(n == 1 && text[0] == '0') {
                    proof {
                        assert(text@ != seq!['0']) by {
                            if text@ == seq!['0'] {
                                assert(text@[0] == '0');
                            }
                        }
                    }
                    let mut out: Vec<char> = Vec::new();
                    out.push('-');
                    append_chars(&mut out, &text);
                    self.display = DisplayState::Editing(string_from_chars(&out));
                } else {
                    proof {
                        assert(text@ =~= seq!['0']);
                    }
                }
            },
        }
    }

    /// Backspace: deletes the last character of the entry.
    pub fn backspace(&mut self)
        ensures
            final(self)@ == model_backspace(old(self)@),
    {
        proof {
            use_type_invariant(&*self);
            lemma_backspace_keeps_entry(old(self)@);
        }
        let mut text = match &self.display {
            DisplayState::Editing(value) => chars_of(value.as_str()),
            _ => {
                return;
            },
        };
        if text.len() > 0 {
            text.pop();
            self.display = DisplayState::Editing(string_from_chars(&text));
        }
    }

    /// Handles a key press.  After an error only Clear is heeded.
    pub fn update(&mut self, message: Message)
        ensures
            final(self)@ == model_update(old(self)@, message),
    {
        proof {
            use_type_invariant(&*self);
        }
        let is_error = match &self.display {
            DisplayState::Error => true,
            _ => false,
        };
        let is_clear = match message {
            Message::Clear => true,
            _ => false,
        };
        if is_error && !is_clear {
            return;
        }
        match message {
            Message::Answer => self.answer(),
            Message::Backspace => self.backspace(),
            Message::Clear => self.clear(),
            Message::ClearEntry => self.clear_entry(),
            Message::Digit(c) => self.input_digit(c),
            Message::Decimal => self.input_decimal(),
            Message::Equals => self.evaluate(),
            Message::Negate => self.negate(),
            Message::Operator(op) => self.input_operator(op),
        }
    }
}

impl Operator {
    /// The operator's symbol.
    pub fn symbol(&self) -> (c: char)
        ensures
            c == operator_char(*self),
    {
        match self {
            Operator::Add => '+',
            Operator::Divide => '\u{f7}',
            Operator::Multiply => '\u{d7}',
            Operator::Subtract => '\u{2212}',
        }
    }
}


/// The empty entry is keypad text.
proof fn lemma_empty_entry_is_keypad_text()
    ensures
        is_keypad_text(Seq::<char>::empty()),
{
    assert(Seq::<char>::empty().skip(0) =~= Seq::<char>::empty());
}

proof fn lemma_ensure_editing_keeps_entry(m: AppModel)
    requires
        entry_is_keypad_text(m),
    ensures
        entry_is_keypad_text(model_ensure_editing(m)),
{
    lemma_empty_entry_is_keypad_text();
}

proof fn lemma_input_decimal_keeps_entry(m: AppModel)
    requires
        entry_is_keypad_text(m),
    ensures
        entry_is_keypad_text(model_input_decimal(m)),
{
    lemma_ensure_editing_keeps_entry(m);
    if let DisplayModel::Editing(s) = model_ensure_editing(m).display {
        if !s.contains('.') {
            lemma_keypad_push_dot(s);
        }
    }
}

proof fn lemma_input_digit_keeps_entry(m: AppModel, c: char)
    requires
        entry_is_keypad_text(m),
    ensures
        entry_is_keypad_text(model_input_digit(m, c)),
{
    lemma_ensure_editing_keeps_entry(m);
    lemma_empty_entry_is_keypad_text();
    if '0' <= c && c <= '9' {
        if let DisplayModel::Editing(s) = model_ensure_editing(m).display {
            if s == seq!['0'] {
                lemma_keypad_push_digit(Seq::empty(), c);
            } else {
                lemma_keypad_push_digit(s, c);
            }
        }
    }
}

proof fn lemma_negate_keeps_entry(m: AppModel)
    requires
        entry_is_keypad_text(m),
    ensures
        entry_is_keypad_text(model_negate(m)),
{
    if let DisplayModel::Editing(s) = m.display {
        if s.len() > 0 && s[0] == '-' {
            lemma_keypad_strip_minus(s);
        } else if s != seq!['0'] {
            lemma_keypad_add_minus(s);
        }
    }
}

proof fn lemma_backspace_keeps_entry(m: AppModel)
    requires
        entry_is_keypad_text(m),
    ensures
        entry_is_keypad_text(model_backspace(m)),
{
    if let DisplayModel::Editing(s) = m.display {
        if s.len() > 0 {
            lemma_keypad_drop_last(s);
        }
    }
}

/// The entry always reads as keypad text (an optional '-', digits, and at
/// most one '.' followed by digits), so its value is always determined.
pub proof fn lemma_entry_stays_keypad_text(m: AppModel, message: Message)
    requires
        entry_is_keypad_text(m),
    ensures
        entry_is_keypad_text(model_update(m, message)),
{
    lemma_empty_entry_is_keypad_text();
    lemma_input_decimal_keeps_entry(m);
    lemma_negate_keeps_entry(m);
    lemma_backspace_keeps_entry(m);
    if let Message::Digit(c) = message {
        lemma_input_digit_keeps_entry(m, c);
    }
}

/// After an error, every key but Clear leaves the window as it is.
pub proof fn lemma_error_blocks_all_but_clear(m: AppModel, message: Message)
    requires
        m.display is Error,
        !(message is Clear),
    ensures
        model_update(m, message) == m,
{
}

/// Clear returns the window to its initial state, whatever the state.
pub proof fn lemma_clear_resets(m: AppModel)
    ensures
        model_update(m, Message::Clear) == initial_model(),
{
}

/// Evaluating a pending division by zero shows an error instead of a result.
pub proof fn lemma_division_by_zero_shows_error(m: AppModel, left: (int, int))
    requires
        !(m.display is Error),
        m.pending == Some((left, Operator::Divide)),
        model_current_value(m).0 == 0,
    ensures
        model_update(m, Message::Equals).display == DisplayModel::Error,
        model_update(m, Message::Equals).pending is None,
{
}

/// An operator key after a pending division by zero also shows the error,
/// which then stays until Clear.
pub proof fn lemma_operator_after_division_by_zero_shows_error(
    m: AppModel,
    left: (int, int),
    op: Operator,
)
    requires
        !(m.display is Error),
        m.display != DisplayModel::Editing(Seq::<char>::empty()),
        m.pending == Some((left, Operator::Divide)),
        model_current_value(m).0 == 0,
    ensures
        model_update(m, Message::Operator(op)).display == DisplayModel::Error,
        model_update(m, Message::Operator(op)).pending is None,
{
}

/// Ans after a successful evaluation shows that evaluation's result.
pub proof fn lemma_answer_recalls_result(m: AppModel, left: (int, int), op: Operator, v: (int, int))
    requires
        !(m.display is Error),
        m.pending == Some((left, op)),
        operation(left, op, model_current_value(m)) == Some(v),
    ensures
        model_update(model_update(m, Message::Equals), Message::Answer).display
            == DisplayModel::Result(v),
{
}

/// Pressing '.' a second time changes nothing: an entry has at most one
/// decimal point.
pub proof fn lemma_decimal_point_once(m: AppModel)
    requires
        !(m.display is Error),
    ensures
        model_update(model_update(m, Message::Decimal), Message::Decimal) == model_update(
            m,
            Message::Decimal,
        ),
{
    let m1 = model_update(m, Message::Decimal);
    if let DisplayModel::Editing(s) = model_ensure_editing(m).display {
        if !s.contains('.') {
            let t = (if s.len() == 0 {
                seq!['0']
            } else {
                s
            }).push('.');
            assert(t[t.len() - 1] == '.');
            assert(t.contains('.'));
        }
    }
}

/// ± twice gives back the display, for a shown result and for any entry
/// but "-0" (which turns into "0", a lone zero that ± leaves alone); it gives
/// back the whole state except where a result with nothing pending was
/// shown (each of those negations is logged).
pub proof fn lemma_negate_twice_restores_display(m: AppModel)
    requires
        !(m.display is Error),
        entry_is_keypad_text(m),
        m.display != DisplayModel::Editing(seq!['-', '0']),
    ensures
        model_update(model_update(m, Message::Negate), Message::Negate).display == m.display,
        !(m.display is Result && m.pending is None) ==> model_update(
            model_update(m, Message::Negate),
            Message::Negate,
        ) == m,
{
    match m.display {
        DisplayModel::Result(v) => {
            assert(rat_neg(rat_neg(v)) == v);
        },
        DisplayModel::Editing(s) => {
            if s.len() > 0 && s[0] == '-' {
                lemma_keypad_strip_minus(s);
                let t = s.skip(1);
                if t == seq!['0'] {
                    assert(s =~= seq!['-', '0']);
                }
                assert(seq!['-'] + t =~= s);
            } else if s != seq!['0'] {
                let t = seq!['-'] + s;
                assert(t.skip(1) =~= s);
            }
        },
        DisplayModel::Error => {},
    }
}

/// The history panel never holds more than [`MAX_VISIBLE_HISTORY`] lines.
pub proof fn lemma_history_stays_bounded(m: AppModel, message: Message)
    requires
        m.history.len() <= MAX_VISIBLE_HISTORY,
    ensures
        model_update(m, message).history.len() <= MAX_VISIBLE_HISTORY,
{
    let m1 = model_evaluate(m);
    assert(m1.history.len() <= MAX_VISIBLE_HISTORY);
}

/// Negating a shown result with nothing pending logs the negation.
pub proof fn lemma_standalone_negation_is_logged(m: AppModel, v: (int, int))
    requires
        m.display == DisplayModel::Result(v),
        m.pending is None,
    ensures
        model_update(m, Message::Negate).history == pushed(
            m.history,
            (negation_expression(v), dec_string(rat_neg(v))),
        ),
        model_update(m, Message::Negate).display == DisplayModel::Result(rat_neg(v)),
        model_update(m, Message::Negate).last_result == Some(rat_neg(v)),
{
}

/// Negating the numerator before reducing negates the reduced fraction, and a
/// fraction with a non-negative numerator and a positive denominator reduces
/// to a non-negative numerator.
proof fn lemma_canonical_negated(n: int, d: int)
    requires
        d > 0,
    ensures
        canonical(-n, d) == rat_neg(canonical(n, d)),
        n >= 0 ==> canonical(n, d).0 >= 0,
{
    assert(abs(-n) == abs(n));
    let g = crate::rational::gcd(abs(n), abs(d));
    crate::rational::lemma_gcd_positive(abs(n), abs(d));
    let q = (abs(n) / g) as int;
    assert(q >= 0);
    assert(canonical(n, d) == (if (n < 0) != (d < 0) {
        -q
    } else {
        q
    }, (abs(d) / g) as int));
    assert(canonical(-n, d) == (if (-n < 0) != (d < 0) {
        -q
    } else {
        q
    }, (abs(d) / g) as int));
    if n == 0 {
        assert(g == abs(d)) by {
            reveal_with_fuel(crate::rational::gcd, 2);
            assert(0nat % abs(d) == 0);
        }
        assert(q == 0);
    }
}

/// The value an entry stands for carries the entry's sign: an entry without
/// a leading '-' stands for a value of at least zero, and the same entry
/// behind a '-' stands for the negation of that value (so "-2" is -2).
pub proof fn lemma_entry_value_carries_its_sign(m: AppModel, negated: AppModel, s: Seq<char>)
    requires
        is_keypad_text(s),
        !(s.len() > 0 && s[0] == '-'),
        m.display == DisplayModel::Editing(s),
        negated.display == DisplayModel::Editing(seq!['-'] + s),
    ensures
        model_current_value(m).0 >= 0,
        model_current_value(negated) == rat_neg(model_current_value(m)),
{
    let t = seq!['-'] + s;
    assert(t[0] == '-');
    assert(sign_len(t) == 1);
    assert(sign_len(s) == 0);
    assert(t.skip(1) =~= s);
    assert(s.skip(0) =~= s);
    assert(t.skip(sign_len(t)) == s.skip(sign_len(s)));
    let u = s;
    if crate::decimal::all_digits(u) {
        if u.len() > 0 {
            lemma_canonical_negated(digits_value(u) as int, 1);
            assert(-1 * digits_value(u) == -(digits_value(u) as int));
        }
    } else {
        let i = choose|i: int|
            0 <= i < u.len() && u[i] == '.' && crate::decimal::all_digits(u.take(i))
                && crate::decimal::all_digits(u.skip(i + 1));
        let whole = u.take(i);
        let fraction = u.skip(i + 1);
        let scale = vstd::arithmetic::power::pow(10, fraction.len());
        vstd::arithmetic::power::lemma_pow_positive(10, fraction.len());
        let x: int = digits_value(whole) * scale + digits_value(fraction);
        assert(x >= 0) by (nonlinear_arith)
            requires
                scale > 0,
                x == digits_value(whole) * scale + digits_value(fraction),
        ;
        lemma_canonical_negated(x, scale);
        assert(-1 * x == -x);
    }
}

/// ± on a shown result always shows its negation, whether or not an
/// operation is pending.
pub proof fn lemma_negate_shows_negated_result(m: AppModel, v: (int, int))
    requires
        m.display == DisplayModel::Result(v),
    ensures
        model_update(m, Message::Negate).display == DisplayModel::Result((-v.0, v.1)),
        model_update(m, Message::Negate).pending == m.pending,
{
}

/// '.' on a shown result starts a new entry "0.", keeping what is pending
/// and the history.
pub proof fn lemma_decimal_after_result_starts_entry(m: AppModel)
    requires
        m.display is Result,
    ensures
        model_update(m, Message::Decimal).display == DisplayModel::Editing(seq!['0', '.']),
        model_update(m, Message::Decimal).pending == m.pending,
        model_update(m, Message::Decimal).history == m.history,
{
    assert(!Seq::<char>::empty().contains('.'));
    assert(seq!['0'].push('.') =~= seq!['0', '.']);
}

/// The Delete key clears the entry only: whatever the state (but an error,
/// which only Clear leaves), it empties the entry and keeps the pending
/// operation, the history, the expression line and the last result.
pub proof fn lemma_delete_clears_only_the_entry(m: AppModel)
    requires
        !(m.display is Error),
    ensures
        shortcut(Key::Delete) matches Some(message) && model_update(m, message) == (AppModel {
            display: DisplayModel::Editing(Seq::empty()),
            ..m
        }),
{
}

} // verus!
