//! The form that creates timers: it keeps what was typed and, on submit,
//! asks the stack for a new timer.
use crate::stack::TimerMessage;
use vstd::prelude::*;

verus! {

/// `c` is an ASCII decimal digit.
pub open spec fn is_digit(c: char) -> bool {
    '0' <= c && c <= '9'
}

/// The value of the decimal digits `d`.
pub open spec fn digits_value(d: Seq<char>) -> nat
    decreases d.len(),
{
    if d.len() == 0 {
        0
    } else {
        digits_value(d.drop_last()) * 10 + (d.last() as nat - '0' as nat) as nat
    }
}

/// The digits of a whole number as text: an optional `+` and then one or more
/// decimal digits.
pub open spec fn unsigned_digits(text: Seq<char>) -> Seq<char> {
    if text.len() > 0 && text[0] == '+' {
        text.subrange(1, text.len() as int)
    } else {
        text
    }
}

/// The number of minutes that `text` writes, if it is a whole number that fits
/// in 64 bits.
pub open spec fn minutes_of(text: Seq<char>) -> Option<nat> {
    let d = unsigned_digits(text);
    if d.len() > 0 && (forall|i: int| 0 <= i < d.len() ==> is_digit(#[trigger] d[i]))
        && digits_value(d) <= u64::MAX {
        Some(digits_value(d))
    } else {
        None
    }
}

/// The length in seconds that the length field's text gives: its minutes
/// times sixty, when that fits in 64 bits.
pub open spec fn length_of(text: Seq<char>) -> Option<u64> {
    match minutes_of(text) {
        Some(m) => if m * 60 <= u64::MAX {
            Some((m * 60) as u64)
        } else {
            None
        },
        None => None,
    }
}

proof fn lemma_digits_prefix(d: Seq<char>, k: int)
    requires
        0 <= k <= d.len(),
        forall|i: int| 0 <= i < d.len() ==> is_digit(#[trigger] d[i]),
    ensures
        digits_value(d.take(k)) <= digits_value(d),
    decreases d.len() - k,
{
    if k < d.len() {
        lemma_digits_prefix(d, k + 1);
        assert(d.take(k + 1).drop_last() =~= d.take(k));
        assert(d.take(k + 1).last() == d[k]);
        assert(is_digit(d[k]));
    } else {
        assert(d.take(k) =~= d);
    }
}

/// Reads the length field: whole minutes, written as `str::parse` reads a
/// `u64`, turned into seconds. `None` when the text is no such number or
/// the seconds do not fit in 64 bits.
pub fn length_from_minutes_text(text: &str) -> (r: Option<u64>)
    ensures
        r == length_of(text@),
{
    let n = text.unicode_len();
    let mut i: usize = 0;
    if n > 0 && text.get_char(0) == '+' {
        i = 1;
    }
    let start = i;
    let ghost d = unsigned_digits(text@);
    assert(d =~= text@.subrange(start as int, n as int));
    if start == n {
        return None;
    }
    let mut acc: u64 = 0;
    while i < n
        invariant
            start <= i <= n,
            n == text@.len(),
            d == text@.subrange(start as int, n as int),
            d == unsigned_digits(text@),
            forall|k: int| 0 <= k < i - start ==> is_digit(#[trigger] d[k]),
            acc == digits_value(d.take(i - start)),
        decreases n - i,
    {
        let c = text.get_char(i);
        assert(d[i - start] == text@[i as int]);
        if c < '0' || c > '9' {
            assert(!is_digit(d[i - start]));
            assert(minutes_of(text@).is_none());
            return None;
        }
        let digit: u64 = (c as u32 - '0' as u32) as u64;
        assert(d.take(i + 1 - start).drop_last() =~= d.take(i - start));
        if acc > (u64::MAX - digit) / 10 {
            proof {
                assert(acc * 10 + digit > u64::MAX) by (nonlinear_arith)
                    requires
                        acc > (u64::MAX - digit) / 10,
                        digit <= 9,
                ;
                assert(d.take(i + 1 - start).last() == d[i - start]);
                assert(digits_value(d.take(i + 1 - start)) == acc * 10 + digit);
                if forall|j: int| 0 <= j < d.len() ==> is_digit(#[trigger] d[j]) {
                    lemma_digits_prefix(d, i + 1 - start);
                }
                assert(minutes_of(text@).is_none());
            }
            return None;
        }
        assert(acc * 10 + digit <= u64::MAX) by (nonlinear_arith)
            requires
                acc <= (u64::MAX - digit) / 10,
                digit <= 9,
        ;
        assert(d.take(i + 1 - start).last() == d[i - start]);
        acc = acc * 10 + digit;
        i = i + 1;
    }
    assert(d.take(d.len() as int) =~= d);
    if acc > u64::MAX / 60 {
        None
    } else {
        Some(acc * 60)
    }
}

/// What the form receives.
#[derive(Debug, Clone, PartialEq, Eq)]
pub enum CreatorMessage {
    /// The name field now holds this text.
    NameInput(String),
    /// The length field now holds this many seconds, or nothing usable.
    DurationInput(Option<u64>),
    /// The create button was pressed.
    Submit,
}

/// The form's fields: a name and, once a usable one was typed, a length in
/// seconds.
#[derive(Debug)]
pub struct TimerCreator {
    name: String,
    duration_secs: Option<u64>,
}

impl TimerCreator {
    pub closed spec fn name_spec(&self) -> Seq<char> {
        self.name@
    }

    pub closed spec fn duration_spec(&self) -> Option<u64> {
        self.duration_secs
    }

    /// An empty form.
    pub fn new() -> (r: TimerCreator)
        ensures
            r.name_spec() == Seq::<char>::empty(),
            r.duration_spec().is_none(),
    {
        TimerCreator { name: String::new(), duration_secs: None }
    }

    /// Records an input. On submit with a usable length it returns the
    /// message that adds a timer with the current name and length; otherwise
    /// it returns `None`. Submitting leaves the fields as they are.
    pub fn update(&mut self, msg: CreatorMessage) -> (send: Option<TimerMessage>)
        ensures
            match msg {
                CreatorMessage::NameInput(name) => {
                    &&& final(self).name_spec() == name@
                    &&& final(self).duration_spec() == old(self).duration_spec()
                    &&& send.is_none()
                },
                CreatorMessage::DurationInput(d) => {
                    &&& final(self).name_spec() == old(self).name_spec()
                    &&& final(self).duration_spec() == d
                    &&& send.is_none()
                },
                CreatorMessage::Submit => {
                    &&& final(self).name_spec() == old(self).name_spec()
                    &&& final(self).duration_spec() == old(self).duration_spec()
                    &&& match old(self).duration_spec() {
                        Some(d) => match send {
                            Some(TimerMessage::NewTimer(n, len)) => n@ == old(self).name_spec()
                                && len == d,
                            _ => false,
                        },
                        None => send.is_none(),
                    }
                },
            },
    {
        match msg {
            CreatorMessage::NameInput(name) => {
                self.name = name;
                None
            },
            CreatorMessage::DurationInput(d) => {
                self.duration_secs = d;
                None
            },
            CreatorMessage::Submit => match self.duration_secs {
                Some(d) => Some(TimerMessage::NewTimer(self.name.clone(), d)),
                None => None,
            },
        }
    }
}

} // verus!
