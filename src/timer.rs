//! One countdown timer and the arithmetic of its remaining time.
use crate::clock;
use crate::creator::{digits_value, is_digit};
use instant::Instant;
use vstd::prelude::*;

verus! {

/// Nanoseconds in one second.
pub const NANOS_PER_SEC: u128 = 1_000_000_000;

/// Whole seconds left on a timer of `length_secs` seconds after `elapsed_nanos`
/// nanoseconds: positive while counting down, negative (whole seconds over) once
/// the length has passed.
pub open spec fn seconds_left_spec(length_secs: int, elapsed_nanos: int) -> int {
    let length_nanos = length_secs * 1_000_000_000;
    if elapsed_nanos <= length_nanos {
        (length_nanos - elapsed_nanos) / 1_000_000_000
    } else {
        -((elapsed_nanos - length_nanos) / 1_000_000_000)
    }
}

/// Whole seconds left on a timer of `length_secs` seconds once `elapsed_nanos`
/// nanoseconds have passed since it started.
pub fn seconds_left_after(length_secs: u64, elapsed_nanos: u128) -> (r: i128)
    ensures
        r == seconds_left_spec(length_secs as int, elapsed_nanos as int),
{
    assert(length_secs as u128 * NANOS_PER_SEC <= u64::MAX as u128 * NANOS_PER_SEC)
        by (nonlinear_arith);
    let length_nanos: u128 = length_secs as u128 * NANOS_PER_SEC;
    if elapsed_nanos <= length_nanos {
        let secs: u128 = (length_nanos - elapsed_nanos) / NANOS_PER_SEC;
        secs as i128
    } else {
        let secs: u128 = (elapsed_nanos - length_nanos) / NANOS_PER_SEC;
        -(secs as i128)
    }
}

/// Seconds left only go down as time passes: never up, and by at least one
/// whole second over any two seconds.
pub proof fn lemma_seconds_left_decreases(length_secs: nat, e1: nat, e2: nat)
    requires
        e1 <= e2,
    ensures
        seconds_left_spec(length_secs as int, e2 as int) <= seconds_left_spec(
            length_secs as int,
            e1 as int,
        ),
        e1 + 2 * NANOS_PER_SEC <= e2 ==> seconds_left_spec(length_secs as int, e2 as int)
            < seconds_left_spec(length_secs as int, e1 as int),
{
    let l = length_secs * 1_000_000_000;
    if e2 <= l {
        assert((l - e2) / 1_000_000_000 <= (l - e1) / 1_000_000_000) by (nonlinear_arith)
            requires
                e1 <= e2,
                e2 <= l,
        ;
        if e1 + 2 * NANOS_PER_SEC <= e2 {
            assert((l - e2) / 1_000_000_000 < (l - e1) / 1_000_000_000) by (nonlinear_arith)
                requires
                    e1 + 2_000_000_000 <= e2,
                    e2 <= l,
            ;
        }
    } else if e1 <= l {
        if e1 + 2 * NANOS_PER_SEC <= e2 {
            assert((l - e1) / 1_000_000_000 >= 1 || (e2 - l) / 1_000_000_000 >= 1)
                by (nonlinear_arith)
                requires
                    e1 + 2_000_000_000 <= e2,
                    e1 <= l,
                    l < e2,
            ;
        }
    } else {
        assert((e1 - l) / 1_000_000_000 <= (e2 - l) / 1_000_000_000) by (nonlinear_arith)
            requires
                e1 <= e2,
                l < e1,
        ;
        if e1 + 2 * NANOS_PER_SEC <= e2 {
            assert((e1 - l) / 1_000_000_000 < (e2 - l) / 1_000_000_000) by (nonlinear_arith)
                requires
                    e1 + 2_000_000_000 <= e2,
                    l < e1,
            ;
        }
    }
}

/// The sign of the seconds left changes once: they are positive exactly while
/// at least a whole second remains, and negative exactly once a whole second
/// of overtime has passed.
pub proof fn lemma_seconds_left_sign(length_secs: nat, elapsed_nanos: nat)
    ensures
        seconds_left_spec(length_secs as int, elapsed_nanos as int) > 0 <==> elapsed_nanos
            + NANOS_PER_SEC <= length_secs * NANOS_PER_SEC,
        seconds_left_spec(length_secs as int, elapsed_nanos as int) < 0 <==> length_secs
            * NANOS_PER_SEC + NANOS_PER_SEC <= elapsed_nanos,
{
    let l = length_secs * 1_000_000_000;
    if elapsed_nanos <= l {
        assert((l - elapsed_nanos) / 1_000_000_000 > 0 <==> elapsed_nanos + 1_000_000_000 <= l)
            by (nonlinear_arith)
            requires
                elapsed_nanos <= l,
        ;
    } else {
        assert((elapsed_nanos - l) / 1_000_000_000 > 0 <==> l + 1_000_000_000 <= elapsed_nanos)
            by (nonlinear_arith)
            requires
                l < elapsed_nanos,
        ;
    }
}

/// How pressing a timer is, from the seconds it has left.
#[derive(Debug, Clone, Copy, PartialEq, Eq, Structural)]
pub enum Urgency {
    /// A minute or less left, or overtime by any amount.
    Critical,
    /// Between a minute and five minutes left.
    Warning,
    /// More than five minutes left.
    Normal,
}

/// The urgency of a timer with `secs` seconds left; overtime counts as critical.
pub open spec fn urgency_of(secs: int) -> Urgency {
    if secs <= 60 {
        Urgency::Critical
    } else if secs <= 300 {
        Urgency::Warning
    } else {
        Urgency::Normal
    }
}

/// Classifies `secs` seconds left (negative when overtime).
pub fn urgency_class(secs: i128) -> (r: Urgency)
    ensures
        r == urgency_of(secs as int),
{
    if secs <= 60 {
        Urgency::Critical
    } else if secs <= 300 {
        Urgency::Warning
    } else {
        Urgency::Normal
    }
}

impl Urgency {
    /// The inline style that shows a timer of this urgency.
    pub fn text_color(&self) -> (r: &'static str)
        ensures
            *self == Urgency::Critical ==> r@ == "color:red;"@,
            *self == Urgency::Warning ==> r@ == "color:orange;"@,
            *self == Urgency::Normal ==> r@ == "color:black;"@,
    {
        match self {
            Urgency::Critical => "color:red;",
            Urgency::Warning => "color:orange;",
            Urgency::Normal => "color:black;",
        }
    }
}

/// The decimal digits of `d`, for `d < 10`.
pub open spec fn digit_char(d: nat) -> char {
    seq!['0', '1', '2', '3', '4', '5', '6', '7', '8', '9'][d as int]
}

/// The decimal representation of `n`, without leading zeros.
pub open spec fn decimal(n: nat) -> Seq<char>
    decreases n,
{
    if n < 10 {
        seq![digit_char(n)]
    } else {
        decimal(n / 10).push(digit_char(n % 10))
    }
}

/// `n` in decimal, padded with zeros to at least two digits.
pub open spec fn two_digits(n: nat) -> Seq<char> {
    if n < 10 {
        seq!['0'] + decimal(n)
    } else {
        decimal(n)
    }
}

/// `secs` seconds shown as `[-]HH:MM:SS`: a minus sign only in overtime, the
/// hours not wrapped.
pub open spec fn clock_text(secs: int) -> Seq<char> {
    let a = (if secs < 0 {
        -secs
    } else {
        secs
    }) as nat;
    let sign = if secs < 0 {
        seq!['-']
    } else {
        Seq::<char>::empty()
    };
    sign + two_digits(a / 3600) + seq![':'] + two_digits((a / 60) % 60) + seq![':'] + two_digits(
        a % 60,
    )
}

proof fn lemma_digit_char(d: nat)
    requires
        d < 10,
    ensures
        is_digit(digit_char(d)),
        digit_char(d) as nat - '0' as nat == d,
{
    let t = seq!['0', '1', '2', '3', '4', '5', '6', '7', '8', '9'];
    assert(t[0] == '0' && t[1] == '1' && t[2] == '2' && t[3] == '3' && t[4] == '4');
    assert(t[5] == '5' && t[6] == '6' && t[7] == '7' && t[8] == '8' && t[9] == '9');
}

/// The decimal text of `n` is made of digits, and reading it back gives `n`.
proof fn lemma_decimal(n: nat)
    ensures
        forall|i: int| 0 <= i < decimal(n).len() ==> is_digit(#[trigger] decimal(n)[i]),
        digits_value(decimal(n)) == n,
        n < 10 ==> decimal(n).len() == 1,
        10 <= n < 100 ==> decimal(n).len() == 2,
        10 <= n ==> decimal(n).len() >= 2,
    decreases n,
{
    if n < 10 {
        lemma_digit_char(n);
        assert(seq![digit_char(n)].drop_last() =~= Seq::<char>::empty());
        assert(digits_value(Seq::<char>::empty()) == 0);
        assert(seq![digit_char(n)].last() == digit_char(n));
    } else {
        lemma_decimal(n / 10);
        lemma_digit_char(n % 10);
        let d = decimal(n);
        assert(d.drop_last() =~= decimal(n / 10));
        assert(d.last() == digit_char(n % 10));
        assert(n / 10 * 10 + n % 10 == n);
        assert forall|i: int| 0 <= i < d.len() implies is_digit(#[trigger] d[i]) by {
            if i < d.len() - 1 {
                assert(d[i] == decimal(n / 10)[i]);
            }
        }
    }
}

proof fn lemma_leading_zero(d: Seq<char>)
    ensures
        digits_value(seq!['0'] + d) == digits_value(d),
    decreases d.len(),
{
    if d.len() == 0 {
        assert((seq!['0'] + d).drop_last() =~= Seq::<char>::empty());
        assert((seq!['0'] + d).last() == '0');
        assert(digits_value(Seq::<char>::empty()) == 0);
    } else {
        lemma_leading_zero(d.drop_last());
        assert((seq!['0'] + d).drop_last() =~= seq!['0'] + d.drop_last());
        assert((seq!['0'] + d).last() == d.last());
    }
}

/// `n` padded to two digits is made of digits, reads back as `n`, and has
/// exactly two of them below one hundred, at least two otherwise.
pub proof fn lemma_two_digits(n: nat)
    ensures
        forall|i: int| 0 <= i < two_digits(n).len() ==> is_digit(#[trigger] two_digits(n)[i]),
        digits_value(two_digits(n)) == n,
        two_digits(n).len() >= 2,
        n < 100 ==> two_digits(n).len() == 2,
{
    lemma_decimal(n);
    if n < 10 {
        lemma_leading_zero(decimal(n));
        let t = two_digits(n);
        assert forall|i: int| 0 <= i < t.len() implies is_digit(#[trigger] t[i]) by {
            if i > 0 {
                assert(t[i] == decimal(n)[i - 1]);
            }
        }
    }
}

/// The magnitude of `secs`.
pub open spec fn abs_secs(secs: int) -> nat {
    if secs < 0 {
        (-secs) as nat
    } else {
        secs as nat
    }
}

/// The sign of the formatted time is a leading `-` exactly in overtime.
pub open spec fn sign_text(secs: int) -> Seq<char> {
    if secs < 0 {
        seq!['-']
    } else {
        Seq::<char>::empty()
    }
}

/// The formatted time reads back as the seconds it shows: after the sign come
/// three fields of digits split by `:`; minutes and seconds have two digits
/// each and are under sixty, hours have at least two; and hours, minutes and
/// seconds add up to the absolute seconds. Under a hundred hours the text is
/// eight characters long, nine with the sign.
pub proof fn lemma_clock_text_round_trip(secs: int)
    ensures
        ({
            let a = abs_secs(secs);
            let h = two_digits(a / 3600);
            let m = two_digits((a / 60) % 60);
            let s = two_digits(a % 60);
            &&& clock_text(secs) == sign_text(secs) + h + seq![':'] + m + seq![':'] + s
            &&& (clock_text(secs)[0] == '-' <==> secs < 0)
            &&& forall|i: int| 0 <= i < h.len() ==> is_digit(#[trigger] h[i])
            &&& forall|i: int| 0 <= i < m.len() ==> is_digit(#[trigger] m[i])
            &&& forall|i: int| 0 <= i < s.len() ==> is_digit(#[trigger] s[i])
            &&& h.len() >= 2 && m.len() == 2 && s.len() == 2
            &&& digits_value(m) < 60 && digits_value(s) < 60
            &&& digits_value(h) * 3600 + digits_value(m) * 60 + digits_value(s) == a
            &&& a < 360000 ==> clock_text(secs).len() == 8 + sign_text(secs).len()
        }),
{
    let a = abs_secs(secs);
    lemma_two_digits(a / 3600);
    lemma_two_digits((a / 60) % 60);
    lemma_two_digits(a % 60);
    let h = two_digits(a / 3600);
    let t = clock_text(secs);
    assert(t =~= sign_text(secs) + h + seq![':'] + two_digits((a / 60) % 60) + seq![':']
        + two_digits(a % 60));
    if secs < 0 {
        assert(t[0] == '-');
    } else {
        assert(t[0] == h[0]);
        assert(is_digit(h[0]));
    }
    assert((a / 3600) * 3600 + ((a / 60) % 60) * 60 + a % 60 == a) by (nonlinear_arith);
}

fn digit_str(d: u128) -> (r: &'static str)
    requires
        d < 10,
    ensures
        r@ == seq![digit_char(d as nat)],
{
    proof {
        reveal_strlit("0");
        reveal_strlit("1");
        reveal_strlit("2");
        reveal_strlit("3");
        reveal_strlit("4");
        reveal_strlit("5");
        reveal_strlit("6");
        reveal_strlit("7");
        reveal_strlit("8");
        reveal_strlit("9");
    }
    let r = if d == 0 {
        "0"
    } else if d == 1 {
        "1"
    } else if d == 2 {
        "2"
    } else if d == 3 {
        "3"
    } else if d == 4 {
        "4"
    } else if d == 5 {
        "5"
    } else if d == 6 {
        "6"
    } else if d == 7 {
        "7"
    } else if d == 8 {
        "8"
    } else {
        "9"
    };
    assert(r@ =~= seq![digit_char(d as nat)]);
    r
}

fn push_decimal(out: &mut String, n: u128)
    ensures
        final(out)@ == old(out)@ + decimal(n as nat),
    decreases n,
{
    if n < 10 {
        out.append(digit_str(n));
    } else {
        push_decimal(out, n / 10);
        out.append(digit_str(n % 10));
        assert(final(out)@ =~= old(out)@ + decimal(n as nat));
    }
}

fn push_two_digits(out: &mut String, n: u128)
    ensures
        final(out)@ == old(out)@ + two_digits(n as nat),
{
    if n < 10 {
        out.append("0");
        proof {
            reveal_strlit("0");
        }
    }
    push_decimal(out, n);
    assert(final(out)@ =~= old(out)@ + two_digits(n as nat));
}

/// Formats `secs` seconds left as `[-]HH:MM:SS`.
pub fn format_remaining(secs: i128) -> (r: String)
    ensures
        r@ == clock_text(secs as int),
{
    let mut out = String::new();
    let a: u128 = if secs < 0 {
        if secs == i128::MIN {
            (i128::MAX as u128) + 1
        } else {
            (-secs) as u128
        }
    } else {
        secs as u128
    };
    if secs < 0 {
        out.append("-");
        proof {
            reveal_strlit("-");
        }
    }
    push_two_digits(&mut out, a / 3600);
    out.append(":");
    proof {
        reveal_strlit(":");
    }
    push_two_digits(&mut out, (a / 60) % 60);
    out.append(":");
    push_two_digits(&mut out, a % 60);
    assert(out@ =~= clock_text(secs as int));
    out
}

/// Seconds to wait before the next rotation, given the seconds left on the
/// head timer (`None` for an empty stack): rotation slows down when the head
/// timer is pressing so that it stays on screen longer.
pub open spec fn rotation_delay_spec(head: Option<int>) -> u64 {
    match head {
        Some(secs) => match urgency_of(secs) {
            Urgency::Critical => 20,
            Urgency::Warning => 15,
            Urgency::Normal => 10,
        },
        None => 10,
    }
}

/// The delay, in seconds, before the next rotation when the head timer has
/// `head` seconds left (`None` for an empty stack).
pub fn rotation_delay_secs(head: Option<i128>) -> (r: u64)
    ensures
        r == rotation_delay_spec(
            match head {
                Some(s) => Some(s as int),
                None => None,
            },
        ),
{
    match head {
        Some(secs) => match urgency_class(secs) {
            Urgency::Critical => 20,
            Urgency::Warning => 15,
            Urgency::Normal => 10,
        },
        None => 10,
    }
}

/// What a timer is apart from when it started.
pub struct TimerView {
    pub name: Seq<char>,
    pub length_secs: u64,
    pub id: usize,
}

/// One countdown: a label, the instant it started, its length and an id that
/// is unique within its stack.
#[derive(Debug, PartialEq, Eq)]
pub struct Timer {
    name: String,
    start: Instant,
    length_secs: u64,
    id: usize,
}

impl View for Timer {
    type V = TimerView;

    closed spec fn view(&self) -> TimerView {
        TimerView { name: self.name@, length_secs: self.length_secs, id: self.id }
    }
}

impl Timer {
    /// A timer that starts now.
    pub fn new(name: String, length_secs: u64, id: usize) -> (r: Timer)
        ensures
            r@ == (TimerView { name: name@, length_secs, id }),
    {
        let start = clock::now();
        Timer { name, start, length_secs, id }
    }

    pub fn name(&self) -> (r: &String)
        ensures
            r@ == self@.name,
    {
        &self.name
    }

    pub fn id(&self) -> (r: usize)
        ensures
            r == self@.id,
    {
        self.id
    }

    pub fn length_secs(&self) -> (r: u64)
        ensures
            r == self@.length_secs,
    {
        self.length_secs
    }

    /// Whole seconds left now (negative once the timer runs over), together
    /// with the clock reading it comes from: the nanoseconds elapsed since
    /// the timer started.
    pub fn seconds_left(&self) -> (r: (i128, u128))
        ensures
            r.0 == seconds_left_spec(self@.length_secs as int, r.1 as int),
    {
        let e = clock::elapsed_nanos(&self.start);
        (seconds_left_after(self.length_secs, e), e)
    }

    /// The time left now as `[-]HH:MM:SS`, together with the nanoseconds
    /// elapsed that it was computed from.
    pub fn display_time_left(&self) -> (r: (String, u128))
        ensures
            r.0@ == clock_text(seconds_left_spec(self@.length_secs as int, r.1 as int)),
    {
        let (secs, e) = self.seconds_left();
        (format_remaining(secs), e)
    }

    /// The style for the time left now, together with the nanoseconds elapsed
    /// that it was chosen from.
    pub fn text_color(&self) -> (r: (&'static str, u128))
        ensures
            ({
                let u = urgency_of(seconds_left_spec(self@.length_secs as int, r.1 as int));
                &&& u == Urgency::Critical ==> r.0@ == "color:red;"@
                &&& u == Urgency::Warning ==> r.0@ == "color:orange;"@
                &&& u == Urgency::Normal ==> r.0@ == "color:black;"@
            }),
    {
        let (secs, e) = self.seconds_left();
        (urgency_class(secs).text_color(), e)
    }
}

} // verus!
