//! Durations and points in time, written as hours, minutes and seconds.

use crate::text::{decimal_digits, push_decimal};
use vstd::arithmetic::div_mod::{lemma_fundamental_div_mod, lemma_fundamental_div_mod_converse};
use vstd::prelude::*;

verus! {

/// The largest number of seconds that a [`Time`] can stand for in canonical
/// form: as many hours as the `hour` field holds, 59 minutes and 59 seconds.
pub const MAX_SEC: u64 = 15_461_882_265_599;

/// Why a calculation on times gave no time.
#[derive(Copy, Clone, PartialEq, Eq, Structural, Debug)]
pub enum ClockError {
    /// What was to be taken away is more than what it was to be taken from.
    Underflow,
    /// The result is more than a `Time` can say.
    Overflow,
}

/// An amount of time, or a point in time counted from the start of a
/// station's programme.
///
/// The hour is not wrapped at 24.  A value made by [`Time::from_sec`] is
/// canonical: its minute and second are below 60.  A value written down
/// field by field need not be.
#[derive(Copy, Clone, PartialEq, Eq, Structural, Debug)]
pub struct Time {
    pub hour: u32,
    pub min: u8,
    pub sec: u8,
}

impl Time {
    /// The number of seconds that the value stands for.
    pub open spec fn total_sec(self) -> nat {
        (self.hour as nat) * 3600 + (self.min as nat) * 60 + (self.sec as nat)
    }

    /// Minute and second are both below 60.
    pub open spec fn is_canonical(self) -> bool {
        self.min < 60 && self.sec < 60
    }

    /// Whether `total` seconds fit a canonical `Time`, that is whether the
    /// full hours in them fit the `hour` field.
    pub open spec fn representable(total: nat) -> bool {
        total <= MAX_SEC
    }

    /// The canonical value that stands for `total` seconds.  The definition
    /// is opaque; what follows from it is stated by
    /// [`Time::lemma_to_sec_undoes_from_sec`] and
    /// [`Time::lemma_from_sec_undoes_to_sec`].
    #[verifier::opaque]
    pub open spec fn spec_from_sec(total: nat) -> Time {
        Time {
            hour: (total / 3600) as u32,
            min: (total % 3600 / 60) as u8,
            sec: (total % 60) as u8,
        }
    }

    /// The sum of two values, by way of their seconds.
    pub open spec fn spec_add(self, other: Time) -> Time {
        Time::spec_from_sec(self.total_sec() + other.total_sec())
    }

    /// The difference of two values, by way of their seconds.
    pub open spec fn spec_sub(self, other: Time) -> Time {
        Time::spec_from_sec((self.total_sec() - other.total_sec()) as nat)
    }

    /// The sum of two values, where it fits.
    pub open spec fn sum_with(self, other: Time) -> Result<Time, ClockError> {
        if Time::representable(self.total_sec() + other.total_sec()) {
            Ok(self.spec_add(other))
        } else {
            Err(ClockError::Overflow)
        }
    }

    /// The difference of two values, where there is one and it fits.
    pub open spec fn difference_to(self, other: Time) -> Result<Time, ClockError> {
        if self.total_sec() < other.total_sec() {
            Err(ClockError::Underflow)
        } else if !Time::representable((self.total_sec() - other.total_sec()) as nat) {
            Err(ClockError::Overflow)
        } else {
            Ok(self.spec_sub(other))
        }
    }

    /// The value as text: hour, minute and second as decimal numbers with
    /// colons between them, none of them padded.
    pub open spec fn text(self) -> Seq<char> {
        decimal_digits(self.hour as nat) + seq![':'] + decimal_digits(self.min as nat) + seq![':']
            + decimal_digits(self.sec as nat)
    }

    /// Splits a number of seconds into hours, minutes and seconds.
    pub fn from_sec(sec: u64) -> (t: Time)
        requires
            Time::representable(sec as nat),
        ensures
            t == Time::spec_from_sec(sec as nat),
            t.hour == sec / 3600,
            t.min == sec % 3600 / 60,
            t.sec == sec % 60,
    {
        reveal(Time::spec_from_sec);
        Time { hour: (sec / 3600) as u32, min: (sec % 3600 / 60) as u8, sec: (sec % 60) as u8 }
    }

    /// The value in seconds.
    pub fn to_sec(self) -> (s: u64)
        ensures
            s == self.total_sec(),
    {
        (self.hour as u64) * 3600 + (self.min as u64) * 60 + (self.sec as u64)
    }

    /// Adds two values.  The sum is canonical.
    pub fn add(self, other: Time) -> (t: Time)
        requires
            Time::representable(self.total_sec() + other.total_sec()),
        ensures
            t == self.spec_add(other),
            t.total_sec() == self.total_sec() + other.total_sec(),
            t.is_canonical(),
    {
        proof {
            Time::lemma_to_sec_undoes_from_sec(self.total_sec() + other.total_sec());
        }
        Time::from_sec(self.to_sec() + other.to_sec())
    }

    /// Subtracts `other` from `self`.  The difference is canonical.
    pub fn sub(self, other: Time) -> (t: Time)
        requires
            other.total_sec() <= self.total_sec(),
            Time::representable((self.total_sec() - other.total_sec()) as nat),
        ensures
            t == self.spec_sub(other),
            t.total_sec() == self.total_sec() - other.total_sec(),
            t.is_canonical(),
    {
        proof {
            Time::lemma_to_sec_undoes_from_sec((self.total_sec() - other.total_sec()) as nat);
        }
        Time::from_sec(self.to_sec() - other.to_sec())
    }

    /// Adds two values, or tells that the sum does not fit.
    pub fn checked_add(self, other: Time) -> (r: Result<Time, ClockError>)
        ensures
            r == self.sum_with(other),
    {
        let total = self.to_sec() + other.to_sec();
        if total <= MAX_SEC {
            Ok(Time::from_sec(total))
        } else {
            Err(ClockError::Overflow)
        }
    }

    /// Subtracts `other` from `self`, or tells that `other` is the larger
    /// of the two, or that the difference does not fit.
    pub fn checked_sub(self, other: Time) -> (r: Result<Time, ClockError>)
        ensures
            r == self.difference_to(other),
    {
        let from = self.to_sec();
        let less = other.to_sec();
        if from < less {
            Err(ClockError::Underflow)
        } else if from - less > MAX_SEC {
            Err(ClockError::Overflow)
        } else {
            Ok(Time::from_sec(from - less))
        }
    }

    /// Writes the value as text.
    pub fn render(&self) -> (r: String)
        ensures
            r@ == self.text(),
    {
        let mut r = String::new();
        push_decimal(&mut r, self.hour as u64);
        r.push(':');
        push_decimal(&mut r, self.min as u64);
        r.push(':');
        push_decimal(&mut r, self.sec as u64);
        proof {
            assert(r@ =~= self.text());
        }
        r
    }

    /// The canonical value of a representable number of seconds stands for
    /// that number.
    pub proof fn lemma_to_sec_undoes_from_sec(total: nat)
        requires
            Time::representable(total),
        ensures
            Time::spec_from_sec(total).total_sec() == total,
            Time::spec_from_sec(total).is_canonical(),
            Time::spec_from_sec(total).hour == total / 3600,
    {
        reveal(Time::spec_from_sec);
        let t = total as int;
        let rest = t % 3600;
        lemma_fundamental_div_mod(t, 3600);
        lemma_fundamental_div_mod(rest, 60);
        lemma_fundamental_div_mod_converse(t, 60, 60 * (t / 3600) + rest / 60, rest % 60);
    }

    /// A canonical value is the one that `from_sec` makes of its seconds.
    pub proof fn lemma_from_sec_undoes_to_sec(t: Time)
        requires
            t.is_canonical(),
        ensures
            Time::representable(t.total_sec()),
            Time::spec_from_sec(t.total_sec()) == t,
    {
        reveal(Time::spec_from_sec);
        let total = t.total_sec() as int;
        let rest = t.min * 60 + t.sec;
        lemma_fundamental_div_mod_converse(total, 3600, t.hour as int, rest);
        lemma_fundamental_div_mod_converse(rest, 60, t.min as int, t.sec as int);
        lemma_fundamental_div_mod_converse(total, 60, 60 * t.hour + t.min, t.sec as int);
    }

    /// The order of the two values does not matter to their sum.
    pub proof fn lemma_add_commutes(a: Time, b: Time)
        ensures
            a.spec_add(b) == b.spec_add(a),
            a.spec_add(b).total_sec() == b.spec_add(a).total_sec(),
    {
    }

    /// Where the sum of three values fits, it does not matter which two of
    /// them are added first, and the sum stands for the sum of their seconds.
    pub proof fn lemma_add_associates(a: Time, b: Time, c: Time)
        requires
            Time::representable(a.total_sec() + b.total_sec() + c.total_sec()),
        ensures
            a.spec_add(b).spec_add(c) == a.spec_add(b.spec_add(c)),
            a.spec_add(b).spec_add(c).total_sec() == a.total_sec() + b.total_sec()
                + c.total_sec(),
    {
        Time::lemma_to_sec_undoes_from_sec(a.total_sec() + b.total_sec());
        Time::lemma_to_sec_undoes_from_sec(b.total_sec() + c.total_sec());
        Time::lemma_to_sec_undoes_from_sec(a.total_sec() + b.total_sec() + c.total_sec());
    }

    /// Where the sum fits, taking `b` away from the sum of a canonical `a`
    /// and `b` gives `a` again.
    pub proof fn lemma_sub_undoes_add(a: Time, b: Time)
        requires
            a.is_canonical(),
            Time::representable(a.total_sec() + b.total_sec()),
        ensures
            b.total_sec() <= a.spec_add(b).total_sec(),
            a.spec_add(b).spec_sub(b) == a,
    {
        Time::lemma_to_sec_undoes_from_sec(a.total_sec() + b.total_sec());
        Time::lemma_from_sec_undoes_to_sec(a);
    }
}

} // verus!
