use radio_schedule::clock::{ClockError, Time};

fn time(hour: u32, min: u8, sec: u8) -> Time {
    Time { hour, min, sec }
}

#[test]
fn from_sec_splits_into_fields() {
    assert_eq!(Time::from_sec(0), time(0, 0, 0));
    assert_eq!(Time::from_sec(59), time(0, 0, 59));
    assert_eq!(Time::from_sec(60), time(0, 1, 0));
    assert_eq!(Time::from_sec(3599), time(0, 59, 59));
    assert_eq!(Time::from_sec(3600), time(1, 0, 0));
    assert_eq!(Time::from_sec(3661), time(1, 1, 1));
    assert_eq!(Time::from_sec(7410), time(2, 3, 30));
}

#[test]
fn from_sec_does_not_wrap_the_hour() {
    assert_eq!(Time::from_sec(24 * 3600), time(24, 0, 0));
    assert_eq!(Time::from_sec(90_000), time(25, 0, 0));
    assert_eq!(Time::from_sec(300 * 3600 + 61), time(300, 1, 1));
    assert_eq!(
        Time::from_sec(u32::MAX as u64 * 3600 + 3599),
        time(u32::MAX, 59, 59)
    );
}

#[test]
fn to_sec_weighs_the_fields() {
    assert_eq!(time(0, 0, 0).to_sec(), 0);
    assert_eq!(time(1, 1, 1).to_sec(), 3661);
    assert_eq!(time(2, 3, 30).to_sec(), 7410);
    assert_eq!(time(0, 75, 90).to_sec(), 4590);
    assert_eq!(time(u32::MAX, 255, 255).to_sec(), 4294967295 * 3600 + 255 * 60 + 255);
}

#[test]
fn from_sec_undoes_to_sec_on_canonical_values() {
    for hour in [0u32, 1, 23, 24, 255, 256, 100_000] {
        for min in [0u8, 1, 30, 59] {
            for sec in [0u8, 1, 30, 59] {
                let t = time(hour, min, sec);
                assert_eq!(Time::from_sec(t.to_sec()), t);
            }
        }
    }
}

#[test]
fn from_sec_makes_other_values_canonical() {
    assert_eq!(Time::from_sec(time(0, 75, 90).to_sec()), time(1, 16, 30));
    assert_eq!(Time::from_sec(time(0, 255, 255).to_sec()), time(4, 19, 15));
}

#[test]
fn to_sec_undoes_from_sec() {
    for total in [0u64, 1, 59, 60, 61, 3599, 3600, 3601, 86_399, 86_400, 1_000_000] {
        assert_eq!(Time::from_sec(total).to_sec(), total);
    }
}

#[test]
fn add_goes_by_seconds() {
    assert_eq!(time(0, 59, 30).add(time(0, 1, 0)), time(1, 0, 30));
    assert_eq!(time(0, 0, 30).add(time(0, 0, 30)), time(0, 1, 0));
    assert_eq!(time(23, 59, 59).add(time(0, 0, 1)), time(24, 0, 0));
    assert_eq!(time(0, 0, 0).add(time(0, 0, 0)), time(0, 0, 0));
    assert_eq!(time(0, 200, 0).add(time(0, 0, 0)), time(3, 20, 0));
}

#[test]
fn add_is_commutative() {
    let values = [time(0, 0, 0), time(0, 59, 59), time(1, 2, 3), time(30, 45, 15), time(0, 90, 90)];
    for a in values {
        for b in values {
            assert_eq!(a.add(b), b.add(a));
            assert_eq!(a.add(b).to_sec(), a.to_sec() + b.to_sec());
        }
    }
}

#[test]
fn add_is_associative() {
    let values = [time(0, 0, 0), time(0, 59, 59), time(1, 2, 3), time(30, 45, 15)];
    for a in values {
        for b in values {
            for c in values {
                assert_eq!(a.add(b).add(c), a.add(b.add(c)));
                assert_eq!(a.add(b).add(c).to_sec(), a.to_sec() + b.to_sec() + c.to_sec());
            }
        }
    }
}

#[test]
fn sub_goes_by_seconds() {
    assert_eq!(time(1, 0, 30).sub(time(0, 59, 30)), time(0, 1, 0));
    assert_eq!(time(1, 0, 0).sub(time(0, 0, 1)), time(0, 59, 59));
    assert_eq!(time(5, 5, 5).sub(time(5, 5, 5)), time(0, 0, 0));
}

#[test]
fn sub_undoes_add() {
    let values = [time(0, 0, 0), time(0, 59, 59), time(1, 2, 3), time(30, 45, 15)];
    for a in values {
        for b in values {
            assert_eq!(a.add(b).sub(b), a);
        }
    }
    assert_eq!(time(1, 2, 3).add(time(0, 200, 200)).sub(time(0, 200, 200)), time(1, 2, 3));
}

#[test]
fn sub_after_add_makes_a_value_canonical() {
    let a = time(0, 75, 0);
    let b = time(0, 0, 1);
    assert_eq!(a.add(b).sub(b), time(1, 15, 0));
}

#[test]
fn checked_add_tells_when_the_sum_does_not_fit() {
    assert_eq!(time(0, 59, 30).checked_add(time(0, 1, 0)), Ok(time(1, 0, 30)));
    assert_eq!(time(u32::MAX, 59, 58).checked_add(time(0, 0, 1)), Ok(time(u32::MAX, 59, 59)));
    assert_eq!(time(u32::MAX, 59, 59).checked_add(time(0, 0, 1)), Err(ClockError::Overflow));
    assert_eq!(time(u32::MAX, 0, 0).checked_add(time(1, 0, 0)), Err(ClockError::Overflow));
    assert_eq!(time(u32::MAX, 60, 0).checked_add(time(0, 0, 0)), Err(ClockError::Overflow));
}

#[test]
fn checked_sub_tells_when_there_is_no_difference() {
    assert_eq!(time(1, 0, 30).checked_sub(time(0, 59, 30)), Ok(time(0, 1, 0)));
    assert_eq!(time(0, 0, 0).checked_sub(time(0, 0, 0)), Ok(time(0, 0, 0)));
    assert_eq!(time(0, 59, 59).checked_sub(time(1, 0, 0)), Err(ClockError::Underflow));
    assert_eq!(time(0, 0, 0).checked_sub(time(0, 0, 1)), Err(ClockError::Underflow));
    assert_eq!(time(0, 1, 0).checked_sub(time(0, 0, 60)), Ok(time(0, 0, 0)));
    assert_eq!(time(u32::MAX, 255, 255).checked_sub(time(0, 0, 0)), Err(ClockError::Overflow));
    assert_eq!(
        time(u32::MAX, 255, 255).checked_sub(time(0, 255, 255)),
        Ok(time(u32::MAX, 0, 0))
    );
}

#[test]
fn render_joins_the_fields_with_colons() {
    assert_eq!(time(0, 0, 0).render(), "0:0:0");
    assert_eq!(time(1, 0, 30).render(), "1:0:30");
    assert_eq!(time(2, 3, 30).render(), "2:3:30");
    assert_eq!(time(123, 45, 59).render(), "123:45:59");
    assert_eq!(time(4294967295, 255, 100).render(), "4294967295:255:100");
}
