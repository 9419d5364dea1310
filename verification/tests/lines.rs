use fan_in::decimal::render;
use fan_in::trace::{received, sending};

#[test]
fn render_writes_single_digits() {
    assert_eq!(render(0), "0");
    assert_eq!(render(7), "7");
    assert_eq!(render(9), "9");
}

#[test]
fn render_writes_several_digits_most_significant_first() {
    assert_eq!(render(10), "10");
    assert_eq!(render(51), "51");
    assert_eq!(render(1203), "1203");
    assert_eq!(render(1_000_000), "1000000");
}

#[test]
fn render_writes_a_minus_sign_before_negative_numbers() {
    assert_eq!(render(-1), "-1");
    assert_eq!(render(-10), "-10");
    assert_eq!(render(-987), "-987");
}

#[test]
fn render_writes_the_extremes() {
    assert_eq!(render(i32::MAX), "2147483647");
    assert_eq!(render(i32::MIN), "-2147483648");
}

#[test]
fn render_agrees_with_the_standard_formatting() {
    let mut value: i32 = -2500;
    while value <= 2500 {
        assert_eq!(render(value), format!("{}", value));
        value += 1;
    }
    let mut power: i32 = 1;
    for _ in 0..9 {
        power *= 10;
        for delta in [-1, 0, 1] {
            assert_eq!(render(power + delta), format!("{}", power + delta));
            assert_eq!(render(-power + delta), format!("{}", -power + delta));
        }
    }
}

#[test]
fn sending_line_names_the_value_and_the_worker() {
    assert_eq!(sending(1, "1st thread"), "Sending 1 through 1st thread");
    assert_eq!(sending(55, "2nd thread"), "Sending 55 through 2nd thread");
    assert_eq!(sending(-3, "w"), "Sending -3 through w");
    assert_eq!(sending(0, ""), "Sending 0 through ");
}

#[test]
fn received_line_names_the_value() {
    assert_eq!(received(1), "received: 1");
    assert_eq!(received(54), "received: 54");
    assert_eq!(received(-20), "received: -20");
}
