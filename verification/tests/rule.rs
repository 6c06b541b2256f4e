use hodgepodge::cell::{classify, CellState};
use hodgepodge::rule::{BoardParameter, Divisor};

fn quotients_by(k: f32) -> [u16; 9] {
    let mut table = [0u16; 9];
    for count in 0..9 {
        table[count] = (count as f32 / k).floor() as u16;
    }
    table
}

fn rule_with(k1: f32, k2: f32, g: u8) -> BoardParameter {
    BoardParameter {
        k1: Divisor::from_quotients(quotients_by(k1)).unwrap(),
        k2: Divisor::from_quotients(quotients_by(k2)).unwrap(),
        g,
    }
}

#[test]
fn classify_tells_the_three_states_apart() {
    assert_eq!(classify(0), CellState::Healthy);
    assert_eq!(classify(1), CellState::Infected);
    assert_eq!(classify(128), CellState::Infected);
    assert_eq!(classify(254), CellState::Infected);
    assert_eq!(classify(255), CellState::Ill);
}

#[test]
fn divisor_hands_back_its_quotients() {
    let halves = Divisor::from_quotients([0, 0, 1, 1, 2, 2, 3, 3, 4]).unwrap();
    let expected = [0u16, 0, 1, 1, 2, 2, 3, 3, 4];
    for count in 0..9u8 {
        assert_eq!(halves.quotient(count), expected[count as usize]);
    }
}

#[test]
fn divisor_by_two_and_by_three() {
    assert_eq!(quotients_by(2.0), [0, 0, 1, 1, 2, 2, 3, 3, 4]);
    assert_eq!(quotients_by(3.0), [0, 0, 0, 1, 1, 1, 2, 2, 2]);
    let rule = rule_with(2.0, 3.0, 3);
    assert_eq!(rule.k1.quotient(5), 2);
    assert_eq!(rule.k2.quotient(5), 1);
    assert_eq!(rule.k1.quotient(8), 4);
    assert_eq!(rule.k2.quotient(8), 2);
}

#[test]
fn divisor_takes_any_number() {
    assert!(Divisor::from_quotients(quotients_by(2.5)).is_some());
    assert!(Divisor::from_quotients(quotients_by(0.001)).is_some());
    assert!(Divisor::from_quotients(quotients_by(0.0)).is_some());
    assert!(Divisor::from_quotients(quotients_by(-1.0)).is_some());
    assert!(Divisor::from_quotients(quotients_by(f32::NAN)).is_some());
    assert!(Divisor::from_quotients(quotients_by(f32::INFINITY)).is_some());
    assert_eq!(quotients_by(2.5), [0, 0, 0, 1, 1, 2, 2, 2, 3]);
    assert_eq!(quotients_by(-1.0), [0; 9]);
}

#[test]
fn divisor_refuses_a_quotient_of_nothing() {
    assert!(Divisor::from_quotients([1, 1, 1, 1, 2, 2, 3, 3, 4]).is_none());
}

#[test]
fn divisor_refuses_a_falling_table() {
    assert!(Divisor::from_quotients([0, 1, 0, 1, 2, 2, 3, 3, 4]).is_none());
    assert!(Divisor::from_quotients([0, 0, 1, 1, 2, 2, 3, 4, 3]).is_none());
}

#[test]
fn ill_cell_recovers() {
    let rule = rule_with(2.0, 3.0, 3);
    assert_eq!(rule.transition(255, 0, 0, 255), 0);
    assert_eq!(rule.transition(255, 8, 0, 2000), 0);
    assert_eq!(rule.transition(255, 0, 8, 2295), 0);
}

#[test]
fn healthy_cell_takes_both_quotients() {
    let rule = rule_with(2.0, 3.0, 3);
    assert_eq!(rule.transition(0, 0, 0, 0), 0);
    assert_eq!(rule.transition(0, 1, 1, 256), 0);
    assert_eq!(rule.transition(0, 5, 3, 800), 3);
    assert_eq!(rule.transition(0, 8, 0, 80), 4);
    assert_eq!(rule.transition(0, 0, 8, 2040), 2);
    assert_eq!(rule.transition(0, 2, 6, 1600), 3);
}

#[test]
fn healthy_cell_saturates() {
    let rule = rule_with(0.0078125, 3.0, 3);
    assert_eq!(rule.k1.quotient(1), 128);
    assert_eq!(rule.k1.quotient(2), 256);
    assert_eq!(rule.transition(0, 1, 0, 7), 128);
    assert_eq!(rule.transition(0, 1, 3, 772), 129);
    assert_eq!(rule.transition(0, 2, 0, 14), 255);
    assert_eq!(rule.transition(0, 8, 8, 14), 255);
    let both = rule_with(0.0, 0.0, 0);
    assert_eq!(both.k1.quotient(1), u16::MAX);
    assert_eq!(both.transition(0, 4, 4, 1100), 255);
    assert_eq!(both.transition(0, 0, 0, 0), 0);
}

#[test]
fn infected_cell_takes_the_mean_load_and_grows() {
    let rule = rule_with(2.0, 3.0, 3);
    assert_eq!(rule.transition(10, 2, 0, 50), 28);
    assert_eq!(rule.transition(1, 8, 0, 9), 4);
    assert_eq!(rule.transition(100, 3, 0, 250), 86);
    assert_eq!(rule.transition(7, 1, 0, 15), 18);
    let still = rule_with(2.0, 3.0, 0);
    assert_eq!(still.transition(10, 2, 0, 51), 25);
}

#[test]
fn infected_cell_saturates() {
    let rule = rule_with(2.0, 3.0, 3);
    assert_eq!(rule.transition(200, 1, 7, 2000), 255);
    assert_eq!(rule.transition(254, 1, 0, 255), 255);
    assert_eq!(rule.transition(250, 1, 0, 252), 255);
    assert_eq!(rule.transition(250, 1, 0, 251), 254);
    let steep = rule_with(2.0, 3.0, 255);
    assert_eq!(steep.transition(1, 8, 0, 9), 255);
}

#[test]
fn infected_cell_without_infected_neighbour_keeps_its_value() {
    let rule = rule_with(2.0, 3.0, 3);
    assert_eq!(rule.transition(10, 0, 0, 10), 10);
    assert_eq!(rule.transition(1, 0, 8, 2041), 1);
    assert_eq!(rule.transition(254, 0, 3, 1019), 254);
}

#[test]
fn ratio_divides_by_a_whole_number() {
    let halves = Divisor::ratio(2, 1).unwrap();
    let thirds = Divisor::ratio(3, 1).unwrap();
    let by_two = quotients_by(2.0);
    let by_three = quotients_by(3.0);
    for count in 0..9u8 {
        assert_eq!(halves.quotient(count), count as u16 / 2);
        assert_eq!(thirds.quotient(count), count as u16 / 3);
        assert_eq!(halves.quotient(count), by_two[count as usize]);
        assert_eq!(thirds.quotient(count), by_three[count as usize]);
    }
}

#[test]
fn ratio_divides_by_a_fraction() {
    let divisor = Divisor::ratio(5, 2).unwrap();
    let expected = [0u16, 0, 0, 1, 1, 2, 2, 2, 3];
    for count in 0..9u8 {
        assert_eq!(divisor.quotient(count), expected[count as usize]);
    }
    assert_eq!(quotients_by(2.5), expected);
    let eighth = Divisor::ratio(1, 8).unwrap();
    for count in 0..9u8 {
        assert_eq!(eighth.quotient(count), count as u16 * 8);
    }
    let same = Divisor::ratio(4, 2).unwrap();
    for count in 0..9u8 {
        assert_eq!(same.quotient(count), count as u16 / 2);
    }
}

#[test]
fn ratio_stops_at_the_largest_quotient() {
    let tiny = Divisor::ratio(1, u32::MAX).unwrap();
    assert_eq!(tiny.quotient(0), 0);
    for count in 1..9u8 {
        assert_eq!(tiny.quotient(count), u16::MAX);
    }
    let edge = Divisor::ratio(1, 65535).unwrap();
    assert_eq!(edge.quotient(1), 65535);
    assert_eq!(edge.quotient(2), 65535);
    let below = Divisor::ratio(2, 65535).unwrap();
    assert_eq!(below.quotient(1), 32767);
    assert_eq!(below.quotient(3), 65535);
}

#[test]
fn ratio_of_nothing_over_anything_divides_to_nothing() {
    let never = Divisor::ratio(7, 0).unwrap();
    let huge = Divisor::ratio(u32::MAX, 1).unwrap();
    for count in 0..9u8 {
        assert_eq!(never.quotient(count), 0);
        assert_eq!(huge.quotient(count), 0);
    }
}

#[test]
fn ratio_refuses_to_divide_by_nothing() {
    assert!(Divisor::ratio(0, 1).is_none());
    assert!(Divisor::ratio(0, 0).is_none());
    assert!(Divisor::ratio(0, u32::MAX).is_none());
}

#[test]
fn rule_by_ratio_is_the_rule_by_quotients() {
    let by_table = rule_with(2.0, 3.0, 3);
    let by_ratio = BoardParameter {
        k1: Divisor::ratio(2, 1).unwrap(),
        k2: Divisor::ratio(3, 1).unwrap(),
        g: 3,
    };
    for value in [0u8, 1, 10, 128, 254, 255] {
        for infected in 0..9u8 {
            for illed in 0..(9 - infected) {
                for sum in [0u16, 9, 10, 255, 1000, 2295] {
                    assert_eq!(
                        by_ratio.transition(value, infected, illed, sum),
                        by_table.transition(value, infected, illed, sum)
                    );
                }
            }
        }
    }
}
