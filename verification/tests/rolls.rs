use matrixise::{RollSource, ScriptedRolls, ThreadRolls};

#[test]
fn thread_rolls_stay_in_the_range() {
    let mut rolls = ThreadRolls::new();
    for _ in 0..2000 {
        let r = rolls.roll(-3, 4);
        assert!((-3..4).contains(&r), "{}", r);
    }
    for _ in 0..100 {
        assert_eq!(rolls.roll(17, 18), 17);
    }
}

#[test]
fn thread_rolls_reach_the_whole_range() {
    let mut rolls = ThreadRolls::new();
    let mut seen = [false; 6];
    for _ in 0..5000 {
        seen[rolls.roll(10, 16) as usize - 10] = true;
    }
    assert_eq!(seen, [true; 6]);
}

#[test]
fn thread_rolls_take_wide_ranges() {
    let mut rolls = ThreadRolls::new();
    let low = -(1i128 << 100);
    let high = 1i128 << 100;
    for _ in 0..100 {
        let r = rolls.roll(low, high);
        assert!(low <= r && r < high);
    }
}

#[test]
fn scripted_rolls_play_the_script() {
    let mut rolls = ScriptedRolls::new(vec![3, 0, 9, -1, 5]);
    assert_eq!(rolls.roll(0, 10), 3);
    assert_eq!(rolls.roll(0, 10), 0);
    // 9 lies outside 0..9: the low end is given
    assert_eq!(rolls.roll(0, 9), 0);
    // -1 lies outside 2..5
    assert_eq!(rolls.draw(2, 5), 2);
    assert_eq!(rolls.draw(5, 6), 5);
    // the script has run out
    assert_eq!(rolls.roll(4, 10), 4);
    assert_eq!(rolls.draw(-7, 10), -7);
}
