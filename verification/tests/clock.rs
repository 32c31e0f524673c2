use deemo::clock::{day_now, run_now, started_now};

fn shape(text: &str) -> String {
    text.chars()
        .map(|c| if c.is_ascii_digit() { '0' } else { c })
        .collect()
}

#[test]
fn the_present_moment_has_three_forms() {
    assert_eq!(shape(&day_now()), "00000000");
    assert_eq!(shape(&run_now()), "00000000-000000.000");
    assert_eq!(shape(&started_now()), "0000-00-00T00:00:00");
}

#[test]
fn later_moments_sort_later() {
    let first = run_now();
    let second = run_now();
    assert!(first <= second, "{first} {second}");
}

#[test]
fn the_fields_are_in_range() {
    let s = started_now();
    let field = |a: usize, b: usize| s[a..b].parse::<u32>().unwrap();
    assert!(field(0, 4) >= 2020);
    assert!((1..=12).contains(&field(5, 7)));
    assert!((1..=31).contains(&field(8, 10)));
    assert!(field(11, 13) < 24);
    assert!(field(14, 16) < 60);
    assert!(field(17, 19) < 60);
}
