use throttle::cli::{mode, parse_whole, Mode};

fn args(list: &[&str]) -> Vec<String> {
    list.iter().map(|a| a.to_string()).collect()
}

#[test]
fn the_window_is_the_default() {
    assert_eq!(mode(&args(&["throttle.exe"])), Mode::Gui);
    assert_eq!(mode(&args(&[])), Mode::Gui);
    assert_eq!(mode(&args(&["throttle.exe", "--Headless"])), Mode::Gui);
}

#[test]
fn headless_takes_seconds() {
    assert_eq!(mode(&args(&["t", "--headless"])), Mode::Headless(15));
    assert_eq!(mode(&args(&["t", "--headless", "60"])), Mode::Headless(60));
    assert_eq!(mode(&args(&["t", "--headless", "soon"])), Mode::Headless(15));
    assert_eq!(mode(&args(&["t", "--headless", "1", "--headless", "2"])), Mode::Headless(1));
}

#[test]
fn the_icon_comes_first() {
    assert_eq!(mode(&args(&["t", "--headless", "60", "--gen-icon"])), Mode::GenIcon);
}

#[test]
fn whole_numbers_are_read() {
    for text in ["0", "15", "+7", "007", "18446744073709551615", "18446744073709551616", "",
        "+", "-1", "1.5", " 1", "1e3", "++1", "٣"]
    {
        assert_eq!(parse_whole(text), text.parse::<u64>().ok(), "{text}");
    }
    assert_eq!(parse_whole("18446744073709551615"), Some(u64::MAX));
    assert_eq!(parse_whole("18446744073709551616"), None);
}
