use tecindo::naming::{generate_untitled_name, parse_suffix, push_decimal};

fn titles(list: &[&str]) -> Vec<String> {
    list.iter().map(|s| s.to_string()).collect()
}

#[test]
fn first_default_title_is_untitled() {
    assert_eq!(generate_untitled_name(&titles(&[])), "Untitled");
    assert_eq!(generate_untitled_name(&titles(&["Untitled_2", "Notes"])), "Untitled");
    assert_eq!(generate_untitled_name(&titles(&["Untitled "])), "Untitled");
}

#[test]
fn untitled_and_untitled_2_give_untitled_3() {
    assert_eq!(generate_untitled_name(&titles(&["Untitled", "Untitled_2"])), "Untitled_3");
}

#[test]
fn second_default_title_is_untitled_2() {
    assert_eq!(generate_untitled_name(&titles(&["Untitled"])), "Untitled_2");
    assert_eq!(generate_untitled_name(&titles(&["Untitled", "Untitled_0"])), "Untitled_2");
    assert_eq!(generate_untitled_name(&titles(&["Untitled", "Untitled_1"])), "Untitled_2");
}

#[test]
fn default_title_follows_the_largest_suffix() {
    assert_eq!(
        generate_untitled_name(&titles(&["Untitled_7", "Untitled", "Untitled_3"])),
        "Untitled_8"
    );
    assert_eq!(generate_untitled_name(&titles(&["Untitled", "Untitled_99"])), "Untitled_100");
    assert_eq!(generate_untitled_name(&titles(&["Untitled", "Untitled_009"])), "Untitled_10");
    assert_eq!(generate_untitled_name(&titles(&["Untitled", "Untitled_+4"])), "Untitled_5");
}

#[test]
fn suffixes_that_are_no_numbers_are_passed_over() {
    assert_eq!(
        generate_untitled_name(&titles(&["Untitled", "Untitled_x", "Untitled_", "Untitled_-3"])),
        "Untitled_2"
    );
    assert_eq!(
        generate_untitled_name(&titles(&["Untitled", "Untitled_5 ", "Untitled_4294967296"])),
        "Untitled_2"
    );
    assert_eq!(generate_untitled_name(&titles(&["Untitled", "untitled_9"])), "Untitled_2");
}

#[test]
fn largest_suffix_does_not_overflow() {
    assert_eq!(
        generate_untitled_name(&titles(&["Untitled", "Untitled_4294967295"])),
        "Untitled_4294967296"
    );
}

#[test]
fn parse_suffix_reads_what_u32_parsing_reads() {
    let samples = [
        "", "0", "7", "007", "+7", "+", "-7", "4294967295", "4294967296", "99999999999999999999",
        "12a", " 12", "12 ", "١٢", "+0", "++1",
    ];
    for s in samples {
        let chars: Vec<char> = s.chars().collect();
        assert_eq!(parse_suffix(&chars, 0), s.parse::<u32>().ok());
    }
}

#[test]
fn parse_suffix_starts_where_it_is_told() {
    let chars: Vec<char> = "Untitled_42".chars().collect();
    assert_eq!(parse_suffix(&chars, 9), Some(42));
    assert_eq!(parse_suffix(&chars, 10), Some(2));
    assert_eq!(parse_suffix(&chars, 11), None);
    assert_eq!(parse_suffix(&chars, 12), None);
    assert_eq!(parse_suffix(&chars, usize::MAX), None);
    assert_eq!(parse_suffix(&chars, 0), None);
}

#[test]
fn push_decimal_writes_decimal_digits() {
    for n in [0u64, 1, 9, 10, 11, 100, 4294967296, u64::MAX] {
        let mut s = String::from("n=");
        push_decimal(&mut s, n);
        assert_eq!(s, format!("n={}", n));
    }
}
