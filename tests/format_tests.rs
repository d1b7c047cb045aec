use leaderboard_bot::format::{format_leaderboard, push_decimal, push_score, render_entries, sort_by_score, Participant};

fn p(handle: &str, score: i32) -> Participant {
    Participant { handle: handle.to_string(), score }
}

#[test]
fn empty_input_gives_header_only() {
    assert_eq!(format_leaderboard(&vec![]), "Leaderboard 🏆");
}

#[test]
fn higher_score_ranks_first_whatever_the_input_order() {
    let expected = "Leaderboard 🏆\n1. @g                   10\n2. @h                   5";
    assert_eq!(format_leaderboard(&vec![p("h", 5), p("g", 10)]), expected);
    assert_eq!(format_leaderboard(&vec![p("g", 10), p("h", 5)]), expected);
}

#[test]
fn render_keeps_given_order() {
    let text = render_entries(&vec![p("h", 5), p("g", 10)]);
    assert_eq!(text, "Leaderboard 🏆\n1. @h                   5\n2. @g                   10");
}

#[test]
fn long_handle_is_cut_to_width() {
    let text = format_leaderboard(&vec![p("a_very_long_handle_name", 3)]);
    assert_eq!(text, "Leaderboard 🏆\n1. @a_very_long_handle_ 3");
}

#[test]
fn handle_of_twenty_chars_loses_its_last() {
    let text = format_leaderboard(&vec![p("abcdefghijklmnopqrst", 4)]);
    assert_eq!(text, "Leaderboard 🏆\n1. @abcdefghijklmnopqrs 4");
}

#[test]
fn cutting_counts_characters_not_bytes() {
    let text = format_leaderboard(&vec![p(&"é".repeat(25), 6)]);
    assert_eq!(text, format!("Leaderboard 🏆\n1. @{} 6", "é".repeat(19)));
}

#[test]
fn handle_of_nineteen_chars_fills_the_width() {
    let text = format_leaderboard(&vec![p("abcdefghijklmnopqrs", 1)]);
    assert_eq!(text, "Leaderboard 🏆\n1. @abcdefghijklmnopqrs 1");
}

#[test]
fn padding_counts_characters_not_bytes() {
    let text = format_leaderboard(&vec![p("é", 2)]);
    assert_eq!(text, format!("Leaderboard 🏆\n1. @é{} 2", " ".repeat(18)));
}

#[test]
fn negative_and_extreme_scores() {
    let text = format_leaderboard(&vec![p("lo", i32::MIN), p("hi", i32::MAX), p("neg", -7)]);
    assert_eq!(
        text,
        format!(
            "Leaderboard 🏆\n1. {:<20} {}\n2. {:<20} {}\n3. {:<20} {}",
            "@hi", i32::MAX, "@neg", -7, "@lo", i32::MIN
        )
    );
}

#[test]
fn equal_scores_keep_input_order() {
    let sorted = sort_by_score(&vec![p("a", 1), p("b", 3), p("c", 1), p("d", 3)]);
    let names: Vec<&str> = sorted.iter().map(|x| x.handle.as_str()).collect();
    assert_eq!(names, vec!["b", "d", "a", "c"]);
}

#[test]
fn ranks_of_two_digits() {
    let recs: Vec<Participant> = (0..11).map(|i| p("u", 100 - i)).collect();
    let text = format_leaderboard(&recs);
    let last = text.lines().last().unwrap();
    assert_eq!(last, format!("11. {:<20} 90", "@u"));
}

#[test]
fn decimal_digits() {
    let mut s = String::from("x");
    push_decimal(&mut s, 0);
    push_decimal(&mut s, 907);
    push_decimal(&mut s, u64::MAX);
    assert_eq!(s, format!("x0907{}", u64::MAX));
    let mut t = String::new();
    push_score(&mut t, -120);
    assert_eq!(t, "-120");
}
