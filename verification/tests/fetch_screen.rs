use heart_cli::fetch_screen::{compose_frame, heart_size_for};

fn chars(s: &str) -> Vec<char> {
    s.chars().collect()
}

#[test]
fn frame_rows_colour_pixels_and_show_entries() {
    let heart = vec![
        vec![(' ', 0, 0, 0), ('@', 200, 220, 255)],
        vec![('.', 5, 10, 30), (' ', 1, 2, 3)],
        vec![(' ', 0, 0, 0), (' ', 0, 0, 0)],
    ];
    let info = vec![(chars(""), chars("me@host")), (chars("OS"), chars("Arch"))];
    let text: String = compose_frame(&heart, &info).iter().collect();
    let expected = [
        " \x1b[38;2;200;220;255m@\x1b[0m  \x1b[38;2;100;150;255mme@host\x1b[0m\x1b[K\n",
        "\x1b[38;2;5;10;30m. \x1b[0m  \x1b[38;2;100;150;255mOS\x1b[0m: Arch\x1b[K\n",
        "  \x1b[0m  \x1b[K\n",
    ]
    .join("");
    assert_eq!(text, expected);
}

#[test]
fn empty_frame_is_empty() {
    assert!(compose_frame(&vec![], &vec![(chars("a"), chars("b"))]).is_empty());
}

#[test]
fn picture_is_twice_as_wide_as_tall() {
    assert_eq!(heart_size_for(9), (18, 9));
    assert_eq!(heart_size_for(0), (0, 0));
}
