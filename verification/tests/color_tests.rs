use github_win_app::color::{calendar_colors, decode_color, Rgb};
use github_win_app::model::{ContributionCalendar, ContributionDay, Week};

#[test]
fn decodes_hash_prefixed_hex() {
    assert_eq!(decode_color("#1a2b3c"), Rgb { r: 26, g: 43, b: 60 });
}

#[test]
fn decodes_bare_hex() {
    assert_eq!(decode_color("40c463"), Rgb { r: 64, g: 196, b: 99 });
}

#[test]
fn decodes_uppercase_hex() {
    assert_eq!(decode_color("#FF00Aa"), Rgb { r: 255, g: 0, b: 170 });
}

#[test]
fn non_hex_falls_back_to_gray() {
    assert_eq!(decode_color("zz0000"), Rgb { r: 128, g: 128, b: 128 });
}

#[test]
fn wrong_length_falls_back_to_gray() {
    assert_eq!(decode_color("abc"), Rgb { r: 128, g: 128, b: 128 });
}

#[test]
fn empty_input_falls_back_to_gray() {
    assert_eq!(decode_color(""), Rgb { r: 128, g: 128, b: 128 });
}

#[test]
fn double_hash_falls_back_to_gray() {
    assert_eq!(decode_color("##aabbcc"), Rgb { r: 128, g: 128, b: 128 });
}

#[test]
fn grid_colors_follow_the_days() {
    let cal = ContributionCalendar {
        total_contributions: 2,
        weeks: vec![
            Week {
                contribution_days: vec![
                    ContributionDay {
                        date: "2024-01-01".to_string(),
                        contribution_count: 1,
                        color: "#40c463".to_string(),
                    },
                    ContributionDay {
                        date: "2024-01-02".to_string(),
                        contribution_count: 0,
                        color: "broken".to_string(),
                    },
                ],
            },
            Week { contribution_days: vec![] },
        ],
    };
    let grid = calendar_colors(&cal);
    assert_eq!(grid.len(), 2);
    assert_eq!(grid[0].len(), 2);
    assert_eq!(grid[1].len(), 0);
    assert_eq!(grid[0][0], Rgb { r: 64, g: 196, b: 99 });
    assert_eq!(grid[0][1], Rgb { r: 128, g: 128, b: 128 });
}
