use riff::color::{Color, ColorConfig, Style};
use riff::config::{Config, ConfigBuilder, ConfigError};
use riff::diff::{diff, Change, ChangeType, DiffError};
use riff::hunk::{get_hunks, Hunk};
use riff::printer::{decimal_string, interval_string, normal_lines, unified_lines};

fn owned(tokens: &[&str]) -> Vec<String> {
    tokens.iter().map(|t| t.to_string()).collect()
}

fn plain_config<'a>(left_file: &'a str, right_file: &'a str) -> Config<'a> {
    Config {
        color_config: ColorConfig::plain(),
        left_file,
        right_file,
    }
}

#[test]
fn printer_test_get_hunks() {
    let changes = vec![
        Change::Added(&1),
        Change::Same(&2),
        Change::Same(&3),
        Change::Removed(&4),
    ];

    let hunks: Vec<Hunk<i32>> = get_hunks(&changes);
    assert_eq!(
        hunks,
        vec![
            Hunk {
                left_line: 0,
                right_line: 1,
                additions: vec![&1],
                removals: vec![],
                unchanged: vec![],
            },
            Hunk {
                left_line: 1,
                right_line: 2,
                additions: vec![],
                removals: vec![],
                unchanged: vec![&2, &3],
            },
            Hunk {
                left_line: 3,
                right_line: 3,
                additions: vec![],
                removals: vec![&4],
                unchanged: vec![],
            },
        ]
    );
}

#[test]
fn test_decimal_string() {
    assert_eq!(decimal_string(0), "0");
    assert_eq!(decimal_string(7), "7");
    assert_eq!(decimal_string(10), "10");
    assert_eq!(decimal_string(409), "409");
    assert_eq!(decimal_string(1234567890), "1234567890");
    assert_eq!(decimal_string(usize::MAX), usize::MAX.to_string());
}

#[test]
fn test_interval_string() {
    assert_eq!(interval_string((3, 3)), "3");
    assert_eq!(interval_string((3, 5)), "3,5");
    assert_eq!(interval_string((0, 0)), "0");
    assert_eq!(interval_string((9, 12)), "9,12");
}

#[test]
fn test_change_type_letters() {
    assert_eq!(ChangeType::Added.to_string(), "a");
    assert_eq!(ChangeType::Deleted.to_string(), "d");
    assert_eq!(ChangeType::Changed.to_string(), "c");
}

#[test]
fn test_normal_lines_of_a_change() -> Result<(), DiffError> {
    let left = owned(&["hey", "my", "name", "is"]);
    let right = owned(&["hey", "mister", "nae", "say"]);
    let changes = diff(&left, &right)?;

    let lines = normal_lines(&plain_config("a", "b"), &changes);
    assert_eq!(
        lines,
        vec!["2,4c2,4", "< my", "< name", "< is", "---", "> mister", "> nae", "> say"]
    );
    Ok(())
}

#[test]
fn test_normal_lines_of_an_addition_and_a_deletion() -> Result<(), DiffError> {
    let short = owned(&["a"]);
    let long = owned(&["a", "b", "c"]);

    let added = diff(&short, &long)?;
    assert_eq!(
        normal_lines(&plain_config("", ""), &added),
        vec!["1a2,3", "> b", "> c"]
    );

    let deleted = diff(&long, &short)?;
    assert_eq!(
        normal_lines(&plain_config("", ""), &deleted),
        vec!["2,3d1", "< b", "< c"]
    );
    Ok(())
}

#[test]
fn test_normal_lines_at_the_beginning() -> Result<(), DiffError> {
    let left = owned(&["b"]);
    let right = owned(&["a", "b"]);

    let changes = diff(&left, &right)?;
    assert_eq!(
        normal_lines(&plain_config("", ""), &changes),
        vec!["0a1", "> a"]
    );
    Ok(())
}

#[test]
fn test_normal_lines_of_mixed() -> Result<(), DiffError> {
    let left = owned(&["sphinx", "of", "black", "quartz", "judge", "my", "vow"]);
    let right = owned(&["sphinx", "offer", "black", "quartz", "my", "jughead", "vow"]);
    let changes = diff(&left, &right)?;

    let lines = normal_lines(&plain_config("a", "b"), &changes);
    assert_eq!(
        lines,
        vec![
            "2c2",
            "< of",
            "---",
            "> offer",
            "5d4",
            "< judge",
            "6a6",
            "> jughead",
        ]
    );
    Ok(())
}

#[test]
fn test_normal_lines_of_equal_inputs_are_none() -> Result<(), DiffError> {
    let tokens = owned(&["a", "b"]);
    let changes = diff(&tokens, &tokens)?;
    assert!(normal_lines(&plain_config("a", "b"), &changes).is_empty());
    Ok(())
}

#[test]
fn test_normal_lines_in_color() -> Result<(), DiffError> {
    let left = owned(&["old"]);
    let right = owned(&["new"]);
    let changes = diff(&left, &right)?;
    let config = Config {
        color_config: ColorConfig::colored(),
        left_file: "a",
        right_file: "b",
    };

    let lines = normal_lines(&config, &changes);
    assert_eq!(
        lines,
        vec![
            "1c1",
            "< \u{1b}[41;30mold\u{1b}[0m",
            "---",
            "> \u{1b}[42;30mnew\u{1b}[0m",
        ]
    );

    let removed = ansi_term::Colour::Black.on(ansi_term::Colour::Red);
    let added = ansi_term::Colour::Black.on(ansi_term::Colour::Green);
    assert_eq!(lines[1], format!("< {}", removed.paint("old")));
    assert_eq!(lines[3], format!("> {}", added.paint("new")));
    Ok(())
}

#[test]
fn test_lines_in_every_color() -> Result<(), DiffError> {
    let ours = [
        Color::Black,
        Color::Red,
        Color::Green,
        Color::Yellow,
        Color::Blue,
        Color::Purple,
        Color::Cyan,
        Color::White,
    ];
    let theirs = [
        ansi_term::Colour::Black,
        ansi_term::Colour::Red,
        ansi_term::Colour::Green,
        ansi_term::Colour::Yellow,
        ansi_term::Colour::Blue,
        ansi_term::Colour::Purple,
        ansi_term::Colour::Cyan,
        ansi_term::Colour::White,
    ];
    let left = owned(&["old"]);
    let right = owned(&["new"]);
    let changes = diff(&left, &right)?;

    for k in 0..8 {
        let config = Config {
            color_config: ColorConfig {
                removed: Style {
                    foreground: Some(ours[k]),
                    background: None,
                },
                added: Style {
                    foreground: None,
                    background: Some(ours[k]),
                },
            },
            left_file: "a",
            right_file: "b",
        };
        let lines = normal_lines(&config, &changes);
        assert_eq!(lines[1], format!("< \u{1b}[3{}mold\u{1b}[0m", k));
        assert_eq!(lines[3], format!("> \u{1b}[4{}mnew\u{1b}[0m", k));
        assert_eq!(lines[1], format!("< {}", theirs[k].normal().paint("old")));
        assert_eq!(
            lines[3],
            format!("> {}", ansi_term::Style::new().on(theirs[k]).paint("new"))
        );
    }
    Ok(())
}

#[test]
fn test_unified_lines_of_mixed() -> Result<(), DiffError> {
    let left = owned(&["sphinx", "of", "black", "quartz", "judge", "my", "vow"]);
    let right = owned(&["sphinx", "offer", "black", "quartz", "my", "jughead", "vow"]);
    let changes = diff(&left, &right)?;

    let lines = unified_lines(&plain_config("left.txt", "right.txt"), &changes);
    assert_eq!(
        lines,
        vec![
            "--- left.txt",
            "+++ right.txt",
            "1  1",
            " sphinx",
            "2  2",
            "-of",
            "+offer",
            "3  3",
            " black",
            " quartz",
            "5  4",
            "-judge",
            "6  5",
            " my",
            "6  6",
            "+jughead",
            "7  7",
            " vow",
        ]
    );
    Ok(())
}

#[test]
fn test_unified_lines_in_color() -> Result<(), DiffError> {
    let left = owned(&["same", "old"]);
    let right = owned(&["same", "new"]);
    let changes = diff(&left, &right)?;
    let config = Config {
        color_config: ColorConfig::colored(),
        left_file: "a",
        right_file: "b",
    };

    let lines = unified_lines(&config, &changes);
    assert_eq!(
        lines,
        vec![
            "--- a",
            "+++ b",
            "1  1",
            " same",
            "2  2",
            "-\u{1b}[41;30mold\u{1b}[0m",
            "+\u{1b}[42;30mnew\u{1b}[0m",
        ]
    );
    Ok(())
}

#[test]
fn test_unified_lines_of_nothing_are_none() {
    let changes: Vec<Change<&String>> = vec![];
    assert!(unified_lines(&plain_config("a", "b"), &changes).is_empty());
}

#[test]
fn test_unified_lines_of_equal_inputs() -> Result<(), DiffError> {
    let tokens = owned(&["a", "b"]);
    let changes = diff(&tokens, &tokens)?;
    assert_eq!(
        unified_lines(&plain_config("x", "y"), &changes),
        vec!["--- x", "+++ y", "1  1", " a", " b"]
    );
    Ok(())
}

#[test]
fn test_color_configs() {
    let plain = ColorConfig::plain();
    assert_eq!(plain.removed, Style::plain());
    assert_eq!(plain.added, Style::plain());
    assert_eq!(plain, ColorConfig::default());
    assert_eq!(Style::default(), Style {
        foreground: None,
        background: None,
    });

    let colored = ColorConfig::colored();
    assert_eq!(colored.removed, Color::Black.on(Color::Red));
    assert_eq!(colored.added, Color::Black.on(Color::Green));
    assert_eq!(
        Color::Black.on(Color::Red),
        Style {
            foreground: Some(Color::Black),
            background: Some(Color::Red),
        }
    );
}

#[test]
fn test_config_builder() {
    let config = ConfigBuilder::new()
        .with_left_file("left.txt")
        .with_right_file("right.txt")
        .with_colors()
        .build();
    match config {
        Ok(config) => {
            assert_eq!(config.left_file, "left.txt");
            assert_eq!(config.right_file, "right.txt");
            assert_eq!(config.color_config, ColorConfig::colored());
        }
        Err(error) => panic!("{:?}", error),
    }

    let config = ConfigBuilder::new().with_plain_colors().build();
    match config {
        Ok(config) => {
            assert_eq!(config.left_file, "");
            assert_eq!(config.right_file, "");
            assert_eq!(config.color_config, ColorConfig::plain());
        }
        Err(error) => panic!("{:?}", error),
    }

    let config = ConfigBuilder::new()
        .with_colors()
        .with_plain_colors()
        .build();
    assert!(matches!(config, Ok(config) if config.color_config == ColorConfig::plain()));
}

#[test]
fn test_config_builder_without_colors() {
    let config = ConfigBuilder::new()
        .with_left_file("left.txt")
        .with_right_file("right.txt")
        .build();
    assert!(matches!(config, Err(ConfigError::InvalidInput)));
}
