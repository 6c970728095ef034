use jotun::cli::{
    clipboard_command,
    confirms_deletion, display_title_of, first_line_of, join_texts, preview_header_of, preview_of, save_edit, save_input,
    stdin_content, tags_suffix_of, take_chars_of, title_or_untitled, InputError,
};
use jotun::color::{parse_color, ThemeColor};
use jotun::config::{choose_editor, explicit_db_path, falls_back_to_nano, Config};
use jotun::store::{Database, Note};

fn note(title: Option<&str>, body: &str, tags: &[&str]) -> Note {
    Note {
        id: 7,
        title: title.map(|t| t.to_string()),
        body: body.to_string(),
        source: "m".to_string(),
        created: 0,
        updated: 0,
        tags: tags.iter().map(|t| t.to_string()).collect(),
    }
}

#[test]
fn first_lines() {
    assert_eq!(first_line_of("a\r\nb"), "a");
    assert_eq!(first_line_of("abc\r"), "abc\r");
    assert_eq!(first_line_of(""), "");
    assert_eq!(first_line_of("\nrest"), "");
    assert_eq!(first_line_of("one line"), "one line");
}

#[test]
fn titles_and_previews() {
    let long = "abcdefghijklmnopqrstuvwxyz0123456789ABCDEFGHIJ\nsecond";
    assert_eq!(display_title_of(&note(None, long, &[])), "abcdefghijklmnopqrst");
    assert_eq!(preview_of(&note(None, long, &[])), "abcdefghijklmnopqrstuvwxyz0123456789ABCD");
    assert_eq!(display_title_of(&note(Some("T"), long, &[])), "T");
    assert_eq!(take_chars_of("héé", 2), "hé");
    assert_eq!(title_or_untitled(&note(None, "x", &[])), "Untitled");
    assert_eq!(title_or_untitled(&note(Some("Mine"), "x", &[])), "Mine");
}

#[test]
fn tag_lists() {
    assert_eq!(tags_suffix_of(&note(None, "x", &[])), "");
    assert_eq!(tags_suffix_of(&note(None, "x", &["a", "b/c"])), " [a, b/c]");
    assert_eq!(join_texts(&vec!["x".to_string()], ", "), "x");
}

#[test]
fn deletion_confirmation() {
    assert!(confirms_deletion("y\n"));
    assert!(confirms_deletion("  Y "));
    assert!(!confirms_deletion("yes"));
    assert!(!confirms_deletion(""));
}

#[test]
fn input_to_notes() {
    let mut db = Database::in_memory().unwrap();
    assert!(matches!(save_input(&mut db, "", None, "clipboard", &[]), Err(InputError::Empty)));
    assert_eq!(stdin_content("  piped text \n"), "piped text");
    let id = save_input(&mut db, "kubectl get pods", None, "manual", &[]).unwrap();
    assert_eq!(db.get_note(id).unwrap().body, "kubectl get pods");
}

#[test]
fn editing_saves_only_changes() {
    let mut db = Database::in_memory().unwrap();
    let id = db.create_note("same", Some("T"), "m", &["k".to_string()]).unwrap();
    let n = db.get_note(id).unwrap();
    assert_eq!(save_edit(&mut db, &n, "same\n").unwrap(), false);
    assert_eq!(save_edit(&mut db, &n, " changed \n").unwrap(), true);
    let after = db.get_note(id).unwrap();
    assert_eq!(after.body, "changed");
    assert_eq!(after.title, Some("T".to_string()));
    assert_eq!(after.tags, vec!["k".to_string()]);
}

#[test]
fn colors() {
    assert_eq!(parse_color("#ff0000"), ThemeColor::Rgb(255, 0, 0));
    assert_eq!(parse_color(" #0A0b0C "), ThemeColor::Rgb(10, 11, 12));
    assert_eq!(parse_color("#+f+f+f"), ThemeColor::Rgb(15, 15, 15));
    assert_eq!(parse_color("#gg0000"), ThemeColor::Reset);
    assert_eq!(parse_color(" Cyan "), ThemeColor::Cyan);
    assert_eq!(parse_color("LIGHT_RED"), ThemeColor::LightRed);
    assert_eq!(parse_color("dark_gray"), ThemeColor::DarkGray);
    assert_eq!(parse_color("blac\u{212a}"), ThemeColor::Black);
    assert_eq!(parse_color("unknown"), ThemeColor::Reset);
    assert_eq!(parse_color("#ffé"), ThemeColor::Reset);
}

#[test]
fn settings_defaults_and_choices() {
    let c = Config::default();
    assert_eq!(c.editor, None);
    assert_eq!(c.db_path, None);
    assert_eq!(c.syntax_highlighting, Some(true));
    assert_eq!(c.theme.active_border, "yellow");
    assert_eq!(c.theme.highlight_bg, "cyan");
    assert_eq!(c.theme.highlight_fg, "black");
    assert_eq!(explicit_db_path(&c, Some("/env.db".to_string())), Some("/env.db".to_string()));
    assert_eq!(explicit_db_path(&c, None), None);
    let set = Config { db_path: Some("/set.db".to_string()), ..Config::default() };
    assert_eq!(explicit_db_path(&set, Some("/env.db".to_string())), Some("/set.db".to_string()));
    assert_eq!(choose_editor(&c, None, None), "nano");
    assert_eq!(choose_editor(&c, Some("vi".to_string()), Some("ed".to_string())), "vi");
    assert_eq!(choose_editor(&c, None, Some("ed".to_string())), "ed");
    let with_editor = Config { editor: Some("hx".to_string()), ..Config::default() };
    assert_eq!(choose_editor(&with_editor, Some("vi".to_string()), None), "hx");
    assert!(falls_back_to_nano("vim"));
    assert!(!falls_back_to_nano("nano"));
}

#[test]
fn clipboard_commands() {
    assert_eq!(clipboard_command(true, false), ("wl-copy".to_string(), vec![]));
    assert_eq!(clipboard_command(true, true), ("wl-paste".to_string(), vec!["-n".to_string()]));
    assert_eq!(
        clipboard_command(false, false),
        ("xclip".to_string(), vec!["-selection".to_string(), "clipboard".to_string()])
    );
    assert_eq!(
        clipboard_command(false, true),
        ("xclip".to_string(), vec!["-selection".to_string(), "clipboard".to_string(), "-o".to_string()])
    );
}

#[test]
fn preview_header_names_tags_and_underlines() {
    let meta = "Tags: No tags | Source: cli | Updated: 2024-01-01 10:00";
    let expected = format!("{}\n{}", meta, "-".repeat(meta.len()));
    assert_eq!(preview_header_of(&vec![], "cli", "2024-01-01 10:00"), expected);
    let tagged = preview_header_of(&vec!["a".to_string(), "b".to_string()], "tui", "x");
    assert_eq!(tagged, "Tags: a, b | Source: tui | Updated: x\n-------------------------------------");
    let wide = preview_header_of(&vec!["é".to_string()], "s", "u");
    assert_eq!(wide.lines().nth(1).unwrap().len(), "Tags: é | Source: s | Updated: u".len());
}
