use find_word::args::{is_supported_file_ext, ParseArgs, ParseError, DESKTOP_SHORT_PATH};
use find_word::finder::{FindError, FindWord};
use find_word::help::create_table;

fn argv(items: &[&str]) -> Vec<String> {
    items.iter().map(|s| s.to_string()).collect()
}

fn red(w: &str) -> String {
    format!("\x1b[31m{}\x1b[39m", w)
}

#[test]
fn example_two_cats_over_two_lines() {
    let r = FindWord::find(
        "the cat sat on the mat\nthe cat ran".to_string(),
        "cat".to_string(),
    )
    .unwrap();
    assert_eq!(r.count, 2);
    assert_eq!(r.word, "cat");
    let expected = format!("the {} sat on the mat\nthe {} ran", red("cat"), red("cat"));
    assert_eq!(r.result, expected);
}

#[test]
fn count_equals_number_of_exact_tokens() {
    let r = FindWord::find("cat  cat\tcat\r\ncat dog\n\ncat".to_string(), "cat".to_string())
        .unwrap();
    assert_eq!(r.count, 5);
    let c = red("cat");
    let expected = format!("{c} {c} {c}\n{c} dog\n\n{c}");
    assert_eq!(r.result, expected);
}

#[test]
fn substring_of_token_is_not_a_match() {
    let r = FindWord::find("concatenate category cats".to_string(), "cat".to_string());
    assert_eq!(r.unwrap_err(), FindError::NotFound);
}

#[test]
fn punctuation_is_not_stripped() {
    let r = FindWord::find("cat, cat. cat".to_string(), "cat".to_string()).unwrap();
    assert_eq!(r.count, 1);
    assert_eq!(r.result, format!("cat, cat. {}", red("cat")));
}

#[test]
fn search_is_case_sensitive() {
    let r = FindWord::find("the cat sat".to_string(), "Cat".to_string());
    assert_eq!(r.unwrap_err(), FindError::NotFound);
    let r = FindWord::find("the Cat sat".to_string(), "Cat".to_string()).unwrap();
    assert_eq!(r.count, 1);
}

#[test]
fn find_twice_gives_same_result() {
    let content = "a b a\nb a".to_string();
    let r1 = FindWord::find(content.clone(), "a".to_string()).unwrap();
    let r2 = FindWord::find(content, "a".to_string()).unwrap();
    assert_eq!(r1.word, r2.word);
    assert_eq!(r1.count, r2.count);
    assert_eq!(r1.result, r2.result);
    assert_eq!(r1.count, 3);
}

#[test]
fn empty_content_finds_nothing() {
    let r = FindWord::find(String::new(), "cat".to_string());
    assert_eq!(r.unwrap_err(), FindError::NotFound);
}

#[test]
fn final_newline_adds_no_line() {
    let r = FindWord::find("cat\n".to_string(), "cat".to_string()).unwrap();
    assert_eq!(r.result, red("cat"));
}

#[test]
fn spacing_is_collapsed_to_single_spaces() {
    let r = FindWord::find("  x   y  \n z".to_string(), "z".to_string()).unwrap();
    assert_eq!(r.result, format!("x y\n{}", red("z")));
}

#[test]
fn unicode_whitespace_separates_tokens() {
    let r = FindWord::find("a\u{3000}cat\u{a0}b".to_string(), "cat".to_string()).unwrap();
    assert_eq!(r.count, 1);
    assert_eq!(r.result, format!("a {} b", red("cat")));
}

#[test]
fn not_found_message() {
    assert_eq!(
        FindError::NotFound.message(),
        "En az 1 tane bile kelime bulunamadı"
    );
}

#[test]
fn desk_shortcut_expands() {
    let p = ParseArgs::parse(&argv(&["fw", "-f", "desk/notes.txt", "-w", "cat"]))
        .unwrap()
        .unwrap();
    assert_eq!(p.file, "C:\\Users\\User\\Desktop/notes.txt");
    assert_eq!(p.file, format!("{}/notes.txt", DESKTOP_SHORT_PATH));
    assert_eq!(p.cmd, "fw");
    assert_eq!(p.word, "cat");
}

#[test]
fn desk_shortcut_uses_given_desktop() {
    let p = ParseArgs::parse_with_desktop(
        &argv(&["fw", "-f", "desk/notes.txt", "-w", "cat"]),
        "/home/me/Desktop",
    )
    .unwrap()
    .unwrap();
    assert_eq!(p.file, "/home/me/Desktop/notes.txt");
}

#[test]
fn desk_shortcut_drops_first_four_chars() {
    let p = ParseArgs::parse_with_desktop(&argv(&["fw", "-f", "x/desk/a.txt", "-w", "w"]), "D")
        .unwrap()
        .unwrap();
    assert_eq!(p.file, "Dsk/a.txt");
}

#[test]
fn plain_path_kept() {
    let p = ParseArgs::parse(&argv(&["fw", "-f", "notes.json", "-w", "Cat"]))
        .unwrap()
        .unwrap();
    assert_eq!(p.file, "notes.json");
    assert_eq!(p.word, "Cat");
}

#[test]
fn flags_in_other_order_accepted() {
    let p = ParseArgs::parse(&argv(&["fw", "-w", "a.xml", "-f", "cat"]))
        .unwrap()
        .unwrap();
    assert_eq!(p.file, "a.xml");
    assert_eq!(p.word, "cat");
}

#[test]
fn pdf_is_rejected() {
    let r = ParseArgs::parse(&argv(&["fw", "-f", "report.pdf", "-w", "cat"]));
    assert_eq!(r.unwrap_err(), ParseError::FileExtNotSupported);
    let r = ParseArgs::parse(&argv(&["fw", "-f", "report.txt.pdf", "-w", "cat"]));
    assert_eq!(r.unwrap_err(), ParseError::FileExtNotSupported);
}

#[test]
fn help_form() {
    let r = ParseArgs::parse(&argv(&["fw", "-help"]));
    assert!(matches!(r, Ok(None)));
    let r = ParseArgs::parse(&argv(&["anything", "-help"]));
    assert!(matches!(r, Ok(None)));
}

#[test]
fn bad_argument_counts() {
    for n in [0usize, 1, 3, 4, 6] {
        let items: Vec<&str> = ["fw", "-f", "a.txt", "-w", "cat", "x"][..n].to_vec();
        let r = ParseArgs::parse(&argv(&items));
        assert_eq!(r.unwrap_err(), ParseError::InvalidArgsLen);
    }
    let r = ParseArgs::parse(&argv(&["fw", "-f"]));
    assert_eq!(r.unwrap_err(), ParseError::InvalidArgsLen);
}

#[test]
fn wrong_command() {
    let r = ParseArgs::parse(&argv(&["fx", "-f", "a.txt", "-w", "cat"]));
    assert_eq!(r.unwrap_err(), ParseError::InvalidCmd);
}

#[test]
fn missing_option() {
    let r = ParseArgs::parse(&argv(&["fw", "-f", "a.txt", "-x", "cat"]));
    assert_eq!(r.unwrap_err(), ParseError::MissingOption);
    let r = ParseArgs::parse(&argv(&["fw", "-g", "a.txt", "-w", "cat"]));
    assert_eq!(r.unwrap_err(), ParseError::MissingOption);
}

#[test]
fn path_without_dot() {
    let r = ParseArgs::parse(&argv(&["fw", "-f", "notes", "-w", "cat"]));
    assert_eq!(r.unwrap_err(), ParseError::MalformedPath);
}

#[test]
fn extension_is_everything_after_first_dot() {
    let r = ParseArgs::parse(&argv(&["fw", "-f", "a.b.txt", "-w", "cat"]));
    assert_eq!(r.unwrap_err(), ParseError::FileExtNotSupported);
}

#[test]
fn supported_extensions() {
    for e in [".txt", ".html", ".xml", ".json"] {
        assert!(is_supported_file_ext(&e.to_string()));
    }
    for e in [".pdf", "txt", ".TXT", ""] {
        assert!(!is_supported_file_ext(&e.to_string()));
    }
}

#[test]
fn parse_error_messages() {
    assert_eq!(ParseError::InvalidArgsLen.message(), "invalid args len");
    assert_eq!(ParseError::InvalidCmd.message(), "invalid cmd");
    assert_eq!(ParseError::MissingOption.message(), "missing option");
    assert_eq!(ParseError::FileExtNotSupported.message(), "file ext not supported");
    assert_eq!(ParseError::MalformedPath.message(), "malformed path");
}

fn cells(row: &comfy_table::Row) -> Vec<String> {
    row.cell_iter().map(|c| c.content()).collect()
}

#[test]
fn help_tables() {
    let (commands, shortcuts) = create_table().unwrap();
    assert_eq!(
        cells(commands.header().unwrap()),
        vec!["Komut", "Komut Açıklaması"]
    );
    let rows: Vec<Vec<String>> = commands.row_iter().map(cells).collect();
    assert_eq!(rows.len(), 3);
    assert_eq!(rows[0][0], "fw");
    assert_eq!(rows[1], vec!["-f", "Hedef dosyayı belirtir."]);
    assert_eq!(rows[2], vec!["-w", "Hedef kelimeyi belirtir."]);
    assert_eq!(
        cells(shortcuts.header().unwrap()),
        vec!["Kısa Yol", "Kısa Yol Açıklaması", "Örnek Kullanım"]
    );
    let rows: Vec<Vec<String>> = shortcuts.row_iter().map(cells).collect();
    assert_eq!(
        rows,
        vec![vec!["desk/", "Masaüstü yolu için bir kısa yoldur.", "desk/a.txt"]]
    );
}
