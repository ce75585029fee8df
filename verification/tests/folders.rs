use std::str::FromStr;
use steam::folders::library_folder;
use steam::folders::parse_folder_line;
use steam::folders::FolderLine;

fn folder(line: &str) -> Option<String> {
    match library_folder(line) {
        FolderLine::Folder(path) => Some(path),
        _ => None,
    }
}

/// What the std string functions make of a line, `Err` where they panic.
fn by_std(line: &str) -> Result<Option<String>, ()> {
    let line = line.trim().to_string();
    let mut parts = line.split("\t").filter(|p| p.len() > 0);
    let name = parts.next().ok_or(())?.replace("\"", "");
    if usize::from_str(&name).is_ok() {
        let value = parts.next().ok_or(())?.replace("\"", "");
        Ok(Some(value.replace("\\\\", "\\")))
    } else {
        Ok(None)
    }
}

fn by_library(line: &str) -> Result<Option<String>, ()> {
    match library_folder(line) {
        FolderLine::Folder(path) => Ok(Some(path)),
        FolderLine::Other => Ok(None),
        FolderLine::Malformed => Err(()),
    }
}

#[test]
fn numbered_line_names_a_folder() {
    assert_eq!(folder("\t\"1\"\t\t\"D:\\\\SteamLibrary\""), Some("D:\\SteamLibrary".to_string()));
    assert_eq!(folder("\"2\"\t\"/mnt/games\""), Some("/mnt/games".to_string()));
    assert_eq!(folder("3\tplain"), Some("plain".to_string()));
    assert_eq!(folder("+5\tplus"), Some("plus".to_string()));
    assert_eq!(folder("007\tzeros"), Some("zeros".to_string()));
    assert_eq!(folder("1\t\t\t\tfar\tmore"), Some("far".to_string()));
}

#[test]
fn other_lines_name_no_folder() {
    for line in ["\"LibraryFolders\"", "{", "}", "\"TimeNextStatsReport\"\t\t\"1596830134\"", "-5\tx", "1.5\tx", "0x10\tx", "1 \tx", "+\tx", "\"\"\tx", "١\tx"] {
        assert!(matches!(library_folder(line), FolderLine::Other), "{:?}", line);
    }
}

#[test]
fn empty_or_cut_lines_are_malformed() {
    for line in ["", "   ", "\t\t", " \t \n", "\"1\"", "42", "42\t\t", "  7  "] {
        assert!(matches!(library_folder(line), FolderLine::Malformed), "{:?}", line);
    }
}

#[test]
fn white_space_around_the_line_is_dropped() {
    assert_eq!(folder("   \"1\"\tx   "), Some("x".to_string()));
    assert_eq!(folder("\u{3000}1\tx\r\n"), Some("x".to_string()));
    assert!(matches!(parse_folder_line("   \"1\"\tx"), FolderLine::Other));
    assert!(matches!(parse_folder_line("1\tx  "), FolderLine::Folder(p) if p == "x  "));
}

#[test]
fn quotes_go_and_doubled_backslashes_become_single() {
    assert_eq!(folder("1\ta\"b\"c"), Some("abc".to_string()));
    assert_eq!(folder("\"1\"\"\"\t\"\""), Some("".to_string()));
    assert_eq!(folder("1\t\\"), Some("\\".to_string()));
    assert_eq!(folder("1\t\\\\"), Some("\\".to_string()));
    assert_eq!(folder("1\t\\\\\\"), Some("\\\\".to_string()));
    assert_eq!(folder("1\t\\\\\\\\"), Some("\\\\".to_string()));
    assert_eq!(folder("1\tc:\\\\a\\b\\\\\\\\c"), Some("c:\\a\\b\\\\c".to_string()));
    assert_eq!(folder("1\t\\\"\\"), Some("\\".to_string()));
    assert_eq!(folder("1\tGröße\\\\日本"), Some("Größe\\日本".to_string()));
}

#[test]
fn number_must_fit() {
    let most = usize::MAX.to_string();
    assert_eq!(folder(&format!("{}\tx", most)), Some("x".to_string()));
    assert_eq!(folder(&format!("+000{}\tx", most)), Some("x".to_string()));
    let mut over = most.clone();
    let last = over.pop().unwrap();
    over.push(char::from_digit(last.to_digit(10).unwrap() + 1, 10).unwrap());
    assert!(matches!(library_folder(&format!("{}\tx", over)), FolderLine::Other));
    assert!(matches!(library_folder(&format!("{}0\tx", most)), FolderLine::Other));
    assert!(matches!(library_folder("99999999999999999999999999999999999999999\tx"), FolderLine::Other));
    assert!(matches!(library_folder("99999999999999999999999999999999999999999"), FolderLine::Other));
}

#[test]
fn agrees_with_std() {
    let pieces = ["", "1", "\"", "\t", "\\", "\\\\", " ", "+", "a", "12", "-", "\"3\"", "\t\t", "x\\\\y", "\n"];
    for a in pieces {
        for b in pieces {
            for c in pieces {
                for d in pieces {
                    let line = format!("{}{}{}{}", a, b, c, d);
                    assert_eq!(by_library(&line), by_std(&line), "{:?}", line);
                }
            }
        }
    }
}
