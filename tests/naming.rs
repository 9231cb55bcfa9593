use fototpm::season::season_directory;
use fototpm::session::UploadSession;
use fototpm::text::{clean_string, parse_decimal, push_decimal, push_zero_padded};

#[test]
fn season_before_august_belongs_to_previous_year() {
    assert_eq!(season_directory(7, 2024), "2023-2024");
}

#[test]
fn season_from_august_starts_this_year() {
    assert_eq!(season_directory(8, 2024), "2024-2025");
}

#[test]
fn season_edges_of_the_year() {
    assert_eq!(season_directory(1, 2000), "1999-2000");
    assert_eq!(season_directory(12, 2000), "2000-2001");
}

fn lupi_session() -> UploadSession {
    UploadSession::new("Lupi ", " l c", 5, 3, 24, "ftp.example.org", "user", "pw", false)
}

#[test]
fn session_cleans_title_and_branch() {
    let s = lupi_session();
    assert_eq!(s.title, "Lupi");
    assert_eq!(s.branch_code, "LC");
}

#[test]
fn session_date_code_and_directory() {
    let s = lupi_session();
    assert_eq!(s.date_code(), "240305");
    assert_eq!(s.local_directory_name(), "240305_LC_Lupi");
}

#[test]
fn session_full_year_is_cut_to_two_digits() {
    let s = UploadSession::new("Gita", "rs", 21, 11, 2023, "h", "u", "p", true);
    assert_eq!(s.date_code(), "231121");
    assert_eq!(s.season_directory(), "2023-2024");
}

#[test]
fn session_image_file_names_are_numbered_from_one() {
    let s = lupi_session();
    assert_eq!(s.image_file_path(0), "240305_LC_Lupi/240305_LC_Lupi_001.JPG");
    assert_eq!(s.image_file_path(41), "240305_LC_Lupi/240305_LC_Lupi_042.JPG");
    assert_eq!(s.image_file_path(999), "240305_LC_Lupi/240305_LC_Lupi_1000.JPG");
}

#[test]
fn clean_string_strips_every_blank() {
    assert_eq!(clean_string(" a\tb\r\nc d "), "abcd");
    assert_eq!(clean_string(""), "");
    assert_eq!(clean_string(" \t\r\n"), "");
}

#[test]
fn branch_upper_case_is_unicode() {
    let s = UploadSession::new("x", "straße", 1, 1, 2020, "h", "u", "p", false);
    assert_eq!(s.branch_code, "STRASSE");
}

#[test]
fn decimal_rendering() {
    let mut s = String::new();
    push_decimal(&mut s, 0);
    assert_eq!(s, "0");
    let mut s = String::from("n=");
    push_decimal(&mut s, 18446744073709551615);
    assert_eq!(s, "n=18446744073709551615");
}

#[test]
fn zero_padding() {
    let mut s = String::new();
    push_zero_padded(&mut s, 7, 3);
    assert_eq!(s, "007");
    let mut s = String::new();
    push_zero_padded(&mut s, 1234, 3);
    assert_eq!(s, "1234");
    let mut s = String::new();
    push_zero_padded(&mut s, 0, 2);
    assert_eq!(s, "00");
}

#[test]
fn decimal_parsing() {
    assert_eq!(parse_decimal("07"), Some(7));
    assert_eq!(parse_decimal(""), Some(0));
    assert_eq!(parse_decimal("1a"), None);
    assert_eq!(parse_decimal("+1"), None);
    assert_eq!(parse_decimal("18446744073709551615"), Some(u64::MAX));
    assert_eq!(parse_decimal("18446744073709551616"), None);
}
