use rd_downloader::collision::{ensure_path, is_taken, ClaimedNames, PathError};
use rd_downloader::path::{extension, file_name, file_stem};
use rd_downloader::text::{chars_of, eq_ignore_ascii_case, push_decimal, string_of, string_of_range};

fn names(list: &[&str]) -> Vec<String> {
    list.iter().map(|n| n.to_string()).collect()
}

#[test]
fn free_path_is_kept() {
    assert_eq!(ensure_path("song.zip", &names(&[])), Ok("song.zip".to_string()));
    assert_eq!(ensure_path("song.zip", &names(&["other.zip", "song (2).zip"])), Ok("song.zip".to_string()));
}

#[test]
fn free_path_without_extension_is_kept() {
    assert_eq!(ensure_path("README", &names(&["song.zip"])), Ok("README".to_string()));
    assert_eq!(ensure_path("", &names(&["song.zip"])), Ok(String::new()));
}

#[test]
fn taken_path_gives_way_to_second() {
    assert_eq!(ensure_path("song.zip", &names(&["song.zip"])), Ok("song (2).zip".to_string()));
}

#[test]
fn taken_second_gives_way_to_third() {
    assert_eq!(
        ensure_path("song.zip", &names(&["song (2).zip", "song.zip"])),
        Ok("song (3).zip".to_string())
    );
}

#[test]
fn first_gap_is_taken() {
    assert_eq!(
        ensure_path("song.zip", &names(&["song.zip", "song (2).zip", "song (4).zip"])),
        Ok("song (3).zip".to_string())
    );
}

#[test]
fn numbers_run_past_nine() {
    let mut taken = names(&["a.rdzip"]);
    for i in 2..=11 {
        taken.push(format!("a ({}).rdzip", i));
    }
    assert_eq!(ensure_path("a.rdzip", &taken), Ok("a (12).rdzip".to_string()));
    for i in 12..=100 {
        taken.push(format!("a ({}).rdzip", i));
    }
    assert_eq!(ensure_path("a.rdzip", &taken), Ok("a (101).rdzip".to_string()));
}

#[test]
fn only_last_dot_parts_the_extension() {
    assert_eq!(
        ensure_path("my.song.v2.zip", &names(&["my.song.v2.zip"])),
        Ok("my.song.v2 (2).zip".to_string())
    );
    assert_eq!(ensure_path("song.", &names(&["song."])), Ok("song (2).".to_string()));
}

#[test]
fn folder_before_file_name_is_kept() {
    assert_eq!(
        ensure_path("levels/song.zip", &names(&["levels/song.zip"])),
        Ok("levels/song (2).zip".to_string())
    );
    assert_eq!(
        ensure_path("/tmp/rd/song.zip", &names(&["/tmp/rd/song.zip", "/tmp/rd/song (2).zip"])),
        Ok("/tmp/rd/song (3).zip".to_string())
    );
}

#[test]
fn taken_path_without_extension_is_an_error() {
    assert_eq!(ensure_path("README", &names(&["README"])), Err(PathError::NoExtension));
    assert_eq!(ensure_path(".hidden", &names(&[".hidden"])), Err(PathError::NoExtension));
    assert_eq!(ensure_path("a.zip/b", &names(&["a.zip/b"])), Err(PathError::NoExtension));
}

#[test]
fn taken_path_without_file_name_is_an_error() {
    assert_eq!(ensure_path("", &names(&[""])), Err(PathError::NoFileStem));
    assert_eq!(ensure_path("..", &names(&[".."])), Err(PathError::NoFileStem));
    assert_eq!(ensure_path(".", &names(&["."])), Err(PathError::NoFileStem));
    assert_eq!(ensure_path("levels/..", &names(&["levels/.."])), Err(PathError::NoFileStem));
    assert_eq!(ensure_path("/", &names(&["/"])), Err(PathError::NoFileStem));
}

#[test]
fn path_error_messages() {
    assert_eq!(PathError::NoFileStem.message(), "Could not get filename from path.");
    assert_eq!(PathError::NoExtension.message(), "Could not get extension from path.");
}

#[test]
fn is_taken_compares_whole_paths() {
    let taken = names(&["song.zip", "b.zip"]);
    assert!(is_taken(&taken, &"b.zip".to_string()));
    assert!(!is_taken(&taken, &"song".to_string()));
    assert!(!is_taken(&taken, &"Song.zip".to_string()));
    assert!(!is_taken(&Vec::new(), &"song.zip".to_string()));
}

#[test]
fn claims_of_one_name_all_differ() {
    let mut claimed = ClaimedNames::new(names(&["song.zip"]));
    assert!(claimed.contains("song.zip"));
    assert!(!claimed.contains("song (2).zip"));
    assert_eq!(claimed.claim("song.zip"), Ok("song (2).zip".to_string()));
    assert!(claimed.contains("song (2).zip"));
    assert_eq!(claimed.claim("song.zip"), Ok("song (3).zip".to_string()));
    assert_eq!(claimed.claim("other.zip"), Ok("other.zip".to_string()));
    assert_eq!(claimed.claim("other.zip"), Ok("other (2).zip".to_string()));
    assert_eq!(claimed.claim("song (2).zip"), Ok("song (2) (2).zip".to_string()));
}

#[test]
fn observed_path_is_taken_once() {
    let mut claimed = ClaimedNames::new(names(&["song.zip"]));
    claimed.observe("other.zip");
    assert!(claimed.contains("other.zip"));
    claimed.observe("other.zip");
    claimed.observe("song.zip");
    assert_eq!(claimed.claim("other.zip"), Ok("other (2).zip".to_string()));
    assert_eq!(claimed.claim("song.zip"), Ok("song (2).zip".to_string()));
    claimed.observe("song (3).zip");
    assert_eq!(claimed.claim("song.zip"), Ok("song (4).zip".to_string()));
    assert!(!claimed.contains("new.zip"));
    claimed.observe("");
    assert!(claimed.contains(""));
}

#[test]
fn failed_claim_changes_nothing() {
    let mut claimed = ClaimedNames::new(names(&["README"]));
    assert_eq!(claimed.claim("README"), Err(PathError::NoExtension));
    assert!(claimed.contains("README"));
    assert_eq!(claimed.claim("README.md"), Ok("README.md".to_string()));
    assert_eq!(claimed.claim("README"), Err(PathError::NoExtension));
}

#[test]
fn file_name_is_last_segment() {
    assert_eq!(file_name("/a/b/song.zip"), Some("song.zip".to_string()));
    assert_eq!(file_name("song.zip"), Some("song.zip".to_string()));
    assert_eq!(file_name("/a/b/"), Some("b".to_string()));
    assert_eq!(file_name("/a/b///"), Some("b".to_string()));
    assert_eq!(file_name("/a/..."), Some("...".to_string()));
    assert_eq!(file_name("/"), None);
    assert_eq!(file_name(""), None);
    assert_eq!(file_name("/a/.."), None);
    assert_eq!(file_name(".."), None);
    assert_eq!(file_name("."), None);
    assert_eq!(file_name("/."), None);
    assert_eq!(file_name("./."), None);
}

#[test]
fn dot_segments_at_the_end_are_passed_over() {
    assert_eq!(file_name("/a/."), Some("a".to_string()));
    assert_eq!(file_name("/a/b.zip/."), Some("b.zip".to_string()));
    assert_eq!(file_name("/a/b.zip/./"), Some("b.zip".to_string()));
    assert_eq!(file_name("/a/b.zip/.//./"), Some("b.zip".to_string()));
    assert_eq!(file_name("a/.b"), Some(".b".to_string()));
    assert_eq!(file_name("a./"), Some("a.".to_string()));
    assert_eq!(extension("/a/b.zip/."), Some("zip".to_string()));
    assert_eq!(file_stem("/a/b.zip/."), Some("b".to_string()));
    assert_eq!(
        ensure_path("a/b.zip/.", &names(&["a/b.zip/."])),
        Ok("a/b (2).zip".to_string())
    );
}

#[test]
fn extension_follows_last_dot() {
    assert_eq!(extension("/a/song.zip"), Some("zip".to_string()));
    assert_eq!(extension("a.b.c"), Some("c".to_string()));
    assert_eq!(extension("song."), Some(String::new()));
    assert_eq!(extension("..zip"), Some("zip".to_string()));
    assert_eq!(extension(".zip"), None);
    assert_eq!(extension("song"), None);
    assert_eq!(extension("a.b/c"), None);
    assert_eq!(extension(".."), None);
    assert_eq!(extension(""), None);
}

#[test]
fn file_stem_stands_before_last_dot() {
    assert_eq!(file_stem("/a/song.zip"), Some("song".to_string()));
    assert_eq!(file_stem("a.b.c"), Some("a.b".to_string()));
    assert_eq!(file_stem("song."), Some("song".to_string()));
    assert_eq!(file_stem(".zip"), Some(".zip".to_string()));
    assert_eq!(file_stem("song"), Some("song".to_string()));
    assert_eq!(file_stem(".."), None);
    assert_eq!(file_stem("/"), None);
}

#[test]
fn chars_and_strings_round_trip() {
    let chars = chars_of("lev\u{e9}l \u{20ac}");
    assert_eq!(chars, vec!['l', 'e', 'v', '\u{e9}', 'l', ' ', '\u{20ac}']);
    assert_eq!(string_of(&chars), "lev\u{e9}l \u{20ac}");
    assert_eq!(string_of_range(&chars, 3, 6), "\u{e9}l ");
    assert_eq!(string_of_range(&chars, 2, 2), "");
    assert_eq!(chars_of(""), Vec::<char>::new());
}

#[test]
fn decimal_numerals() {
    let mut out = vec!['n', '='];
    push_decimal(&mut out, 0);
    assert_eq!(string_of(&out), "n=0");
    let mut out = Vec::new();
    push_decimal(&mut out, 7);
    push_decimal(&mut out, 10);
    push_decimal(&mut out, 1234567890);
    assert_eq!(string_of(&out), "7101234567890");
    let mut out = Vec::new();
    push_decimal(&mut out, u128::MAX);
    assert_eq!(string_of(&out), "340282366920938463463374607431768211455");
}

#[test]
fn ascii_case_is_ignored_and_nothing_else() {
    assert!(eq_ignore_ascii_case(&chars_of("Utf-8"), &chars_of("uTF-8")));
    assert!(eq_ignore_ascii_case(&chars_of(""), &chars_of("")));
    assert!(!eq_ignore_ascii_case(&chars_of("utf-8"), &chars_of("utf_8")));
    assert!(!eq_ignore_ascii_case(&chars_of("utf-8"), &chars_of("utf-80")));
    assert!(!eq_ignore_ascii_case(&chars_of("\u{e9}"), &chars_of("\u{c9}")));
    assert!(!eq_ignore_ascii_case(&chars_of("@"), &chars_of("`")));
    assert!(!eq_ignore_ascii_case(&chars_of("["), &chars_of("{")));
}
