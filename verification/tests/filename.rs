use rd_downloader::filename::{
    accepted_charset, filename_from_disposition, get_filename, get_filename_from_headers,
    get_filename_from_url, Disposition, DispositionKind, FilenameError, Parameter,
};
use rd_downloader::path::is_base_name;

fn header(value: &str) -> Option<&[u8]> {
    Some(value.as_bytes())
}

#[test]
fn url_with_rdzip_extension_names_file() {
    assert_eq!(get_filename_from_url("/levels/song.rdzip"), Some("song.rdzip".to_string()));
}

#[test]
fn url_with_zip_extension_names_file() {
    assert_eq!(get_filename_from_url("/a/b/My%20Song.zip"), Some("My%20Song.zip".to_string()));
    assert_eq!(get_filename_from_url("song.zip"), Some("song.zip".to_string()));
}

#[test]
fn url_with_other_extension_names_nothing() {
    assert_eq!(get_filename_from_url("/levels/song.rar"), None);
    assert_eq!(get_filename_from_url("/levels/song.ZIP"), None);
    assert_eq!(get_filename_from_url("/levels/song.zip.txt"), None);
    assert_eq!(get_filename_from_url("/levels/song"), None);
    assert_eq!(get_filename_from_url("/levels.zip/song"), None);
    assert_eq!(get_filename_from_url("/"), None);
    assert_eq!(get_filename_from_url(""), None);
}

#[test]
fn url_whose_last_segment_is_only_an_extension_names_nothing() {
    assert_eq!(get_filename_from_url("/levels/.zip"), None);
    assert_eq!(get_filename_from_url("/levels/.rdzip"), None);
}

#[test]
fn url_with_slashes_at_the_end_is_named_by_last_segment() {
    assert_eq!(get_filename_from_url("/levels/song.zip/"), Some("song.zip".to_string()));
}

#[test]
fn url_name_wins_over_headers() {
    assert_eq!(
        get_filename("/levels/song.rdzip", header("attachment; filename=\"other.zip\"")),
        Ok("song.rdzip".to_string())
    );
    assert_eq!(get_filename("/levels/song.zip", header("inline")), Ok("song.zip".to_string()));
    assert_eq!(get_filename("/levels/song.zip", None), Ok("song.zip".to_string()));
}

#[test]
fn header_names_file_when_url_does_not() {
    assert_eq!(
        get_filename("/download/1234", header("attachment; filename=\"a.zip\"")),
        Ok("a.zip".to_string())
    );
}

#[test]
fn missing_header_is_an_error() {
    assert_eq!(get_filename_from_headers(None), Err(FilenameError::MissingHeader));
    assert_eq!(get_filename("/download/1234", None), Err(FilenameError::MissingHeader));
}

#[test]
fn unparsable_header_is_an_error() {
    assert_eq!(get_filename_from_headers(header("")), Err(FilenameError::Unparsable));
    assert_eq!(get_filename_from_headers(header("attachment; filename")), Err(FilenameError::Unparsable));
    assert_eq!(get_filename_from_headers(Some(&b"attachment; filename=\"\xff.zip\""[..])), Err(FilenameError::Unparsable));
    assert_eq!(get_filename_from_headers(header("attachment; filename*=UTF-8'a.zip")), Err(FilenameError::Unparsable));
}

#[test]
fn other_disposition_is_an_error() {
    assert_eq!(get_filename_from_headers(header("inline; filename=\"a.zip\"")), Err(FilenameError::NotAttachment));
    assert_eq!(get_filename_from_headers(header("form-data; name=\"x\"; filename=\"a.zip\"")), Err(FilenameError::NotAttachment));
}

#[test]
fn disposition_type_is_read_without_regard_to_case() {
    assert_eq!(get_filename_from_headers(header("ATTACHMENT; FILENAME=\"a.zip\"")), Ok("a.zip".to_string()));
}

#[test]
fn attachment_without_filename_is_an_error() {
    assert_eq!(get_filename_from_headers(header("attachment")), Err(FilenameError::NoValidEncoding));
    assert_eq!(get_filename_from_headers(header("attachment; size=12")), Err(FilenameError::NoValidEncoding));
}

#[test]
fn extended_filename_in_utf8_is_decoded() {
    assert_eq!(
        get_filename_from_headers(header("attachment; filename*=UTF-8''%e2%82%ac%20rates.zip")),
        Ok("\u{20ac} rates.zip".to_string())
    );
    assert_eq!(
        get_filename_from_headers(header("attachment; filename*=utf-8'en'lev%C3%A9l.rdzip")),
        Ok("lev\u{e9}l.rdzip".to_string())
    );
}

#[test]
fn extended_filename_in_ascii_or_latin1_is_read_as_utf8() {
    assert_eq!(get_filename_from_headers(header("attachment; filename*=us-ascii''plain.zip")), Ok("plain.zip".to_string()));
    assert_eq!(get_filename_from_headers(header("attachment; filename*=ISO-8859-1''plain.zip")), Ok("plain.zip".to_string()));
}

#[test]
fn filename_that_is_not_utf8_is_an_error() {
    assert_eq!(
        get_filename_from_headers(header("attachment; filename*=iso-8859-1''%A9%20song.zip")),
        Err(FilenameError::InvalidUtf8)
    );
    assert_eq!(
        get_filename_from_headers(header("attachment; filename*=iso-8859-1''%A9.zip; filename=\"b.zip\"")),
        Err(FilenameError::InvalidUtf8)
    );
}

#[test]
fn filename_in_other_encoding_is_passed_over() {
    assert_eq!(
        get_filename_from_headers(header("attachment; filename*=Shift-JIS''a.zip; filename=\"b.zip\"")),
        Ok("b.zip".to_string())
    );
    assert_eq!(
        get_filename_from_headers(header("attachment; filename*=Shift-JIS''a.zip")),
        Err(FilenameError::NoValidEncoding)
    );
}

#[test]
fn first_usable_filename_wins() {
    assert_eq!(
        get_filename_from_headers(header("attachment; x=y; filename=\"first.zip\"; filename*=UTF-8''second.zip")),
        Ok("first.zip".to_string())
    );
}

#[test]
fn quotes_around_filename_are_dropped() {
    assert_eq!(get_filename_from_headers(header("attachment; filename=bare.zip")), Ok("bare.zip".to_string()));
    assert_eq!(get_filename_from_headers(header("attachment;filename=\"q.zip\"")), Ok("q.zip".to_string()));
}

#[test]
fn disposition_built_by_hand() {
    let d = Disposition {
        kind: DispositionKind::Attachment,
        parameters: vec![
            Parameter::Ext { name: "size".to_string(), value: "3".to_string() },
            Parameter::Filename { charset: "KOI8-R".to_string(), bytes: b"k.zip".to_vec() },
            Parameter::Filename { charset: "Utf-8".to_string(), bytes: "n\u{e9}.zip".as_bytes().to_vec() },
            Parameter::Filename { charset: "US-ASCII".to_string(), bytes: b"late.zip".to_vec() },
        ],
    };
    assert_eq!(filename_from_disposition(&d), Ok("n\u{e9}.zip".to_string()));
    let inline = Disposition { kind: DispositionKind::Inline, parameters: d.parameters.clone() };
    assert_eq!(filename_from_disposition(&inline), Err(FilenameError::NotAttachment));
    let ext = Disposition { kind: DispositionKind::Ext("form-data".to_string()), parameters: d.parameters.clone() };
    assert_eq!(filename_from_disposition(&ext), Err(FilenameError::NotAttachment));
    let broken = Disposition {
        kind: DispositionKind::Attachment,
        parameters: vec![Parameter::Filename { charset: "UTF-8".to_string(), bytes: vec![0x61, 0xc3] }],
    };
    assert_eq!(filename_from_disposition(&broken), Err(FilenameError::InvalidUtf8));
    let none = Disposition { kind: DispositionKind::Attachment, parameters: Vec::new() };
    assert_eq!(filename_from_disposition(&none), Err(FilenameError::NoValidEncoding));
}

#[test]
fn filename_with_directory_parts_is_an_error() {
    for name in ["../evil.zip", "/etc/passwd", "/abs/evil.zip", "sub/a.zip", "a.zip/", "a/", "..", ".", "", "/", "./a.zip"] {
        let value = format!("attachment; filename=\"{}\"", name);
        assert_eq!(get_filename_from_headers(header(&value)), Err(FilenameError::NotBaseName));
        assert_eq!(get_filename("/download/1", header(&value)), Err(FilenameError::NotBaseName));
        let d = Disposition {
            kind: DispositionKind::Attachment,
            parameters: vec![Parameter::Filename { charset: "UTF-8".to_string(), bytes: name.as_bytes().to_vec() }],
        };
        assert_eq!(filename_from_disposition(&d), Err(FilenameError::NotBaseName));
    }
    assert_eq!(
        get_filename_from_headers(header("attachment; filename*=UTF-8''..%2Fevil.zip")),
        Err(FilenameError::NotBaseName)
    );
    assert_eq!(
        get_filename_from_headers(header("attachment; filename=\"../evil.zip\"; filename=\"good.zip\"")),
        Err(FilenameError::NotBaseName)
    );
}

#[test]
fn filename_with_dots_but_no_slash_is_kept() {
    for name in ["...", "..zip", ".hidden", "a..b.zip", "a b (2).zip"] {
        let d = Disposition {
            kind: DispositionKind::Attachment,
            parameters: vec![Parameter::Filename { charset: "UTF-8".to_string(), bytes: name.as_bytes().to_vec() }],
        };
        assert_eq!(filename_from_disposition(&d), Ok(name.to_string()));
    }
}

#[test]
fn base_names() {
    assert!(is_base_name("a.zip"));
    assert!(is_base_name("a"));
    assert!(is_base_name("..."));
    assert!(is_base_name(".a"));
    assert!(is_base_name("a."));
    assert!(!is_base_name(""));
    assert!(!is_base_name("."));
    assert!(!is_base_name(".."));
    assert!(!is_base_name("/"));
    assert!(!is_base_name("a/b"));
    assert!(!is_base_name("/a"));
    assert!(!is_base_name("a/"));
    assert!(!is_base_name("../a"));
}

#[test]
fn name_from_url_is_always_a_base_name() {
    for path in ["/levels/song.zip", "/a/../b.rdzip", "/x.zip/", "song.zip", "//a.zip//", "/a/b.zip/."] {
        let name = get_filename_from_url(path).unwrap();
        assert!(is_base_name(&name));
    }
}

#[test]
fn charsets_that_are_read() {
    assert!(accepted_charset("US-ASCII"));
    assert!(accepted_charset("us-ascii"));
    assert!(accepted_charset("ISO-8859-1"));
    assert!(accepted_charset("iso-8859-1"));
    assert!(accepted_charset("UTF-8"));
    assert!(accepted_charset("utf-8"));
    assert!(accepted_charset("Utf-8"));
    assert!(!accepted_charset("UTF8"));
    assert!(!accepted_charset("ISO-8859-2"));
    assert!(!accepted_charset("UTF-16"));
    assert!(!accepted_charset(""));
    assert!(!accepted_charset("utf-8 "));
}

#[test]
fn filename_error_messages() {
    assert_eq!(FilenameError::MissingHeader.message(), "Could not find Content-Disposition header.");
    assert_eq!(FilenameError::Unparsable.message(), "Could not parse Content-Disposition header.");
    assert_eq!(FilenameError::NotAttachment.message(), "Unknown disposition type.");
    assert_eq!(FilenameError::InvalidUtf8.message(), "Filename was not valid UTF-8.");
    assert_eq!(
        FilenameError::NoValidEncoding.message(),
        "Content-Disposition did not have valid encoding for filename."
    );
    assert_eq!(FilenameError::NotBaseName.message(), "Filename was not the name of a file in the folder.");
}
