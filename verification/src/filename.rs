//! The name under which a download is stored: taken from the path of its URL
//! where that ends in an archive's extension, and from the response's
//! `Content-Disposition` header otherwise.
//!
//! A header that gives no usable file name is an error: no empty name is made
//! up in its place. So is a file name with directory parts: the name that is
//! resolved is always that of a file directly in the folder.

use vstd::prelude::*;
use vstd::string::*;
use vstd::utf8::{decode_utf8, valid_utf8};
use hyperx::header::{ContentDisposition, DispositionParam, DispositionType, Header, Raw};
use crate::path::{extension, file_name, is_base_name, lemma_last_dot, lemma_segment_bounds,
    spec_base_name, spec_extension, spec_file_name, spec_last_dot, spec_last_segment,
    spec_name_end, spec_name_start};
use crate::text::{chars_of, eq_ignore_ascii_case, spec_eq_ignore_ascii_case, text_of_utf8};

verus! {

/// Why no file name could be found for a download.
#[derive(Clone, Copy, Debug, PartialEq, Eq, Structural)]
pub enum FilenameError {
    /// The response has no `Content-Disposition` header.
    MissingHeader,
    /// The header is not a well-formed `Content-Disposition`.
    Unparsable,
    /// The disposition is not `attachment`.
    NotAttachment,
    /// The file name is not well-formed UTF-8.
    InvalidUtf8,
    /// No file name comes in an encoding that is read here.
    NoValidEncoding,
    /// The file name is empty, `.` or `..`, or holds a slash.
    NotBaseName,
}

impl FilenameError {
    pub open spec fn spec_message(self) -> Seq<char> {
        match self {
            FilenameError::MissingHeader => "Could not find Content-Disposition header."@,
            FilenameError::Unparsable => "Could not parse Content-Disposition header."@,
            FilenameError::NotAttachment => "Unknown disposition type."@,
            FilenameError::InvalidUtf8 => "Filename was not valid UTF-8."@,
            FilenameError::NoValidEncoding => "Content-Disposition did not have valid encoding for filename."@,
            FilenameError::NotBaseName => "Filename was not the name of a file in the folder."@,
        }
    }

    /// The sentence that reports the error.
    pub fn message(&self) -> (text: &'static str)
        ensures
            text@ == self.spec_message(),
    {
        match self {
            FilenameError::MissingHeader => "Could not find Content-Disposition header.",
            FilenameError::Unparsable => "Could not parse Content-Disposition header.",
            FilenameError::NotAttachment => "Unknown disposition type.",
            FilenameError::InvalidUtf8 => "Filename was not valid UTF-8.",
            FilenameError::NoValidEncoding => "Content-Disposition did not have valid encoding for filename.",
            FilenameError::NotBaseName => "Filename was not the name of a file in the folder.",
        }
    }
}

/// How the body of a response is meant to be treated.
#[derive(Clone, Debug)]
pub enum DispositionKind {
    Inline,
    Attachment,
    /// Any other disposition, by its token.
    Ext(String),
}

/// One parameter of a `Content-Disposition` header.
#[derive(Clone, Debug)]
pub enum Parameter {
    /// A file name: the token of its character encoding and its bytes.
    Filename { charset: String, bytes: Vec<u8> },
    /// Any other parameter, by name and value.
    Ext { name: String, value: String },
}

/// A `Content-Disposition` header, taken apart.
#[derive(Clone, Debug)]
pub struct Disposition {
    pub kind: DispositionKind,
    pub parameters: Vec<Parameter>,
}

pub enum DispositionKindView {
    Inline,
    Attachment,
    Ext(Seq<char>),
}

pub enum ParameterView {
    Filename { charset: Seq<char>, bytes: Seq<u8> },
    Ext { name: Seq<char>, value: Seq<char> },
}

pub struct DispositionView {
    pub kind: DispositionKindView,
    pub parameters: Seq<ParameterView>,
}

impl View for DispositionKind {
    type V = DispositionKindView;

    open spec fn view(&self) -> DispositionKindView {
        match self {
            DispositionKind::Inline => DispositionKindView::Inline,
            DispositionKind::Attachment => DispositionKindView::Attachment,
            DispositionKind::Ext(token) => DispositionKindView::Ext(token@),
        }
    }
}

impl View for Parameter {
    type V = ParameterView;

    open spec fn view(&self) -> ParameterView {
        match self {
            Parameter::Filename { charset, bytes } => ParameterView::Filename {
                charset: charset@,
                bytes: bytes@,
            },
            Parameter::Ext { name, value } => ParameterView::Ext { name: name@, value: value@ },
        }
    }
}

impl View for Disposition {
    type V = DispositionView;

    open spec fn view(&self) -> DispositionView {
        DispositionView {
            kind: self.kind@,
            parameters: self.parameters@.map_values(|p: Parameter| p@),
        }
    }
}

/// What `ContentDisposition::parse_header` of hyperx makes of the one header
/// line `raw`: the disposition and its parameters in the order of the line, or
/// `None` where it reports an error.
pub uninterp spec fn spec_parse_disposition(raw: Seq<u8>) -> Option<DispositionView>;

/// `ContentDisposition::parse_header` of hyperx, on a header of the single
/// line `raw`. The result is a function of the bytes alone; the language tag
/// of a file name is dropped, and its character encoding is kept by the token
/// under which hyperx prints it.
#[verifier::external_body]
fn parse_disposition(raw: &[u8]) -> (parsed: Option<Disposition>)
    ensures
        match parsed {
            Some(d) => spec_parse_disposition(raw@) == Some(d@),
            None => spec_parse_disposition(raw@) is None,
        },
{
    let header = ContentDisposition::parse_header(&Raw::from(raw)).ok()?;
    let kind = match header.disposition {
        DispositionType::Inline => DispositionKind::Inline,
        DispositionType::Attachment => DispositionKind::Attachment,
        DispositionType::Ext(token) => DispositionKind::Ext(token),
    };
    let parameters = header.parameters.into_iter().map(|p| match p {
        DispositionParam::Filename(charset, _, bytes) => Parameter::Filename { charset: charset.to_string(), bytes },
        DispositionParam::Ext(name, value) => Parameter::Ext { name, value },
    }).collect();
    Some(Disposition { kind, parameters })
}

/// The encodings in which a file name is read: US-ASCII, ISO-8859-1 and
/// UTF-8, by their tokens and without regard to case.
pub open spec fn spec_accepted_charset(token: Seq<char>) -> bool {
    ||| spec_eq_ignore_ascii_case(token, "US-ASCII"@)
    ||| spec_eq_ignore_ascii_case(token, "ISO-8859-1"@)
    ||| spec_eq_ignore_ascii_case(token, "UTF-8"@)
}

/// Whether a file name in the encoding `token` is read.
pub fn accepted_charset(token: &str) -> (accepted: bool)
    ensures
        accepted == spec_accepted_charset(token@),
{
    let chars = chars_of(token);
    eq_ignore_ascii_case(&chars, &chars_of("US-ASCII")) || eq_ignore_ascii_case(
        &chars,
        &chars_of("ISO-8859-1"),
    ) || eq_ignore_ascii_case(&chars, &chars_of("UTF-8"))
}

impl ParameterView {
    /// The parameter is a file name in an encoding that is read.
    pub open spec fn usable(self) -> bool {
        match self {
            ParameterView::Filename { charset, bytes } => spec_accepted_charset(charset),
            ParameterView::Ext { .. } => false,
        }
    }
}

/// The place of the first usable file name among `parameters` from `from`
/// on, or their number if there is none.
pub open spec fn spec_first_usable(parameters: Seq<ParameterView>, from: nat) -> nat
    decreases parameters.len() - from,
{
    if from >= parameters.len() {
        parameters.len()
    } else if parameters[from as int].usable() {
        from
    } else {
        spec_first_usable(parameters, from + 1)
    }
}

/// The file name that a header gives: that of its first usable file name
/// parameter, if the disposition is `attachment`, the bytes are UTF-8, and
/// the name has no directory parts.
pub open spec fn spec_filename_from_disposition(d: DispositionView) -> Result<
    Seq<char>,
    FilenameError,
> {
    let first = spec_first_usable(d.parameters, 0);
    if !(d.kind is Attachment) {
        Err(FilenameError::NotAttachment)
    } else if first >= d.parameters.len() {
        Err(FilenameError::NoValidEncoding)
    } else {
        let bytes = d.parameters[first as int]->Filename_bytes;
        if !valid_utf8(bytes) {
            Err(FilenameError::InvalidUtf8)
        } else if !spec_base_name(decode_utf8(bytes)) {
            Err(FilenameError::NotBaseName)
        } else {
            Ok(decode_utf8(bytes))
        }
    }
}

/// The first usable file name is usable, and nothing before it is.
pub proof fn lemma_first_usable(parameters: Seq<ParameterView>, from: nat)
    requires
        from <= parameters.len(),
    ensures
        from <= spec_first_usable(parameters, from) <= parameters.len(),
        spec_first_usable(parameters, from) < parameters.len() ==> parameters[spec_first_usable(
            parameters,
            from,
        ) as int].usable(),
        forall|k: int|
            from <= k < spec_first_usable(parameters, from) ==> !(#[trigger] parameters[k]).usable(),
    decreases parameters.len() - from,
{
    if from < parameters.len() && !parameters[from as int].usable() {
        lemma_first_usable(parameters, from + 1);
    }
}

/// The file name that the header `disposition` gives.
pub fn filename_from_disposition(disposition: &Disposition) -> (name: Result<String, FilenameError>)
    ensures
        match name {
            Ok(n) => spec_filename_from_disposition(disposition@) == Ok::<Seq<char>, FilenameError>(n@),
            Err(e) => spec_filename_from_disposition(disposition@) == Err::<Seq<char>, FilenameError>(e),
        },
{
    match disposition.kind {
        DispositionKind::Attachment => {},
        _ => {
            return Err(FilenameError::NotAttachment);
        },
    }
    let ghost parameters = disposition@.parameters;
    let mut i: usize = 0;
    while i < disposition.parameters.len()
        invariant
            i <= disposition.parameters.len(),
            disposition@.kind is Attachment,
            parameters == disposition@.parameters,
            parameters.len() == disposition.parameters.len(),
            spec_first_usable(parameters, 0) == spec_first_usable(parameters, i as nat),
        decreases disposition.parameters.len() - i,
    {
        assert(parameters[i as int] == disposition.parameters[i as int]@);
        match &disposition.parameters[i] {
            Parameter::Filename { charset, bytes } => {
                if accepted_charset(charset.as_str()) {
                    assert(parameters[i as int] == (ParameterView::Filename {
                        charset: charset@,
                        bytes: bytes@,
                    }));
                    assert(spec_first_usable(parameters, i as nat) == i);
                    return match text_of_utf8(bytes.as_slice()) {
                        Some(text) => if is_base_name(text.as_str()) {
                            Ok(text)
                        } else {
                            Err(FilenameError::NotBaseName)
                        },
                        None => Err(FilenameError::InvalidUtf8),
                    };
                }
            },
            Parameter::Ext { .. } => {},
        }
        i += 1;
    }
    Err(FilenameError::NoValidEncoding)
}

/// The file name that the value `header` of a `Content-Disposition` header
/// gives, `header` being `None` where the response has no such header.
pub open spec fn spec_filename_from_headers(header: Option<Seq<u8>>) -> Result<
    Seq<char>,
    FilenameError,
> {
    match header {
        None => Err(FilenameError::MissingHeader),
        Some(raw) => match spec_parse_disposition(raw) {
            None => Err(FilenameError::Unparsable),
            Some(d) => spec_filename_from_disposition(d),
        },
    }
}

/// Reads the file name out of the value of the response's
/// `Content-Disposition` header.
pub fn get_filename_from_headers(header: Option<&[u8]>) -> (name: Result<String, FilenameError>)
    ensures
        match name {
            Ok(n) => spec_filename_from_headers(spec_bytes_of(header)) == Ok::<Seq<char>, FilenameError>(n@),
            Err(e) => spec_filename_from_headers(spec_bytes_of(header)) == Err::<Seq<char>, FilenameError>(e),
        },
{
    match header {
        None => Err(FilenameError::MissingHeader),
        Some(raw) => match parse_disposition(raw) {
            None => Err(FilenameError::Unparsable),
            Some(disposition) => filename_from_disposition(&disposition),
        },
    }
}

/// The bytes of a header's value, if there is one.
pub open spec fn spec_bytes_of(header: Option<&[u8]>) -> Option<Seq<u8>> {
    match header {
        Some(raw) => Some(raw@),
        None => None,
    }
}

/// An extension by which a URL names an archive.
pub open spec fn spec_archive_extension(ext: Seq<char>) -> bool {
    ext == "rdzip"@ || ext == "zip"@
}

/// The file name that the path of a URL gives: its last segment, if that has
/// an archive's extension.
pub open spec fn spec_filename_from_url(url_path: Seq<char>) -> Option<Seq<char>> {
    match spec_extension(url_path) {
        Some(ext) => if spec_archive_extension(ext) {
            spec_file_name(url_path)
        } else {
            None
        },
        None => None,
    }
}

/// Takes the file name from the path of the URL, where that ends in `.rdzip`
/// or `.zip`.
pub fn get_filename_from_url(url_path: &str) -> (name: Option<String>)
    ensures
        match name {
            Some(n) => spec_filename_from_url(url_path@) == Some(n@),
            None => spec_filename_from_url(url_path@) is None,
        },
{
    match extension(url_path) {
        Some(ext) => {
            if ext == String::from_str("rdzip") || ext == String::from_str("zip") {
                file_name(url_path)
            } else {
                None
            }
        },
        None => None,
    }
}

/// The name under which a download is stored: that of the URL where it gives
/// one, else that of the header.
pub open spec fn spec_get_filename(url_path: Seq<char>, header: Option<Seq<u8>>) -> Result<
    Seq<char>,
    FilenameError,
> {
    match spec_filename_from_url(url_path) {
        Some(name) => Ok(name),
        None => spec_filename_from_headers(header),
    }
}

/// Resolves the name under which a download is stored, from the path of its
/// URL and the value of the response's `Content-Disposition` header.
pub fn get_filename(url_path: &str, header: Option<&[u8]>) -> (name: Result<String, FilenameError>)
    ensures
        match name {
            Ok(n) => spec_get_filename(url_path@, spec_bytes_of(header)) == Ok::<Seq<char>, FilenameError>(n@),
            Err(e) => spec_get_filename(url_path@, spec_bytes_of(header)) == Err::<Seq<char>, FilenameError>(e),
        },
{
    match get_filename_from_url(url_path) {
        Some(name) => Ok(name),
        None => get_filename_from_headers(header),
    }
}

/// The name that is resolved has no directory parts: it is not empty, `.` or
/// `..`, and holds no slash, whether it comes from the URL or from the header.
pub proof fn lemma_resolved_name_is_base(url_path: Seq<char>, header: Option<Seq<u8>>)
    ensures
        spec_get_filename(url_path, header) matches Ok(name) ==> spec_base_name(name),
{
    lemma_segment_bounds(url_path);
    if let Some(name) = spec_filename_from_url(url_path) {
        let end = spec_name_end(url_path, url_path.len());
        let start = spec_name_start(url_path, end);
        assert(name == spec_last_segment(url_path));
        assert forall|i: int| 0 <= i < name.len() implies name[i] != '/' by {
            assert(name[i] == url_path[start + i]);
        }
    }
}

/// `text` ends with `suffix`.
pub open spec fn spec_ends_with(text: Seq<char>, suffix: Seq<char>) -> bool {
    text.len() >= suffix.len() && text.subrange(text.len() - suffix.len(), text.len() as int)
        == suffix
}

/// A URL whose path ends in `.rdzip` or `.zip` names the download by its last
/// segment, whatever the headers say, provided that something stands before
/// the extension's dot in that segment.
pub proof fn lemma_archive_url_names_download(url_path: Seq<char>, header: Option<Seq<u8>>)
    requires
        (spec_ends_with(url_path, ".zip"@) && spec_last_segment(url_path).len() > 4) || (
        spec_ends_with(url_path, ".rdzip"@) && spec_last_segment(url_path).len() > 6),
    ensures
        spec_get_filename(url_path, header) == Ok::<Seq<char>, FilenameError>(
            spec_last_segment(url_path),
        ),
{
    reveal_strlit(".zip");
    reveal_strlit(".rdzip");
    reveal_strlit("zip");
    reveal_strlit("rdzip");
    let len = url_path.len();
    let segment = spec_last_segment(url_path);
    let end = spec_name_end(url_path, len);
    let start = spec_name_start(url_path, end);
    lemma_segment_bounds(url_path);
    let zip = spec_ends_with(url_path, ".zip"@) && segment.len() > 4;
    let suffix = if zip { ".zip"@ } else { ".rdzip"@ };
    let n = suffix.len();
    assert(url_path[len - 1] == suffix[n - 1]);
    assert(url_path[len - 1] != '/');
    assert(end == len);
    let dot: int = segment.len() - n;
    assert forall|k: int| 0 <= k < n implies #[trigger] segment[dot + k] == suffix[k] by {
        assert(segment[dot + k] == url_path[start + dot + k]);
        assert(url_path.subrange(len - n, len as int)[k] == url_path[len - n + k]);
    }
    assert(segment[dot + 0] == suffix[0]);
    assert forall|k: int| dot < k < segment.len() implies segment[k] != '.' by {
        assert(segment[dot + (k - dot)] == suffix[k - dot]);
    }
    lemma_last_dot(segment, segment.len());
    assert(spec_last_dot(segment, segment.len()) == Some(dot as nat));
    let ext = segment.subrange(dot + 1, segment.len() as int);
    assert(ext =~= suffix.subrange(1, n as int)) by {
        assert forall|k: int| 0 <= k < ext.len() implies ext[k] == suffix[k + 1] by {
            assert(segment[dot + (k + 1)] == suffix[k + 1]);
        }
    }
    if zip {
        assert(suffix.subrange(1, n as int) =~= "zip"@);
    } else {
        assert(suffix.subrange(1, n as int) =~= "rdzip"@);
    }
}

} // verus!
