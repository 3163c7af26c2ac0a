//! Paths as text with `/` between the segments: the file name of a path, its
//! stem and its extension.
//!
//! The file name is the last segment, with slashes at the end, and segments
//! `.` that follow a slash there, passed over; a path that ends in `..`, and
//! the paths `.` and `/`, have no file name. The extension is what follows the
//! last dot of the file name, unless that dot is its first character; the
//! stem is what stands before that dot, or the whole name where there is no
//! extension.

use vstd::prelude::*;
use vstd::string::*;
use crate::text::{chars_of, string_of_range};

verus! {

/// Where the file name ends: `n` less the slashes, and the segments `.`
/// after a slash, that end `path[..n]`.
pub open spec fn spec_name_end(path: Seq<char>, n: nat) -> nat
    decreases n,
{
    if 0 < n <= path.len() && path[n - 1] == '/' {
        spec_name_end(path, (n - 1) as nat)
    } else if 1 < n <= path.len() && path[n - 1] == '.' && path[n - 2] == '/' {
        spec_name_end(path, (n - 2) as nat)
    } else {
        n
    }
}

/// Where the segment that ends at `n` begins.
pub open spec fn spec_name_start(path: Seq<char>, n: nat) -> nat
    decreases n,
{
    if 0 < n <= path.len() && path[n - 1] != '/' {
        spec_name_start(path, (n - 1) as nat)
    } else {
        n
    }
}

/// The last segment of `path`, what is passed over at the end aside. It may
/// be empty.
pub open spec fn spec_last_segment(path: Seq<char>) -> Seq<char> {
    let end = spec_name_end(path, path.len());
    path.subrange(spec_name_start(path, end) as int, end as int)
}

/// What stands before the last segment of `path`.
pub open spec fn spec_parent_prefix(path: Seq<char>) -> Seq<char> {
    path.subrange(0, spec_name_start(path, spec_name_end(path, path.len())) as int)
}

/// A segment names a file unless it is empty, `.` or `..`.
pub open spec fn spec_names_file(segment: Seq<char>) -> bool {
    segment.len() > 0 && segment != seq!['.'] && segment != seq!['.', '.']
}

/// The file name of `path`, if it has one.
pub open spec fn spec_file_name(path: Seq<char>) -> Option<Seq<char>> {
    let segment = spec_last_segment(path);
    if spec_names_file(segment) {
        Some(segment)
    } else {
        None
    }
}

/// The place of the last dot in `name[..n]`, if there is a dot.
pub open spec fn spec_last_dot(name: Seq<char>, n: nat) -> Option<nat>
    decreases n,
{
    if n == 0 || n > name.len() {
        None
    } else if name[n - 1] == '.' {
        Some((n - 1) as nat)
    } else {
        spec_last_dot(name, (n - 1) as nat)
    }
}

/// The place of the dot that parts stem and extension of the file name `name`.
pub open spec fn spec_split_dot(name: Seq<char>) -> Option<nat> {
    match spec_last_dot(name, name.len()) {
        Some(dot) => if dot > 0 {
            Some(dot)
        } else {
            None
        },
        None => None,
    }
}

/// The extension of the file name of `path`, without its dot.
pub open spec fn spec_extension(path: Seq<char>) -> Option<Seq<char>> {
    match spec_file_name(path) {
        Some(name) => match spec_split_dot(name) {
            Some(dot) => Some(name.subrange(dot as int + 1, name.len() as int)),
            None => None,
        },
        None => None,
    }
}

/// The file name of `path` without its extension.
pub open spec fn spec_file_stem(path: Seq<char>) -> Option<Seq<char>> {
    match spec_file_name(path) {
        Some(name) => match spec_split_dot(name) {
            Some(dot) => Some(name.subrange(0, dot as int)),
            None => Some(name),
        },
        None => None,
    }
}

/// The bounds of the last segment are in order, no slash lies between them,
/// one stands before it unless it opens the path, and only slashes and dots
/// follow.
pub proof fn lemma_segment_bounds(path: Seq<char>)
    ensures
        ({
            let end = spec_name_end(path, path.len());
            let start = spec_name_start(path, end);
            &&& start <= end <= path.len()
            &&& forall|k: int| end <= k < path.len() ==> path[k] == '/' || path[k] == '.'
            &&& forall|k: int| start <= k < end ==> path[k] != '/'
            &&& end > 0 ==> path[end - 1] != '/'
            &&& start > 0 ==> path[start - 1] == '/'
            &&& end > 0 ==> start < end
        }),
{
    lemma_name_end(path, path.len());
    lemma_name_start(path, spec_name_end(path, path.len()));
}

proof fn lemma_name_end(path: Seq<char>, n: nat)
    requires
        n <= path.len(),
    ensures
        spec_name_end(path, n) <= n,
        forall|k: int| spec_name_end(path, n) <= k < n ==> path[k] == '/' || path[k] == '.',
        spec_name_end(path, n) > 0 ==> path[spec_name_end(path, n) - 1] != '/',
    decreases n,
{
    if 0 < n && path[n - 1] == '/' {
        lemma_name_end(path, (n - 1) as nat);
    } else if 1 < n && path[n - 1] == '.' && path[n - 2] == '/' {
        lemma_name_end(path, (n - 2) as nat);
    }
}

proof fn lemma_name_start(path: Seq<char>, n: nat)
    requires
        n <= path.len(),
    ensures
        spec_name_start(path, n) <= n,
        forall|k: int| spec_name_start(path, n) <= k < n ==> path[k] != '/',
        spec_name_start(path, n) > 0 ==> path[spec_name_start(path, n) - 1] == '/',
        (n > 0 && path[n - 1] != '/') ==> spec_name_start(path, n) < n,
    decreases n,
{
    if 0 < n && path[n - 1] != '/' {
        lemma_name_start(path, (n - 1) as nat);
    }
}

/// The last dot of a name is a dot, and none follows it.
pub proof fn lemma_last_dot(name: Seq<char>, n: nat)
    requires
        n <= name.len(),
    ensures
        match spec_last_dot(name, n) {
            Some(dot) => {
                &&& dot < n
                &&& name[dot as int] == '.'
                &&& forall|k: int| dot < k < n ==> name[k] != '.'
            },
            None => forall|k: int| 0 <= k < n ==> name[k] != '.',
        },
    decreases n,
{
    if n > 0 && name[n - 1] != '.' {
        lemma_last_dot(name, (n - 1) as nat);
    }
}

/// A name without directory parts: it names a file, and holds no slash.
pub open spec fn spec_base_name(name: Seq<char>) -> bool {
    spec_names_file(name) && forall|i: int| 0 <= i < name.len() ==> name[i] != '/'
}

/// A name without directory parts is its own file name, and nothing stands
/// before it.
pub proof fn lemma_base_name_is_segment(name: Seq<char>)
    requires
        spec_base_name(name),
    ensures
        spec_last_segment(name) == name,
        spec_parent_prefix(name) == Seq::<char>::empty(),
        spec_file_name(name) == Some(name),
{
    lemma_no_slash_start(name, name.len());
    assert(spec_name_end(name, name.len()) == name.len());
    assert(name.subrange(0, name.len() as int) =~= name);
    assert(name.subrange(0, 0) =~= Seq::<char>::empty());
}

proof fn lemma_no_slash_start(path: Seq<char>, n: nat)
    requires
        n <= path.len(),
        forall|i: int| 0 <= i < path.len() ==> path[i] != '/',
    ensures
        spec_name_start(path, n) == 0,
    decreases n,
{
    if n > 0 {
        lemma_no_slash_start(path, (n - 1) as nat);
    }
}

/// Whether `name` is a name without directory parts.
pub fn is_base_name(name: &str) -> (plain: bool)
    ensures
        plain == spec_base_name(name@),
{
    let chars = chars_of(name);
    let len: usize = chars.len();
    let mut i: usize = 0;
    while i < len
        invariant
            i <= len,
            len == chars@.len(),
            chars@ == name@,
            forall|k: int| 0 <= k < i ==> chars@[k] != '/',
        decreases len - i,
    {
        if chars[i] == '/' {
            return false;
        }
        i += 1;
    }
    if len == 0 {
        false
    } else if len == 1 {
        assert(chars@ == seq!['.'] <==> chars@[0] == '.') by {
            if chars@[0] == '.' {
                assert(chars@ =~= seq!['.']);
            }
        }
        chars[0] != '.'
    } else if len == 2 {
        assert(chars@ == seq!['.', '.'] <==> (chars@[0] == '.' && chars@[1] == '.')) by {
            if chars@[0] == '.' && chars@[1] == '.' {
                assert(chars@ =~= seq!['.', '.']);
            }
        }
        !(chars[0] == '.' && chars[1] == '.')
    } else {
        true
    }
}

/// The places that part a path: its last segment is `chars[start..end]`, and
/// `dot` is the place, counted within the segment, of the dot before its
/// extension.
pub struct Parts {
    pub start: usize,
    pub end: usize,
    pub dot: Option<usize>,
}

impl Parts {
    /// The places are those of `path`.
    pub open spec fn of(&self, path: Seq<char>) -> bool {
        let segment = spec_last_segment(path);
        &&& self.end == spec_name_end(path, path.len())
        &&& self.start == spec_name_start(path, self.end as nat)
        &&& self.start <= self.end <= path.len()
        &&& match self.dot {
            Some(dot) => spec_split_dot(segment) == Some(dot as nat) && 0 < dot < segment.len(),
            None => spec_split_dot(segment) is None,
        }
    }
}

/// Finds the last segment of `chars` and the dot before its extension.
pub fn split_path(chars: &Vec<char>) -> (parts: Parts)
    ensures
        parts.of(chars@),
{
    let mut end: usize = chars.len();
    loop
        invariant_except_break
            spec_name_end(chars@, chars@.len()) == spec_name_end(chars@, end as nat),
        invariant
            end <= chars.len(),
        ensures
            end == spec_name_end(chars@, chars@.len()),
        decreases end,
    {
        if end > 0 && chars[end - 1] == '/' {
            end -= 1;
        } else if end > 1 && chars[end - 1] == '.' && chars[end - 2] == '/' {
            end -= 2;
        } else {
            break;
        }
    }
    let mut start: usize = end;
    while start > 0 && chars[start - 1] != '/'
        invariant
            start <= end <= chars.len(),
            spec_name_start(chars@, end as nat) == spec_name_start(chars@, start as nat),
        decreases start,
    {
        start -= 1;
    }
    let ghost segment = chars@.subrange(start as int, end as int);
    let mut n: usize = end - start;
    let mut dot: Option<usize> = None;
    while n > 0
        invariant_except_break
            dot is None,
            spec_last_dot(segment, segment.len()) == spec_last_dot(segment, n as nat),
        invariant
            start <= end <= chars.len(),
            n <= end - start,
            segment == chars@.subrange(start as int, end as int),
        ensures
            n <= end - start,
            match dot {
                Some(d) => d < end - start && spec_last_dot(segment, segment.len()) == Some(d as nat),
                None => spec_last_dot(segment, segment.len()) is None,
            },
        decreases n,
    {
        if chars[start + n - 1] == '.' {
            dot = Some(n - 1);
            break;
        }
        n -= 1;
    }
    let dot = match dot {
        Some(d) => if d > 0 {
            Some(d)
        } else {
            None
        },
        None => None,
    };
    Parts { start, end, dot }
}

/// Whether the last segment of `chars` names a file.
pub fn names_file(chars: &Vec<char>, parts: &Parts) -> (named: bool)
    requires
        parts.of(chars@),
    ensures
        named == spec_names_file(spec_last_segment(chars@)),
{
    let len = parts.end - parts.start;
    let ghost segment = spec_last_segment(chars@);
    if len == 0 {
        false
    } else if len == 1 {
        assert(segment == seq!['.'] <==> segment[0] == '.') by {
            if segment[0] == '.' {
                assert(segment =~= seq!['.']);
            }
        }
        chars[parts.start] != '.'
    } else if len == 2 {
        assert(segment == seq!['.', '.'] <==> (segment[0] == '.' && segment[1] == '.')) by {
            if segment[0] == '.' && segment[1] == '.' {
                assert(segment =~= seq!['.', '.']);
            }
        }
        !(chars[parts.start] == '.' && chars[parts.start + 1] == '.')
    } else {
        true
    }
}

/// The file name of `path`: its last segment, unless that is empty, `.` or
/// `..`.
pub fn file_name(path: &str) -> (name: Option<String>)
    ensures
        match name {
            Some(n) => spec_file_name(path@) == Some(n@),
            None => spec_file_name(path@) is None,
        },
{
    let chars = chars_of(path);
    let parts = split_path(&chars);
    if names_file(&chars, &parts) {
        Some(string_of_range(&chars, parts.start, parts.end))
    } else {
        None
    }
}

/// The extension of the file name of `path`, without its dot.
pub fn extension(path: &str) -> (ext: Option<String>)
    ensures
        match ext {
            Some(e) => spec_extension(path@) == Some(e@),
            None => spec_extension(path@) is None,
        },
{
    let chars = chars_of(path);
    let parts = split_path(&chars);
    if !names_file(&chars, &parts) {
        return None;
    }
    match parts.dot {
        Some(dot) => {
            let ghost name = spec_last_segment(chars@);
            let ext = string_of_range(&chars, parts.start + dot + 1, parts.end);
            assert(ext@ == name.subrange(dot + 1, name.len() as int));
            Some(ext)
        },
        None => None,
    }
}

/// The file name of `path` without its extension.
pub fn file_stem(path: &str) -> (stem: Option<String>)
    ensures
        match stem {
            Some(s) => spec_file_stem(path@) == Some(s@),
            None => spec_file_stem(path@) is None,
        },
{
    let chars = chars_of(path);
    let parts = split_path(&chars);
    if !names_file(&chars, &parts) {
        return None;
    }
    match parts.dot {
        Some(dot) => {
            let ghost name = spec_last_segment(chars@);
            let stem = string_of_range(&chars, parts.start, parts.start + dot);
            assert(stem@ == name.subrange(0, dot as int));
            Some(stem)
        },
        None => Some(string_of_range(&chars, parts.start, parts.end)),
    }
}

} // verus!
