//! Names that do not collide: a path that is taken already gives way to
//! `stem (2).ext`, `stem (3).ext` and so on, up to the first that is free.
//!
//! What is taken is handed in as a list of paths, so that the files on disk
//! and the names that downloads in flight have claimed can be checked in one
//! place. [`ClaimedNames`] keeps such a list: it adds every path it hands
//! out, and every path that the caller tells it to have seen in use since.

use vstd::prelude::*;
use vstd::string::*;
use vstd::relations::injective_on;
use vstd::seq_lib::seq_to_set_is_finite;
use vstd::set_lib::{lemma_int_range, lemma_len_subset, lemma_map_size, set_int_range};
use crate::path::{lemma_base_name_is_segment, lemma_last_dot, names_file, split_path,
    spec_base_name, spec_extension, spec_file_stem, spec_last_dot, spec_last_segment,
    spec_parent_prefix};
use crate::text::{chars_of, lemma_decimal_digits, lemma_decimal_injective, lemma_decimal_len,
    push_decimal, spec_decimal, spec_is_digit, spec_texts, string_of};

verus! {

/// Why a path that is taken has no numbered alternative.
#[derive(Clone, Copy, Debug, PartialEq, Eq, Structural)]
pub enum PathError {
    /// The path has no file name.
    NoFileStem,
    /// The file name has no extension.
    NoExtension,
}

impl PathError {
    pub open spec fn spec_message(self) -> Seq<char> {
        match self {
            PathError::NoFileStem => "Could not get filename from path."@,
            PathError::NoExtension => "Could not get extension from path."@,
        }
    }

    /// The sentence that reports the error.
    pub fn message(&self) -> (text: &'static str)
        ensures
            text@ == self.spec_message(),
    {
        match self {
            PathError::NoFileStem => "Could not get filename from path.",
            PathError::NoExtension => "Could not get extension from path.",
        }
    }
}

/// What stands before the number of a numbered alternative of `path`.
pub open spec fn spec_numbered_head(path: Seq<char>, stem: Seq<char>) -> Seq<char> {
    spec_parent_prefix(path) + stem + seq![' ', '(']
}

/// What follows the number.
pub open spec fn spec_numbered_tail(ext: Seq<char>) -> Seq<char> {
    seq![')', '.'] + ext
}

/// The alternative of `path` with the number `i`: `stem (i).ext` in the
/// place of the file name.
pub open spec fn spec_numbered(path: Seq<char>, stem: Seq<char>, ext: Seq<char>, i: nat) -> Seq<
    char,
> {
    spec_numbered_head(path, stem) + spec_decimal(i) + spec_numbered_tail(ext)
}

/// The first number from `i` on whose alternative is free. The search ends
/// at the latest two past the number of taken paths.
pub open spec fn spec_first_free_from(
    path: Seq<char>,
    stem: Seq<char>,
    ext: Seq<char>,
    taken: Seq<Seq<char>>,
    i: nat,
) -> nat
    decreases taken.len() + 2 - i,
{
    if i >= taken.len() + 2 || !taken.contains(spec_numbered(path, stem, ext, i)) {
        i
    } else {
        spec_first_free_from(path, stem, ext, taken, i + 1)
    }
}

/// The path under which a file is stored when it is meant for `path` and the
/// paths `taken` are in use: `path` itself if it is free, else its first free
/// alternative, numbered from 2.
pub open spec fn spec_ensure_path(path: Seq<char>, taken: Seq<Seq<char>>) -> Result<
    Seq<char>,
    PathError,
> {
    if !taken.contains(path) {
        Ok(path)
    } else {
        match spec_file_stem(path) {
            None => Err(PathError::NoFileStem),
            Some(stem) => match spec_extension(path) {
                None => Err(PathError::NoExtension),
                Some(ext) => Ok(
                    spec_numbered(path, stem, ext, spec_first_free_from(path, stem, ext, taken, 2)),
                ),
            },
        }
    }
}

/// Alternatives with different numbers differ.
pub proof fn lemma_numbered_injective(
    path: Seq<char>,
    stem: Seq<char>,
    ext: Seq<char>,
    a: nat,
    b: nat,
)
    requires
        spec_numbered(path, stem, ext, a) == spec_numbered(path, stem, ext, b),
    ensures
        a == b,
{
    let head = spec_numbered_head(path, stem);
    let tail = spec_numbered_tail(ext);
    let na = spec_numbered(path, stem, ext, a);
    let nb = spec_numbered(path, stem, ext, b);
    let da = spec_decimal(a);
    let db = spec_decimal(b);
    assert(na.len() == head.len() + da.len() + tail.len());
    assert(nb.len() == head.len() + db.len() + tail.len());
    assert(da =~= na.subrange(head.len() as int, (head.len() + da.len()) as int));
    assert(db =~= nb.subrange(head.len() as int, (head.len() + db.len()) as int));
    lemma_decimal_injective(a, b);
}

/// If every alternative with a number from 2 up to `i`, `i` left out, is
/// taken, then at least `i - 2` paths are taken.
pub proof fn lemma_numbered_run_out(
    path: Seq<char>,
    stem: Seq<char>,
    ext: Seq<char>,
    taken: Seq<Seq<char>>,
    i: nat,
)
    requires
        i >= 2,
        forall|j: nat| 2 <= j < i ==> taken.contains(#[trigger] spec_numbered(path, stem, ext, j)),
    ensures
        i - 2 <= taken.len(),
{
    let f = |j: int| spec_numbered(path, stem, ext, j as nat);
    let numbers = set_int_range(2, i as int);
    lemma_int_range(2, i as int);
    let names = numbers.map(f);
    assert(injective_on(f, numbers)) by {
        assert forall|a: int, b: int|
            numbers.contains(a) && numbers.contains(b) && #[trigger] f(a) == #[trigger] f(
                b,
            ) implies a == b by {
            lemma_numbered_injective(path, stem, ext, a as nat, b as nat);
        }
    }
    lemma_map_size(numbers, names, f);
    assert(names.subset_of(taken.to_set())) by {
        assert forall|name: Seq<char>| names.contains(name) implies taken.to_set().contains(
            name,
        ) by {
            let j = choose|j: int| numbers.contains(j) && f(j) == name;
            assert(taken.contains(spec_numbered(path, stem, ext, j as nat)));
        }
    }
    seq_to_set_is_finite(taken);
    lemma_len_subset(names, taken.to_set());
    taken.lemma_cardinality_of_set();
}

/// The number that [`spec_first_free_from`] finds, searching from 2, is that
/// of a free alternative, and every alternative with a smaller number is
/// taken.
pub proof fn lemma_first_free(
    path: Seq<char>,
    stem: Seq<char>,
    ext: Seq<char>,
    taken: Seq<Seq<char>>,
)
    ensures
        ({
            let first = spec_first_free_from(path, stem, ext, taken, 2);
            &&& 2 <= first <= taken.len() + 2
            &&& !taken.contains(spec_numbered(path, stem, ext, first))
            &&& forall|j: nat|
                2 <= j < first ==> taken.contains(#[trigger] spec_numbered(path, stem, ext, j))
        }),
{
    lemma_first_free_from(path, stem, ext, taken, 2);
}

proof fn lemma_first_free_from(
    path: Seq<char>,
    stem: Seq<char>,
    ext: Seq<char>,
    taken: Seq<Seq<char>>,
    i: nat,
)
    requires
        2 <= i <= taken.len() + 2,
        forall|j: nat| 2 <= j < i ==> taken.contains(#[trigger] spec_numbered(path, stem, ext, j)),
    ensures
        ({
            let first = spec_first_free_from(path, stem, ext, taken, i);
            &&& i <= first <= taken.len() + 2
            &&& !taken.contains(spec_numbered(path, stem, ext, first))
            &&& forall|j: nat|
                2 <= j < first ==> taken.contains(#[trigger] spec_numbered(path, stem, ext, j))
        }),
    decreases taken.len() + 2 - i,
{
    if taken.contains(spec_numbered(path, stem, ext, i)) {
        lemma_numbered_run_out(path, stem, ext, taken, i + 1);
        lemma_first_free_from(path, stem, ext, taken, i + 1);
    }
}

/// The path that is handed out is never one that is taken.
pub proof fn lemma_ensured_path_is_free(path: Seq<char>, taken: Seq<Seq<char>>)
    ensures
        spec_ensure_path(path, taken) matches Ok(free) ==> !taken.contains(free),
{
    if taken.contains(path) && spec_file_stem(path) is Some && spec_extension(path) is Some {
        lemma_first_free(path, spec_file_stem(path)->0, spec_extension(path)->0, taken);
    }
}

/// For a name without directory parts, the path that is handed out has none
/// either: it lies in the same folder.
pub proof fn lemma_ensured_base_name(name: Seq<char>, taken: Seq<Seq<char>>)
    requires
        spec_base_name(name),
    ensures
        spec_ensure_path(name, taken) matches Ok(free) ==> spec_base_name(free),
{
    if let Ok(free) = spec_ensure_path(name, taken) {
        if taken.contains(name) {
            lemma_base_name_is_segment(name);
            let stem = spec_file_stem(name)->0;
            let ext = spec_extension(name)->0;
            let i = spec_first_free_from(name, stem, ext, taken, 2);
            let digits = spec_decimal(i);
            let head = spec_numbered_head(name, stem);
            let tail = spec_numbered_tail(ext);
            lemma_decimal_digits(i);
            lemma_decimal_len(i);
            lemma_last_dot(name, name.len());
            let dot = spec_last_dot(name, name.len())->0 as int;
            assert(stem == name.subrange(0, dot));
            assert(ext == name.subrange(dot + 1, name.len() as int));
            assert(head =~= stem + seq![' ', '(']);
            assert(free == head + digits + tail);
            assert forall|k: int| 0 <= k < free.len() implies free[k] != '/' by {
                if k < stem.len() {
                    assert(free[k] == name[k]);
                } else if k < head.len() {
                } else if k < head.len() + digits.len() {
                    assert(free[k] == digits[k - head.len()]);
                    assert(spec_is_digit(digits[k - head.len()]));
                } else if k < head.len() + digits.len() + 2 {
                } else {
                    let e = k - head.len() - digits.len() - 2;
                    assert(free[k] == ext[e]);
                    assert(ext[e] == name[dot + 1 + e]);
                }
            }
            assert(free.len() >= 5);
        }
    }
}

/// A path that is taken, with a stem and an extension, gives way to the
/// alternative numbered 2 if that is free, and to the one numbered 3 if only
/// that of 2 is taken as well.
pub proof fn lemma_first_alternatives(path: Seq<char>, taken: Seq<Seq<char>>)
    requires
        taken.contains(path),
        spec_file_stem(path) is Some,
        spec_extension(path) is Some,
    ensures
        ({
            let stem = spec_file_stem(path)->0;
            let ext = spec_extension(path)->0;
            let second = spec_numbered(path, stem, ext, 2);
            let third = spec_numbered(path, stem, ext, 3);
            &&& !taken.contains(second) ==> spec_ensure_path(path, taken) == Ok::<
                Seq<char>,
                PathError,
            >(second)
            &&& taken.contains(second) && !taken.contains(third) ==> spec_ensure_path(path, taken)
                == Ok::<Seq<char>, PathError>(third)
        }),
{
    let stem = spec_file_stem(path)->0;
    let ext = spec_extension(path)->0;
    lemma_first_free(path, stem, ext, taken);
    let first = spec_first_free_from(path, stem, ext, taken, 2);
    if !taken.contains(spec_numbered(path, stem, ext, 2)) {
        assert(first == 2);
    } else if !taken.contains(spec_numbered(path, stem, ext, 3)) {
        assert(first == 3);
    }
}

/// Appends `source[from..to]` to `out`.
fn push_range(out: &mut Vec<char>, source: &Vec<char>, from: usize, to: usize)
    requires
        from <= to <= source.len(),
    ensures
        final(out)@ == old(out)@ + source@.subrange(from as int, to as int),
{
    let mut i: usize = from;
    while i < to
        invariant
            from <= i <= to <= source.len(),
            out@ == old(out)@ + source@.subrange(from as int, i as int),
        decreases to - i,
    {
        out.push(source[i]);
        i += 1;
    }
}

/// Whether `path` is among `taken`.
pub fn is_taken(taken: &Vec<String>, path: &String) -> (found: bool)
    ensures
        found == spec_texts(taken@).contains(path@),
{
    let mut i: usize = 0;
    while i < taken.len()
        invariant
            i <= taken.len(),
            forall|k: int| 0 <= k < i ==> spec_texts(taken@)[k] != path@,
        decreases taken.len() - i,
    {
        if taken[i] == *path {
            assert(spec_texts(taken@)[i as int] == path@);
            return true;
        }
        i += 1;
    }
    false
}

/// Chooses the path under which a file is stored: `path` if it is not among
/// `taken`, else the first of `stem (2).ext`, `stem (3).ext`, ... in the
/// place of its file name that is not among them. A path that is taken and
/// has no stem or no extension is an error.
pub fn ensure_path(path: &str, taken: &Vec<String>) -> (free: Result<String, PathError>)
    ensures
        match free {
            Ok(p) => spec_ensure_path(path@, spec_texts(taken@)) == Ok::<Seq<char>, PathError>(p@),
            Err(e) => spec_ensure_path(path@, spec_texts(taken@)) == Err::<Seq<char>, PathError>(e),
        },
        free matches Ok(p) ==> !spec_texts(taken@).contains(p@),
{
    let ghost names = spec_texts(taken@);
    proof {
        lemma_ensured_path_is_free(path@, names);
    }
    let whole = path.to_owned();
    if !is_taken(taken, &whole) {
        return Ok(whole);
    }
    let chars = chars_of(path);
    let parts = split_path(&chars);
    let ghost segment = spec_last_segment(chars@);
    let named = names_file(&chars, &parts);
    if !named {
        return Err(PathError::NoFileStem);
    }
    let dot = match parts.dot {
        Some(dot) => dot,
        None => {
            return Err(PathError::NoExtension);
        },
    };
    let ghost stem = segment.subrange(0, dot as int);
    let ghost ext = segment.subrange(dot + 1, segment.len() as int);
    assert(spec_file_stem(path@) == Some(stem));
    assert(spec_extension(path@) == Some(ext));
    let mut i: u128 = 2;
    loop
        invariant
            2 <= i <= taken.len() + 2,
            names == spec_texts(taken@),
            chars@ == path@,
            parts.of(chars@),
            parts.dot == Some(dot),
            segment == spec_last_segment(chars@),
            stem == segment.subrange(0, dot as int),
            ext == segment.subrange(dot + 1, segment.len() as int),
            spec_file_stem(path@) == Some(stem),
            spec_extension(path@) == Some(ext),
            names.contains(path@),
            forall|j: nat|
                2 <= j < i ==> names.contains(#[trigger] spec_numbered(path@, stem, ext, j)),
            spec_first_free_from(path@, stem, ext, names, 2) == spec_first_free_from(
                path@,
                stem,
                ext,
                names,
                i as nat,
            ),
        decreases taken.len() + 2 - i,
    {
        let mut candidate: Vec<char> = Vec::new();
        push_range(&mut candidate, &chars, 0, parts.start + dot);
        candidate.push(' ');
        candidate.push('(');
        push_decimal(&mut candidate, i);
        candidate.push(')');
        candidate.push('.');
        push_range(&mut candidate, &chars, parts.start + dot + 1, parts.end);
        proof {
            let head = spec_numbered_head(path@, stem);
            let tail = spec_numbered_tail(ext);
            assert(chars@.subrange(0, parts.start + dot) =~= spec_parent_prefix(path@) + stem);
            assert(chars@.subrange(parts.start + dot + 1, parts.end as int) =~= ext);
            assert(candidate@ =~= head + spec_decimal(i as nat) + tail);
        }
        let numbered = string_of(&candidate);
        if !is_taken(taken, &numbered) {
            return Ok(numbered);
        }
        proof {
            lemma_numbered_run_out(path@, stem, ext, names, (i + 1) as nat);
        }
        i += 1;
    }
}

/// The paths that are in use in one folder: those that were there at the
/// start, those seen there since, and every path handed out.
pub struct ClaimedNames {
    names: Vec<String>,
}

impl View for ClaimedNames {
    type V = Seq<Seq<char>>;

    closed spec fn view(&self) -> Seq<Seq<char>> {
        spec_texts(self.names@)
    }
}

impl ClaimedNames {
    /// Starts with the paths `existing`.
    pub fn new(existing: Vec<String>) -> (claimed: Self)
        ensures
            claimed@ == spec_texts(existing@),
    {
        ClaimedNames { names: existing }
    }

    /// Whether `path` is in use.
    pub fn contains(&self, path: &str) -> (found: bool)
        ensures
            found == self@.contains(path@),
    {
        let whole = path.to_owned();
        is_taken(&self.names, &whole)
    }

    /// Takes note of a path that was seen in use, on disk or elsewhere: it is
    /// added unless it is there already.
    pub fn observe(&mut self, path: &str)
        ensures
            final(self)@ == if old(self)@.contains(path@) {
                old(self)@
            } else {
                old(self)@.push(path@)
            },
    {
        let whole = path.to_owned();
        if !is_taken(&self.names, &whole) {
            let ghost before = self.names@;
            self.names.push(whole);
            assert(spec_texts(self.names@) =~= spec_texts(before).push(path@));
        }
    }

    /// Hands out the path for a file meant for `path`, as [`ensure_path`]
    /// chooses it, and keeps it as taken. On an error nothing changes.
    pub fn claim(&mut self, path: &str) -> (free: Result<String, PathError>)
        ensures
            match free {
                Ok(p) => {
                    &&& spec_ensure_path(path@, old(self)@) == Ok::<Seq<char>, PathError>(p@)
                    &&& !old(self)@.contains(p@)
                    &&& final(self)@ == old(self)@.push(p@)
                },
                Err(e) => {
                    &&& spec_ensure_path(path@, old(self)@) == Err::<Seq<char>, PathError>(e)
                    &&& final(self)@ == old(self)@
                },
            },
    {
        match ensure_path(path, &self.names) {
            Ok(free) => {
                let ghost before = self.names@;
                self.names.push(free.clone());
                assert(spec_texts(self.names@) =~= spec_texts(before).push(free@));
                Ok(free)
            },
            Err(e) => Err(e),
        }
    }
}

/// Two files never get the same path: what is handed out second, with the
/// first path kept as taken, differs from the first.
pub proof fn lemma_claims_differ(taken: Seq<Seq<char>>, first: Seq<char>, second: Seq<char>)
    ensures
        spec_ensure_path(first, taken) matches Ok(a) ==> (spec_ensure_path(second, taken.push(a))
            matches Ok(b) ==> a != b),
{
    if let Ok(a) = spec_ensure_path(first, taken) {
        lemma_ensured_path_is_free(second, taken.push(a));
        assert(taken.push(a)[taken.len() as int] == a);
    }
}

} // verus!
