//! Where a subset font is written.
use vstd::prelude::*;
use vstd::string::*;

verus! {

/// Why no output path could be resolved.
#[derive(Debug, Clone, Copy, PartialEq, Eq, Structural)]
pub enum PathError {
    /// The input path has no file name to derive from.
    NoFileName,
    /// The input file name has no extension.
    NoExtension,
    /// An explicit output path does not name an existing file.
    NotAFile,
}

impl PathError {
    /// A message for the user.
    pub fn message(&self) -> (r: &'static str)
        ensures
            r@ == (match self {
                PathError::NoFileName => "Input path has no file name"@,
                PathError::NoExtension => "Input file name has no extension"@,
                PathError::NotAFile => "Output path is not a file"@,
            }),
    {
        match self {
            PathError::NoFileName => "Input path has no file name",
            PathError::NoExtension => "Input file name has no extension",
            PathError::NotAFile => "Output path is not a file",
        }
    }
}

/// The index of the last occurrence of `c` in `s`, or -1.
pub open spec fn last_index_of(s: Seq<char>, c: char) -> int
    decreases s.len(),
{
    if s.len() == 0 {
        -1
    } else if s.last() == c {
        s.len() - 1
    } else {
        last_index_of(s.drop_last(), c)
    }
}

/// The text put between the stem and the extension of a derived path.
pub open spec fn subset_mark() -> Seq<char> {
    seq!['-', 's', 'u', 'b', 's', 'e', 't', '.']
}

/// The file name of a path: what follows its last `/`.
pub open spec fn file_name_of(p: Seq<char>) -> Seq<char> {
    p.subrange(last_index_of(p, '/') + 1, p.len() as int)
}

/// The output path derived from input path `p`, or why there is none: in
/// the same directory, the file name's stem, then `-subset.`, then its
/// extension. The extension follows the name's last `.`, which must not be
/// its first character.
pub open spec fn derived_path(p: Seq<char>) -> Result<Seq<char>, PathError> {
    let dir_len = last_index_of(p, '/') + 1;
    let name = file_name_of(p);
    let dot = last_index_of(name, '.');
    if name.len() == 0 || name == seq!['.', '.'] {
        Err(PathError::NoFileName)
    } else if dot <= 0 {
        Err(PathError::NoExtension)
    } else {
        Ok(p.subrange(0, dir_len + dot) + subset_mark() + name.subrange(dot + 1, name.len() as int))
    }
}

/// The output path of a subset request: the explicit one when given, which
/// must name an existing file, else the one derived from the input path.
pub open spec fn resolved_path(input: Seq<char>, output: Option<Seq<char>>, output_is_file: bool) -> Result<
    Seq<char>,
    PathError,
> {
    match output {
        Some(o) => if output_is_file {
            Ok(o)
        } else {
            Err(PathError::NotAFile)
        },
        None => derived_path(input),
    }
}

/// The view of a path result: the path's characters, or the error.
pub open spec fn path_result(r: Result<String, PathError>) -> Result<Seq<char>, PathError> {
    match r {
        Ok(p) => Ok(p@),
        Err(e) => Err(e),
    }
}

proof fn lemma_last_index(s: Seq<char>, c: char, k: int)
    requires
        -1 <= k < s.len(),
        k >= 0 ==> s[k] == c,
        forall|i: int| k < i < s.len() ==> s[i] != c,
    ensures
        last_index_of(s, c) == k,
    decreases s.len(),
{
    if s.len() > 0 && s.last() != c {
        lemma_last_index(s.drop_last(), c, k);
    }
}

/// Index of the last `c` in `s`, or `None`.
fn find_last(s: &str, c: char) -> (r: Option<usize>)
    ensures
        last_index_of(s@, c) == (match r {
            Some(k) => k as int,
            None => -1,
        }),
        r matches Some(k) ==> k < s@.len(),
{
    let n = s.unicode_len();
    let mut i: usize = n;
    while i > 0
        invariant
            i <= n == s@.len(),
            forall|j: int| i <= j < n ==> s@[j] != c,
        decreases i,
    {
        if s.get_char(i - 1) == c {
            proof {
                lemma_last_index(s@, c, i - 1);
            }
            return Some(i - 1);
        }
        i = i - 1;
    }
    proof {
        lemma_last_index(s@, c, -1);
    }
    None
}

/// The output path for input path `file` when none is given.
pub fn derive_output_path(file: &str) -> (r: Result<String, PathError>)
    ensures
        path_result(r) == derived_path(file@),
{
    let n = file.unicode_len();
    let dir_len: usize = match find_last(file, '/') {
        Some(k) => k + 1,
        None => 0,
    };
    let name = file.substring_char(dir_len, n);
    assert(name@ == file_name_of(file@));
    let nl = name.unicode_len();
    if nl == 0 || (nl == 2 && name.get_char(0) == '.' && name.get_char(1) == '.') {
        proof {
            if nl == 2 {
                assert(name@ =~= seq!['.', '.']);
            }
        }
        return Err(PathError::NoFileName);
    }
    proof {
        if name@ == seq!['.', '.'] {
            assert(name@[0] == '.' && name@[1] == '.');
        }
    }
    let dot = match find_last(name, '.') {
        Some(d) => d,
        None => {
            return Err(PathError::NoExtension);
        },
    };
    if dot == 0 {
        return Err(PathError::NoExtension);
    }
    let mut out = String::from_str(file.substring_char(0, dir_len + dot));
    out.append("-subset.");
    out.append(name.substring_char(dot + 1, nl));
    proof {
        reveal_strlit("-subset.");
        assert(out@ =~= file@.subrange(0, dir_len + dot) + subset_mark() + name@.subrange(
            dot + 1,
            nl as int,
        ));
    }
    Ok(out)
}

/// The path a subset font is written to: `output` when given, provided that
/// `output_is_file` reports it names an existing file; else the path derived
/// from `file`.
pub fn resolve_output_path(file: &str, output: Option<&str>, output_is_file: bool) -> (r: Result<
    String,
    PathError,
>)
    ensures
        path_result(r) == resolved_path(
            file@,
            match output {
                Some(o) => Some(o@),
                None => None,
            },
            output_is_file,
        ),
{
    match output {
        Some(o) => {
            if output_is_file {
                Ok(String::from_str(o))
            } else {
                Err(PathError::NotAFile)
            }
        },
        None => derive_output_path(file),
    }
}

} // verus!
