//! Which sources may be converted, and the conversion of one source.
use vstd::prelude::*;
use crate::pipeline::{RuleSet, document, render_document};
use crate::text::chars_of;

verus! {

/// Why a source could not be converted.
#[derive(Clone, Copy, Debug, PartialEq, Eq, Structural)]
pub enum ConversionError {
    /// The path names no existing file.
    NotFound,
    /// The file is hidden (its name starts with `.`), or the path has no
    /// usable file name.
    Unsupported,
    /// The file could not be read.
    IoError,
    /// The file's content is not text.
    EncodingError,
}

/// The last component of the path `p`, as `std::path::Path::file_name` gives it.
pub uninterp spec fn base_name_of(p: Seq<char>) -> Option<Seq<char>>;

/// Relies on `std::path::Path::file_name`: the final component of the path,
/// or none where the path ends in `..` or is a root or a prefix.
#[verifier::external_body]
fn base_name(path: &str) -> (r: Option<String>)
    ensures
        match r {
            Some(n) => base_name_of(path@) == Some(n@),
            None => base_name_of(path@) is None,
        },
{
    std::path::Path::new(path).file_name().map(|n| n.to_string_lossy().into_owned())
}

/// A hidden name: one that starts with `.`.
pub open spec fn is_hidden(name: Seq<char>) -> bool {
    name.len() > 0 && name[0] == '.'
}

/// Whether a source may be read: it must exist, and have a file name that
/// is not hidden. The checks are made in that order.
pub open spec fn admission(exists: bool, name: Option<Seq<char>>) -> Result<(), ConversionError> {
    if !exists {
        Err(ConversionError::NotFound)
    } else {
        match name {
            None => Err(ConversionError::Unsupported),
            Some(n) => if is_hidden(n) {
                Err(ConversionError::Unsupported)
            } else {
                Ok(())
            },
        }
    }
}

pub open spec fn opt_view(o: Option<&str>) -> Option<Seq<char>> {
    match o {
        Some(s) => Some(s@),
        None => None,
    }
}

/// Decides whether a source may be read, from whether it exists and from its
/// file name.
pub fn admit_source(exists: bool, name: Option<&str>) -> (r: Result<(), ConversionError>)
    ensures
        r == admission(exists, opt_view(name)),
{
    if !exists {
        return Err(ConversionError::NotFound);
    }
    match name {
        None => Err(ConversionError::Unsupported),
        Some(n) => {
            let v = chars_of(n);
            if v.len() > 0 && v[0] == '.' {
                Err(ConversionError::Unsupported)
            } else {
                Ok(())
            }
        },
    }
}

/// Decides whether the source at `in_file` may be read, given whether it exists.
pub fn check_source(in_file: &str, exists: bool) -> (r: Result<(), ConversionError>)
    ensures
        r == admission(exists, base_name_of(in_file@)),
{
    if !exists {
        return Err(ConversionError::NotFound);
    }
    let name = base_name(in_file);
    match name {
        Some(n) => admit_source(exists, Some(n.as_str())),
        None => admit_source(exists, None),
    }
}

/// Converts the source at `in_file` into an HTML document. `exists` tells
/// whether the path names an existing file, and `contents` what reading it
/// gave. The checks on the path come first; then a failed read is passed on;
/// otherwise the text is converted.
pub fn parse_file(
    in_file: &str,
    exists: bool,
    contents: Result<String, ConversionError>,
    rules: &RuleSet,
) -> (r: Result<String, ConversionError>)
    requires
        rules.wf(),
    ensures
        match admission(exists, base_name_of(in_file@)) {
            Err(e) => r == Err::<String, ConversionError>(e),
            Ok(_) => match contents {
                Err(e) => r == Err::<String, ConversionError>(e),
                Ok(t) => r is Ok && r->Ok_0@ == document(rules@, t@),
            },
        },
{
    match check_source(in_file, exists) {
        Err(e) => Err(e),
        Ok(()) => match contents {
            Err(e) => Err(e),
            Ok(t) => Ok(render_document(t.as_str(), rules)),
        },
    }
}

/// An outcome that makes a batch run fail: any error but a skipped source.
pub open spec fn is_failure(o: Result<(), ConversionError>) -> bool {
    match o {
        Ok(_) => false,
        Err(e) => e != ConversionError::Unsupported,
    }
}

/// Whether a batch run with these per-file outcomes ends in failure: it does
/// where some source could not be converted for another reason than being
/// hidden or having no usable name.
pub fn batch_failed(outcomes: &Vec<Result<(), ConversionError>>) -> (r: bool)
    ensures
        r == exists|i: int| 0 <= i < outcomes@.len() && is_failure(#[trigger] outcomes@[i]),
{
    let n = outcomes.len();
    let mut i: usize = 0;
    while i < n
        invariant
            n == outcomes@.len(),
            i <= n,
            forall|j: int| 0 <= j < i ==> !is_failure(#[trigger] outcomes@[j]),
        decreases n - i,
    {
        match outcomes[i] {
            Ok(_) => {},
            Err(e) => {
                if e != ConversionError::Unsupported {
                    assert(is_failure(outcomes@[i as int]));
                    return true;
                }
            },
        }
        i += 1;
    }
    false
}

} // verus!
