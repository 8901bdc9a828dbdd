//! Source files: which paths name one.

use vstd::prelude::*;
use vstd::std_specs::iter::IteratorSpec;

use crate::text::push_text;

verus! {

/// The error for a path whose file extension is not `.id`.
#[derive(Debug, PartialEq, Eq)]
pub struct FileExtensionError {
    pub path: String,
}

impl FileExtensionError {
    /// The message of the error.
    pub fn to_string(&self) -> (text: String)
        ensures
            text@ == self.path@ + "'s file extension is not `.id`"@,
    {
        let mut text = self.path.clone();
        push_text(&mut text, "'s file extension is not `.id`");
        text
    }
}

/// Whether a path names a source file: whether it ends in `.id`.
pub open spec fn is_source_path(path: Seq<char>) -> bool {
    path.len() >= 3 && path[path.len() - 3] == '.' && path[path.len() - 2] == 'i' && path[path.len()
        - 1] == 'd'
}

/// Accepts the path of a source file and refuses any other path.
pub fn check_extension(path: &str) -> (result: Result<(), FileExtensionError>)
    ensures
        match result {
            Ok(()) => is_source_path(path@),
            Err(error) => !is_source_path(path@) && error.path@ == path@,
        },
{
    broadcast use vstd::string::group_string_axioms;

    let mut chars = path.chars();
    let ghost mut done: Seq<char> = Seq::empty();
    let mut first: Option<char> = None;
    let mut second: Option<char> = None;
    let mut third: Option<char> = None;
    loop
        invariant
            path@ == done + chars.remaining(),
            chars.obeys_prophetic_iter_laws(),
            chars.decrease() is Some,
            third == if done.len() >= 1 {
                Some(done[done.len() - 1])
            } else {
                None
            },
            second == if done.len() >= 2 {
                Some(done[done.len() - 2])
            } else {
                None
            },
            first == if done.len() >= 3 {
                Some(done[done.len() - 3])
            } else {
                None
            },
        decreases chars.decrease()->0,
    {
        match chars.next() {
            None => {
                assert(path@ =~= done);
                let accepted = match (first, second, third) {
                    (Some(a), Some(b), Some(c)) => a == '.' && b == 'i' && c == 'd',
                    _ => false,
                };
                if accepted {
                    return Ok(());
                } else {
                    return Err(FileExtensionError { path: path.to_owned() });
                }
            },
            Some(c) => {
                proof {
                    assert(path@ =~= done.push(c) + chars.remaining());
                    done = done.push(c);
                }
                first = second;
                second = third;
                third = Some(c);
            },
        }
    }
}

} // verus!
