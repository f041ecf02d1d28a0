//! Where a compiled program goes when no output path is given.

use vstd::prelude::*;
use crate::text::owned;

verus! {

/// The position of the dot at which the extension of a path begins, looking
/// from position `i` back: the last dot of the file name, unless the file
/// name begins with it.
pub open spec fn extension_dot(path: Seq<char>, i: int) -> Option<int>
    decreases i + 1,
{
    if i < 0 || i >= path.len() {
        None
    } else if path[i] == '/' {
        None
    } else if path[i] == '.' {
        if i == 0 || path[i - 1] == '/' {
            None
        } else {
            Some(i)
        }
    } else {
        extension_dot(path, i - 1)
    }
}

/// The path of the program file for a source file: the path of the source
/// file with its extension replaced by `.blc`, or with `.blc` added where it
/// has no extension.
pub open spec fn program_path(input: Seq<char>) -> Seq<char> {
    match extension_dot(input, input.len() - 1) {
        Some(i) => input.take(i) + ".blc"@,
        None => input + ".blc"@,
    }
}

/// The path of the program file for the source file `input`.
pub fn output_path(input: &str) -> (output: String)
    ensures
        output@ == program_path(input@),
{
    let count = input.unicode_len();
    let mut i: usize = count;
    while i > 0
        invariant
            i <= count,
            count == input@.len(),
            extension_dot(input@, count - 1) == extension_dot(input@, i - 1),
        decreases i,
    {
        let c = input.get_char(i - 1);
        if c == '/' {
            return owned(input).concat(".blc");
        }
        if c == '.' {
            if i - 1 == 0 || input.get_char(i - 2) == '/' {
                return owned(input).concat(".blc");
            }
            return owned(input.substring_char(0, i - 1)).concat(".blc");
        }
        i -= 1;
    }
    owned(input).concat(".blc")
}

} // verus!
