//! The path that tells a physical device: that of its descriptor under
//! `/sys/block`.

use crate::chars::{chars_of, substring};
use crate::record::Fault;
use vstd::prelude::*;

verus! {

/// The character that stands for `c` in a file name: `!` for a slash, which
/// a file name cannot hold, and `c` itself otherwise.
pub open spec fn file_name_char(c: char) -> char {
    if c == '/' {
        '!'
    } else {
        c
    }
}

/// The path of the file whose presence tells that the device called `name`
/// is a physical one.
pub open spec fn descriptor_of(name: Seq<char>) -> Seq<char> {
    "/sys/block/"@ + name.map_values(|c: char| file_name_char(c)) + "/device"@
}

/// Whether a path can be made for `name`: it can unless the name holds a NUL
/// character.
pub open spec fn is_nameable(name: Seq<char>) -> bool {
    forall|i: int| 0 <= i < name.len() ==> #[trigger] name[i] != '\0'
}

/// Builds the path of the descriptor of the device called `name`.
pub fn descriptor_path(name: &str) -> (r: Result<String, Fault>)
    ensures
        match r {
            Ok(path) => is_nameable(name@) && path@ == descriptor_of(name@),
            Err(fault) => !is_nameable(name@) && fault == Fault::DeviceName,
        },
{
    let text = chars_of(name);
    let ascii = name.is_ascii();
    let n: usize = text.len();
    let mut path = String::from_str("/sys/block/");
    let mut start: usize = 0;
    let mut i: usize = 0;
    while i < n
        invariant
            text@ == name@,
            ascii ==> name.is_ascii(),
            n == text.len(),
            start <= i <= n,
            forall|j: int| 0 <= j < i ==> #[trigger] text[j] != '\0',
            forall|j: int| start <= j < i ==> #[trigger] text[j] != '/',
            path@ == "/sys/block/"@ + text@.take(start as int).map_values(
                |c: char| file_name_char(c),
            ),
        decreases n - i,
    {
        let c: char = text[i];
        if c == '\0' {
            return Err(Fault::DeviceName);
        }
        if c == '/' {
            path.append(substring(name, ascii, start, i));
            path.append("!");
            proof {
                reveal_strlit("!");
            }
            start = i + 1;
        }
        i += 1;
    }
    path.append(substring(name, ascii, start, n));
    path.append("/device");
    Ok(path)
}

/// In the descriptor of a device the name stands between `/sys/block/` and
/// `/device`, with `!` in the place of each slash and every other character
/// as it is.
pub proof fn lemma_descriptor_shape(name: Seq<char>)
    ensures
        descriptor_of(name).len() == name.len() + 18,
        descriptor_of(name).take(11) == "/sys/block/"@,
        descriptor_of(name).skip(11 + name.len() as int) == "/device"@,
        forall|i: int|
            0 <= i < name.len() ==> #[trigger] descriptor_of(name)[11 + i] == (if name[i] == '/' {
                '!'
            } else {
                name[i]
            }),
{
    reveal_strlit("/sys/block/");
    reveal_strlit("/device");
}

} // verus!
