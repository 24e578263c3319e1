//! Name tables: display strings indexed by identity, one per line of a text.

use vstd::prelude::*;
use vstd::string::StrSliceExecFns;
use crate::error::MergeError;

verus! {

/// The lines joined again, with one line feed between neighbours.
pub open spec fn join_lines(lines: Seq<Seq<char>>) -> Seq<char>
    decreases lines.len(),
{
    if lines.len() == 0 {
        Seq::empty()
    } else if lines.len() == 1 {
        lines[0]
    } else {
        join_lines(lines.drop_last()) + seq!['\n'] + lines.last()
    }
}

/// The characters of each entry of a name table.
pub open spec fn line_views(lines: Seq<&str>) -> Seq<Seq<char>> {
    Seq::new(lines.len(), |k: int| lines[k]@)
}

/// Cuts a text into its lines.
///
/// The text is cut at every line feed. The pieces come in the order of the
/// text, none of them holds a line feed, and joining them with line feeds
/// gives the text back. A text without a line feed, the empty one included,
/// is a single line, and a text that ends in a line feed has an empty last
/// line.
pub fn name_list(input: &'static str) -> (names: Vec<&'static str>)
    ensures
        names@.len() >= 1,
        forall|k: int| 0 <= k < names@.len() ==> !(#[trigger] names@[k]@).contains('\n'),
        join_lines(line_views(names@)) == input@,
{
    let n = input.unicode_len();
    let mut names: Vec<&'static str> = Vec::new();
    let mut start: usize = 0;
    let mut i: usize = 0;
    for c in it: input.chars()
        invariant
            n == input@.len(),
            it.seq() == input@,
            i == it.index(),
            start <= i <= n,
            forall|k: int| start <= k < i ==> input@[k] != '\n',
            forall|k: int| 0 <= k < names@.len() ==> !(#[trigger] names@[k]@).contains('\n'),
            names@.len() == 0 ==> start == 0,
            names@.len() > 0 ==> join_lines(line_views(names@)) + seq!['\n'] == input@.subrange(
                0,
                start as int,
            ),
    {
        if c == '\n' {
            let line = input.substring_char(start, i);
            proof {
                let before = line_views(names@);
                let after = line_views(names@.push(line));
                assert(after.drop_last() == before);
                assert(after.last() == line@);
                assert(join_lines(after) + seq!['\n'] == input@.subrange(0, i + 1));
            }
            names.push(line);
            start = i + 1;
        }
        i += 1;
    }
    let line = input.substring_char(start, n);
    proof {
        let before = line_views(names@);
        let after = line_views(names@.push(line));
        assert(after.drop_last() == before);
        assert(after.last() == line@);
        assert(input@.subrange(0, n as int) == input@);
        assert(join_lines(after) == input@);
    }
    names.push(line);
    names
}

/// Looks up the display string of an identity.
///
/// The identity is the position of the entry in the table. An identity past
/// the end of the table has no name; that concerns reporting only and says
/// nothing about the records themselves.
pub fn lookup_name<'a>(names: &Vec<&'a str>, identity: usize) -> (result: Result<&'a str, MergeError>)
    ensures
        identity < names@.len() ==> result == Ok::<&str, MergeError>(names@[identity as int]),
        identity >= names@.len() ==> result == Err::<&str, MergeError>(
            MergeError::OutOfRangeIdentity { identity },
        ),
{
    if identity < names.len() {
        Ok(names[identity])
    } else {
        Err(MergeError::OutOfRangeIdentity { identity })
    }
}

} // verus!
