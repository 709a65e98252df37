//! CSV lines: a header row, then rows of fields joined by `;`.
use vstd::prelude::*;
use vstd::string::StringExecFns;
use crate::text::{join, joined, texts};

verus! {

/// Capacity of the row queue of one CSV file.
pub const DEFAULT_BUFFER_SIZE: usize = 1024;

pub const SEPARATOR: &'static str = ";";

/// The text of each header name.
pub open spec fn str_texts(items: Seq<&'static str>) -> Seq<Seq<char>> {
    items.map_values(|s: &'static str| s@)
}

/// The line that a row of fields becomes in the file.
pub open spec fn line_text(fields: Seq<Seq<char>>) -> Seq<char> {
    joined(fields, ";"@) + "\n"@
}

/// A record that a CSV file holds: its header, and the rows it becomes.
pub trait Item: Sized {
    fn header() -> Vec<&'static str>;

    fn rows(self) -> Vec<Vec<String>>;
}

/// A header as a row of fields.
pub fn header_fields(header: &Vec<&'static str>) -> (r: Vec<String>)
    ensures
        texts(r@) == str_texts(header@),
{
    let mut r: Vec<String> = Vec::new();
    let mut i: usize = 0;
    while i < header.len()
        invariant
            i <= header@.len(),
            r@.len() == i,
            texts(r@) =~= str_texts(header@.subrange(0, i as int)),
        decreases header@.len() - i,
    {
        let field = String::from_str(header[i]);
        let ghost prev = r@;
        r.push(field);
        proof {
            let want = str_texts(header@.subrange(0, i as int + 1));
            assert forall|j: int| 0 <= j <= i implies texts(r@)[j] == want[j] by {
                if j < i {
                    assert(r@[j] == prev[j]);
                    assert(header@.subrange(0, i as int + 1)[j] == header@.subrange(0, i as int)[j]);
                    assert(texts(prev)[j] == str_texts(header@.subrange(0, i as int))[j]);
                } else {
                    assert(r@[j] == field);
                    assert(header@.subrange(0, i as int + 1)[j] == header@[i as int]);
                }
            }
            assert(texts(r@) =~= want);
        }
        i += 1;
    }
    assert(header@.subrange(0, i as int) =~= header@);
    r
}

/// A row written as one line of the file, with its line break.
pub fn render_row(row: &Vec<String>) -> (r: String)
    ensures
        r@ == line_text(texts(row@)),
{
    proof {
        reveal_strlit("\n");
    }
    join(row, SEPARATOR).concat("\n")
}

} // verus!
