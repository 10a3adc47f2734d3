//! Presentation of decoded tree entries: one display line per entry, either
//! the name alone or the long `mode kind hash name` form, in input order.

use crate::bytes::append_bytes;
use crate::hash::hex_of;
use crate::tree::{GitObjects, TreeEntry, TreeEntryModel};
use vstd::prelude::*;

verus! {

/// The bytes naming an entry's kind in the long form: `"tree"` or `"blob"`.
pub open spec fn kind_bytes(k: GitObjects) -> Seq<u8> {
    match k {
        GitObjects::Tree => seq![116u8, 114u8, 101u8, 101u8],
        GitObjects::Blob => seq![98u8, 108u8, 111u8, 98u8],
    }
}

/// One display line: the name alone when `name_only`, otherwise the mode,
/// the kind, the hex-rendered hash and the name, separated by single spaces.
pub open spec fn render_line(e: TreeEntryModel, name_only: bool) -> Seq<u8> {
    if name_only {
        e.file_name
    } else {
        e.mode + seq![32u8] + kind_bytes(e.file_type) + seq![32u8] + hex_of(e.sha_hash)
            + seq![32u8] + e.file_name
    }
}

/// Renders entries as display lines, one per entry, keeping input order.
pub fn render_entries(entries: &Vec<TreeEntry>, name_only: bool) -> (r: Vec<Vec<u8>>)
    ensures
        r@.len() == entries@.len(),
        forall|i: int|
            0 <= i < entries@.len() ==> #[trigger] r@[i]@ == render_line(entries@[i]@, name_only),
{
    let mut out: Vec<Vec<u8>> = Vec::new();
    let mut i: usize = 0;
    while i < entries.len()
        invariant
            i <= entries@.len(),
            out@.len() == i,
            forall|j: int|
                0 <= j < i ==> #[trigger] out@[j]@ == render_line(entries@[j]@, name_only),
        decreases entries@.len() - i,
    {
        let e = &entries[i];
        let mut line: Vec<u8> = Vec::new();
        if name_only {
            append_bytes(&mut line, e.file_name.as_slice());
        } else {
            append_bytes(&mut line, e.mode.as_slice());
            line.push(32);
            match e.file_type {
                GitObjects::Tree => {
                    line.push(116);
                    line.push(114);
                    line.push(101);
                    line.push(101);
                },
                GitObjects::Blob => {
                    line.push(98);
                    line.push(108);
                    line.push(111);
                    line.push(98);
                },
            }
            line.push(32);
            let hx = crate::hash::to_hex(e.sha_hash.as_slice());
            append_bytes(&mut line, hx.as_slice());
            line.push(32);
            append_bytes(&mut line, e.file_name.as_slice());
        }
        proof {
            assert(line@ =~= render_line(entries@[i as int]@, name_only));
        }
        out.push(line);
        i = i + 1;
    }
    out
}

} // verus!
