use vstd::prelude::*;
use vstd::string::StringSliceAdditionalSpecFns;

verus! {

/// The entries of a cpio archive, as name and content, in archive order; reading stops at
/// the first corrupt header.
pub uninterp spec fn cpio_files(archive: Seq<u8>) -> Seq<(Seq<u8>, Seq<u8>)>;

/// The names and contents that a list of entries holds.
pub open spec fn entries_view(es: Seq<(Vec<u8>, Vec<u8>)>) -> Seq<(Seq<u8>, Seq<u8>)> {
    es.map_values(|e: (Vec<u8>, Vec<u8>)| (e.0@, e.1@))
}

/// Relies on `cpio_reader::iter_files` and `Entry::{name, file}`: each entry's name and
/// content, in archive order.
#[verifier::external_body]
fn archive_entries(archive: &[u8]) -> (r: Vec<(Vec<u8>, Vec<u8>)>)
    ensures
        entries_view(r@) == cpio_files(archive@),
{
    cpio_reader::iter_files(archive).map(|e| (e.name().as_bytes().to_vec(), e.file().to_vec())).collect()
}

/// `i` is the first entry called `name`.
pub open spec fn is_first_named(es: Seq<(Seq<u8>, Seq<u8>)>, name: Seq<u8>, i: int) -> bool {
    &&& 0 <= i < es.len()
    &&& es[i].0 == name
    &&& forall|j: int| 0 <= j < i ==> #[trigger] es[j].0 != name
}

/// No entry is called `name`.
pub open spec fn none_named(es: Seq<(Seq<u8>, Seq<u8>)>, name: Seq<u8>) -> bool {
    forall|j: int| 0 <= j < es.len() ==> #[trigger] es[j].0 != name
}

fn bytes_eq(a: &[u8], b: &[u8]) -> (r: bool)
    ensures
        r == (a@ == b@),
{
    if a.len() != b.len() {
        return false;
    }
    let mut i: usize = 0;
    while i < a.len()
        invariant
            a@.len() == b@.len(),
            i <= a@.len(),
            forall|j: int| 0 <= j < i ==> #[trigger] a@[j] == b@[j],
        decreases a@.len() - i,
    {
        if a[i] != b[i] {
            return false;
        }
        i += 1;
    }
    assert(a@ =~= b@);
    true
}

/// The position of the first entry called `name`, or `None` when there is none.
pub fn find_entry(entries: &Vec<(Vec<u8>, Vec<u8>)>, name: &[u8]) -> (r: Option<usize>)
    ensures
        match r {
            None => none_named(entries_view(entries@), name@),
            Some(i) => is_first_named(entries_view(entries@), name@, i as int),
        },
{
    let mut i: usize = 0;
    while i < entries.len()
        invariant
            i <= entries@.len(),
            forall|j: int| 0 <= j < i ==> #[trigger] entries_view(entries@)[j].0 != name@,
        decreases entries@.len() - i,
    {
        if bytes_eq(entries[i].0.as_slice(), name) {
            return Some(i);
        }
        i += 1;
    }
    None
}

/// The content of the first file called `name` in the cpio archive, or `None` when the
/// archive holds no such file.
pub fn find_file(archive: &[u8], name: &str) -> (r: Option<Vec<u8>>)
    ensures
        match r {
            None => none_named(cpio_files(archive@), name.spec_bytes()),
            Some(f) => exists|i: int|
                is_first_named(cpio_files(archive@), name.spec_bytes(), i) && f@ == cpio_files(
                    archive@,
                )[i].1,
        },
{
    let entries = archive_entries(archive);
    match find_entry(&entries, name.as_bytes()) {
        None => None,
        Some(i) => {
            let f = entries[i].1.clone();
            assert(f@ == entries_view(entries@)[i as int].1);
            Some(f)
        },
    }
}

} // verus!
