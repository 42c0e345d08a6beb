//! Reading the names in a tile directory tree: extensions and stems as
//! `Path::extension` and `Path::file_stem` find them, and directory and file
//! names that are decimal numbers.
use vstd::prelude::*;
use crate::decimal::{parse_u32, u32_from_decimal};

verus! {

/// `b` with ASCII upper-case letters mapped to lower case.
pub open spec fn ascii_lower(b: u8) -> u8 {
    if 65 <= b <= 90 {
        (b + 32) as u8
    } else {
        b
    }
}

/// `a` and `b` are equal up to ASCII case.
pub open spec fn eq_ignore_ascii_case(a: Seq<u8>, b: Seq<u8>) -> bool {
    &&& a.len() == b.len()
    &&& forall|i: int| 0 <= i < a.len() ==> #[trigger] ascii_lower(a[i]) == ascii_lower(b[i])
}

/// Position of the last `.` in `name`, or -1 where there is none.
pub open spec fn last_dot(name: Seq<u8>) -> int
    decreases name.len(),
{
    if name.len() == 0 {
        -1
    } else if name.last() == 46 {
        name.len() - 1
    } else {
        last_dot(name.drop_last())
    }
}

/// A file name has an extension when it is not `..` and its last `.` is
/// not its first byte.
pub open spec fn has_extension(name: Seq<u8>) -> bool {
    name != seq![46u8, 46u8] && last_dot(name) > 0
}

/// What follows the last `.` of a file name that has an extension.
pub open spec fn file_extension(name: Seq<u8>) -> Seq<u8> {
    name.subrange(last_dot(name) + 1, name.len() as int)
}

/// The file name without its extension, or the whole name where it has none.
pub open spec fn file_stem(name: Seq<u8>) -> Seq<u8> {
    if has_extension(name) {
        name.subrange(0, last_dot(name))
    } else {
        name
    }
}

/// What `u8::from_str` returns on `s`.
pub open spec fn u8_from_decimal(s: Seq<u8>) -> Option<u8> {
    match u32_from_decimal(s) {
        Some(v) => if v <= 255 {
            Some(v as u8)
        } else {
            None
        },
        None => None,
    }
}

proof fn lemma_last_dot(name: Seq<u8>)
    ensures
        -1 <= last_dot(name) < name.len(),
        last_dot(name) >= 0 ==> name[last_dot(name)] == 46,
        forall|k: int| last_dot(name) < k < name.len() ==> name[k] != 46,
    decreases name.len(),
{
    if name.len() > 0 && name.last() != 46 {
        lemma_last_dot(name.drop_last());
        assert(forall|k: int| 0 <= k < name.len() - 1 ==> name.drop_last()[k] == name[k]);
    }
}

/// Position of the last `.` in `name`, or -1.
fn find_last_dot(name: &[u8]) -> (pos: isize)
    requires
        name@.len() < isize::MAX,
    ensures
        pos == last_dot(name@),
        -1 <= pos < name@.len(),
{
    let mut i: usize = name.len();
    while i > 0
        invariant
            i <= name@.len(),
            name@.len() < isize::MAX,
            forall|k: int| i <= k < name@.len() ==> name@[k] != 46,
        decreases i,
    {
        if name[i - 1] == 46 {
            proof {
                lemma_last_dot(name@);
            }
            return (i - 1) as isize;
        }
        i = i - 1;
    }
    proof {
        lemma_last_dot(name@);
    }
    -1
}

/// Whether a file name has the extension `ext`, in any ASCII case, as
/// `Path::extension` reads extensions.
pub fn has_extension_ignoring_case(name: &[u8], ext: &[u8]) -> (matches: bool)
    requires
        name@.len() < isize::MAX,
    ensures
        matches == (has_extension(name@) && eq_ignore_ascii_case(file_extension(name@), ext@)),
{
    let dot = find_last_dot(name);
    if dot <= 0 || (name.len() == 2 && name[0] == 46 && name[1] == 46) {
        proof {
            if name@.len() == 2 && name@[0] == 46 && name@[1] == 46 {
                assert(name@ =~= seq![46u8, 46u8]);
            }
        }
        return false;
    }
    proof {
        assert(name@ != seq![46u8, 46u8]);
    }
    let start = (dot + 1) as usize;
    proof {
        assert(file_extension(name@).len() == name@.len() - start);
    }
    if name.len() - start != ext.len() {
        return false;
    }
    let mut k: usize = 0;
    while k < ext.len()
        invariant
            name@.len() < isize::MAX,
            start + ext@.len() == name@.len(),
            start == last_dot(name@) + 1,
            k <= ext@.len(),
            forall|j: int| 0 <= j < k ==> #[trigger] ascii_lower(file_extension(name@)[j]) == ascii_lower(ext@[j]),
        decreases ext@.len() - k,
    {
        let a = ascii_lower_byte(name[start + k]);
        let b = ascii_lower_byte(ext[k]);
        if a != b {
            proof {
                assert(ascii_lower(file_extension(name@)[k as int]) != ascii_lower(ext@[k as int]));
            }
            return false;
        }
        k = k + 1;
    }
    true
}

fn ascii_lower_byte(b: u8) -> (lower: u8)
    ensures
        lower == ascii_lower(b),
{
    if 65 <= b && b <= 90 {
        b + 32
    } else {
        b
    }
}

/// Whether a file name has an `mvt` extension, in any case.
pub fn is_mvt_file_name(name: &[u8]) -> (is_mvt: bool)
    requires
        name@.len() < isize::MAX,
    ensures
        is_mvt == (has_extension(name@) && eq_ignore_ascii_case(file_extension(name@), seq![109u8, 118u8, 116u8])),
{
    let ext: [u8; 3] = [109, 118, 116];
    has_extension_ignoring_case(name, &ext)
}

/// Whether a file name has a `geojson` extension, in any case.
pub fn is_geojson_file_name(name: &[u8]) -> (is_geojson: bool)
    requires
        name@.len() < isize::MAX,
    ensures
        is_geojson == (has_extension(name@) && eq_ignore_ascii_case(
            file_extension(name@),
            seq![103u8, 101u8, 111u8, 106u8, 115u8, 111u8, 110u8],
        )),
{
    let ext: [u8; 7] = [103, 101, 111, 106, 115, 111, 110];
    has_extension_ignoring_case(name, &ext)
}

/// Whether a file name has a `pbf` extension, in any case.
pub fn is_pbf_file_name(name: &[u8]) -> (is_pbf: bool)
    requires
        name@.len() < isize::MAX,
    ensures
        is_pbf == (has_extension(name@) && eq_ignore_ascii_case(file_extension(name@), seq![112u8, 98u8, 102u8])),
{
    let ext: [u8; 3] = [112, 98, 102];
    has_extension_ignoring_case(name, &ext)
}

/// The row number of a tile file: its stem as a decimal `u32`.
pub fn tile_y_from_file_name(name: &[u8]) -> (y: Option<u32>)
    requires
        name@.len() < isize::MAX,
    ensures
        y == u32_from_decimal(file_stem(name@)),
{
    let dot = find_last_dot(name);
    if dot <= 0 || (name.len() == 2 && name[0] == 46 && name[1] == 46) {
        proof {
            if name@ == seq![46u8, 46u8] {
                assert(name@[0] == 46 && name@[1] == 46);
            }
        }
        return parse_u32(name);
    }
    proof {
        assert(name@ != seq![46u8, 46u8]);
    }
    let stem = vstd::slice::slice_subrange(name, 0, dot as usize);
    parse_u32(stem)
}

/// A zoom directory name read as `u8::from_str` reads it.
pub fn parse_zoom_component(name: &[u8]) -> (zoom: Option<u8>)
    ensures
        zoom == u8_from_decimal(name@),
{
    match parse_u32(name) {
        Some(v) => if v <= 255 {
            Some(v as u8)
        } else {
            None
        },
        None => None,
    }
}

/// A column directory name read as `u32::from_str` reads it.
pub fn parse_column_component(name: &[u8]) -> (x: Option<u32>)
    ensures
        x == u32_from_decimal(name@),
{
    parse_u32(name)
}

} // verus!
