//! Filter selection: the supported resampling kernels, the permissive
//! case-insensitive name parser, and the list of recognized names.

use vstd::prelude::*;
use vstd::string::StrSliceExecFns;
use vstd::string::StringSliceAdditionalSpecFns;

verus! {

/// The resampling kernels the engine supports.
#[derive(Clone, Copy, PartialEq, Eq, Structural, Debug)]
pub enum FilterKind {
    Nearest,
    Bilinear,
    CatmullRom,
    Mitchell,
    Lanczos3,
}

/// ASCII lowercasing of a single byte.
pub open spec fn lower_byte(b: u8) -> u8 {
    if 65 <= b && b <= 90 {
        (b + 32) as u8
    } else {
        b
    }
}

/// ASCII lowercasing of a byte string.
pub open spec fn lower_bytes(s: Seq<u8>) -> Seq<u8> {
    s.map_values(|b: u8| lower_byte(b))
}

/// The filter a name resolves to: any case-insensitive match of a known
/// alias selects its kernel, and every other name falls back to Lanczos3.
pub open spec fn spec_parse_filter(s: Seq<u8>) -> FilterKind {
    let l = lower_bytes(s);
    if l == "nearest".spec_bytes() {
        FilterKind::Nearest
    } else if l == "bilinear".spec_bytes() {
        FilterKind::Bilinear
    } else if l == "catmull".spec_bytes() || l == "catmullrom".spec_bytes() {
        FilterKind::CatmullRom
    } else if l == "mitchell".spec_bytes() {
        FilterKind::Mitchell
    } else {
        FilterKind::Lanczos3
    }
}

fn lower_byte_exec(b: u8) -> (r: u8)
    ensures
        r == lower_byte(b),
{
    if 65 <= b && b <= 90 {
        b + 32
    } else {
        b
    }
}

/// Whether the byte string `b`, lowercased, equals the alias `pat`.
fn matches_alias(b: &Vec<u8>, pat: &str) -> (r: bool)
    ensures
        r == (lower_bytes(b@) == pat.spec_bytes()),
{
    let p: Vec<u8> = pat.as_bytes_vec();
    if b.len() != p.len() {
        assert(lower_bytes(b@).len() == b@.len());
        return false;
    }
    let n: usize = b.len();
    let mut i: usize = 0;
    while i < n
        invariant
            n == b@.len(),
            p@ == pat.spec_bytes(),
            b@.len() == p@.len(),
            i <= n,
            forall|j: int| 0 <= j < i ==> lower_byte(b@[j]) == p@[j],
        decreases n - i,
    {
        if lower_byte_exec(b[i]) != p[i] {
            assert(lower_bytes(b@)[i as int] != p@[i as int]);
            return false;
        }
        i = i + 1;
    }
    assert(lower_bytes(b@) =~= pat.spec_bytes());
    true
}

/// Resolves a filter name, case-insensitively; unrecognized names fall
/// back to Lanczos3 rather than failing.
pub fn parse_filter(algorithm: &str) -> (f: FilterKind)
    ensures
        f == spec_parse_filter(algorithm.spec_bytes()),
{
    let b: Vec<u8> = algorithm.as_bytes_vec();
    if matches_alias(&b, "nearest") {
        FilterKind::Nearest
    } else if matches_alias(&b, "bilinear") {
        FilterKind::Bilinear
    } else if matches_alias(&b, "catmull") {
        FilterKind::CatmullRom
    } else if matches_alias(&b, "catmullrom") {
        FilterKind::CatmullRom
    } else if matches_alias(&b, "mitchell") {
        FilterKind::Mitchell
    } else {
        FilterKind::Lanczos3
    }
}

/// The fixed ordered list of supported filter-name identifiers.
pub fn get_algorithms() -> (names: Vec<String>)
    ensures
        names@.len() == 5,
        names@[0]@ == "nearest"@,
        names@[1]@ == "bilinear"@,
        names@[2]@ == "catmull"@,
        names@[3]@ == "mitchell"@,
        names@[4]@ == "lanczos3"@,
{
    let mut v: Vec<String> = Vec::new();
    v.push("nearest".to_owned());
    v.push("bilinear".to_owned());
    v.push("catmull".to_owned());
    v.push("mitchell".to_owned());
    v.push("lanczos3".to_owned());
    v
}

} // verus!
