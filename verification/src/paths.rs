//! PathResolver: pure derivation of a device's ancestor layer paths.
//!
//! All derivations are textual, over the path's bytes: the parent directory
//! is everything before the last `/`, the base name everything after it.
//! No filesystem is consulted here.
use crate::text::{
    cat, check_match_at, copy_vec, find_byte, first_index_of, last_index_of, lemma_first_index_of,
    lemma_last_index_of, matches_at, rfind_byte, strip_digits, strip_digits_vec, sub_vec,
};
use vstd::prelude::*;

verus! {

/// Everything before the last `/`, keeping the slash; empty without one.
pub open spec fn dir_prefix_of(s: Seq<u8>) -> Seq<u8> {
    if last_index_of(s, 47) >= 0 {
        s.subrange(0, last_index_of(s, 47) + 1)
    } else {
        Seq::empty()
    }
}

/// Everything before the last `/`, without the slash; empty without one.
pub open spec fn parent_of(s: Seq<u8>) -> Seq<u8> {
    if last_index_of(s, 47) >= 0 {
        s.subrange(0, last_index_of(s, 47))
    } else {
        Seq::empty()
    }
}

/// Everything after the last `/`; the whole text without one.
pub open spec fn basename_of(s: Seq<u8>) -> Seq<u8> {
    s.subrange(last_index_of(s, 47) + 1, s.len() as int)
}

/// The bytes of `common.yaml`.
pub open spec fn lit_common_yaml() -> Seq<u8> {
    seq![99u8, 111u8, 109u8, 109u8, 111u8, 110u8, 46u8, 121u8, 97u8, 109u8, 108u8]
}

/// The bytes of `.common.yaml`.
pub open spec fn lit_dot_common_yaml() -> Seq<u8> {
    seq![46u8, 99u8, 111u8, 109u8, 109u8, 111u8, 110u8, 46u8, 121u8, 97u8, 109u8, 108u8]
}

/// The bytes of `common`.
pub open spec fn lit_common() -> Seq<u8> {
    seq![99u8, 111u8, 109u8, 109u8, 111u8, 110u8]
}

/// The bytes of `.yaml`.
pub open spec fn lit_dot_yaml() -> Seq<u8> {
    seq![46u8, 121u8, 97u8, 109u8, 108u8]
}

/// The bytes of `partition: `.
pub open spec fn lit_partition() -> Seq<u8> {
    seq![112u8, 97u8, 114u8, 116u8, 105u8, 116u8, 105u8, 111u8, 110u8, 58u8, 32u8]
}

/// The bytes of `default`.
pub open spec fn lit_default() -> Seq<u8> {
    seq![100u8, 101u8, 102u8, 97u8, 117u8, 108u8, 116u8]
}

pub fn common_yaml_lit() -> (r: Vec<u8>)
    ensures
        r@ == lit_common_yaml(),
{
    let mut v: Vec<u8> = Vec::new();
    v.push(99);
    v.push(111);
    v.push(109);
    v.push(109);
    v.push(111);
    v.push(110);
    v.push(46);
    v.push(121);
    v.push(97);
    v.push(109);
    v.push(108);
    proof {
        assert(v@ =~= lit_common_yaml());
    }
    v
}

pub fn dot_common_yaml_lit() -> (r: Vec<u8>)
    ensures
        r@ == lit_dot_common_yaml(),
{
    let mut v: Vec<u8> = Vec::new();
    v.push(46);
    let rest = common_yaml_lit();
    let r = cat(&v, &rest);
    proof {
        assert(r@ =~= lit_dot_common_yaml());
    }
    r
}

pub fn common_lit() -> (r: Vec<u8>)
    ensures
        r@ == lit_common(),
{
    let mut v: Vec<u8> = Vec::new();
    v.push(99);
    v.push(111);
    v.push(109);
    v.push(109);
    v.push(111);
    v.push(110);
    proof {
        assert(v@ =~= lit_common());
    }
    v
}

pub fn dot_yaml_lit() -> (r: Vec<u8>)
    ensures
        r@ == lit_dot_yaml(),
{
    let mut v: Vec<u8> = Vec::new();
    v.push(46);
    v.push(121);
    v.push(97);
    v.push(109);
    v.push(108);
    proof {
        assert(v@ =~= lit_dot_yaml());
    }
    v
}

pub fn partition_lit() -> (r: Vec<u8>)
    ensures
        r@ == lit_partition(),
{
    let mut v: Vec<u8> = Vec::new();
    v.push(112);
    v.push(97);
    v.push(114);
    v.push(116);
    v.push(105);
    v.push(116);
    v.push(105);
    v.push(111);
    v.push(110);
    v.push(58);
    v.push(32);
    proof {
        assert(v@ =~= lit_partition());
    }
    v
}

pub fn default_lit() -> (r: Vec<u8>)
    ensures
        r@ == lit_default(),
{
    let mut v: Vec<u8> = Vec::new();
    v.push(100);
    v.push(101);
    v.push(102);
    v.push(97);
    v.push(117);
    v.push(108);
    v.push(116);
    proof {
        assert(v@ =~= lit_default());
    }
    v
}

pub fn slash_lit() -> (r: Vec<u8>)
    ensures
        r@ == seq![47u8],
{
    let mut v: Vec<u8> = Vec::new();
    v.push(47);
    proof {
        assert(v@ =~= seq![47u8]);
    }
    v
}

/// The sibling `common.yaml` of a device path.
pub open spec fn common_path_of(p: Seq<u8>) -> Seq<u8> {
    dir_prefix_of(p) + lit_common_yaml()
}

/// The zonal sibling `{zone}.common.yaml`, where the zone is the part of
/// the base name before its first `-`; without a `-` it falls back to the
/// common path.
pub open spec fn zonal_path_of(p: Seq<u8>) -> Seq<u8> {
    let name = basename_of(p);
    let dash = first_index_of(name, 45);
    if dash >= 0 {
        dir_prefix_of(p) + name.subrange(0, dash) + lit_dot_common_yaml()
    } else {
        common_path_of(p)
    }
}

/// The regional path `{grandparent}/common/{first two bytes of the parent
/// directory name}.yaml`. Meaningful only when the parent directory name
/// has at least two bytes.
pub open spec fn regional_path_of(p: Seq<u8>) -> Seq<u8> {
    let dir = basename_of(parent_of(p));
    let gp = parent_of(parent_of(p));
    let base = if gp.len() > 0 {
        gp + seq![47u8]
    } else {
        Seq::empty()
    };
    base + lit_common() + seq![47u8] + dir.subrange(0, 2) + lit_dot_yaml()
}

/// The device's template class: its parent directory name with the decimal
/// digits removed.
pub open spec fn layer_of(p: Seq<u8>) -> Seq<u8> {
    strip_digits(basename_of(parent_of(p)))
}

/// The device's host name: the path's base name.
pub open spec fn hostname_of(p: Seq<u8>) -> Seq<u8> {
    basename_of(p)
}

/// Parent directory of `p` including the trailing slash, as a vector.
pub fn dir_prefix_vec(s: &Vec<u8>) -> (r: Vec<u8>)
    ensures
        r@ == dir_prefix_of(s@),
{
    proof {
        lemma_last_index_of(s@, 47);
    }
    match rfind_byte(s, 47) {
        Some(i) => {
            proof {
                assert(i < s.len());
            }
            sub_vec(s, 0, i + 1)
        },
        None => Vec::new(),
    }
}

/// Base name of `p` (after the last slash), as a vector.
pub fn basename_vec(s: &Vec<u8>) -> (r: Vec<u8>)
    ensures
        r@ == basename_of(s@),
{
    proof {
        lemma_last_index_of(s@, 47);
    }
    match rfind_byte(s, 47) {
        Some(i) => {
            proof {
                assert(i < s.len());
            }
            sub_vec(s, i + 1, s.len())
        },
        None => {
            let r = copy_vec(s);
            proof {
                assert(s@.subrange(0, s@.len() as int) == s@);
            }
            r
        },
    }
}

/// Parent directory of `p` without the trailing slash, as a vector.
pub fn parent_vec(s: &Vec<u8>) -> (r: Vec<u8>)
    ensures
        r@ == parent_of(s@),
{
    proof {
        lemma_last_index_of(s@, 47);
    }
    match rfind_byte(s, 47) {
        Some(i) => sub_vec(s, 0, i),
        None => Vec::new(),
    }
}

/// Sibling `common.yaml` of the device file.
pub fn get_common(spec: &Vec<u8>) -> (r: Vec<u8>)
    ensures
        r@ == common_path_of(spec@),
{
    let pre = dir_prefix_vec(spec);
    cat(&pre, &common_yaml_lit())
}

/// Zonal sibling `{zone}.common.yaml`, falling back to the common path for
/// a device name without a `-`.
pub fn get_zonal(spec: &Vec<u8>) -> (r: Vec<u8>)
    ensures
        r@ == zonal_path_of(spec@),
{
    let name = basename_vec(spec);
    match find_byte(&name, 45) {
        Some(i) => {
            proof {
                lemma_first_index_of(name@, 45);
            }
            let zone = sub_vec(&name, 0, i);
            let pre = dir_prefix_vec(spec);
            cat(&cat(&pre, &zone), &dot_common_yaml_lit())
        },
        None => get_common(spec),
    }
}

/// Regional path `{grandparent}/common/{region code}.yaml`, where the
/// region code is the first two bytes of the parent directory name.
pub fn get_regional(path: &Vec<u8>) -> (r: Vec<u8>)
    requires
        basename_of(parent_of(path@)).len() >= 2,
    ensures
        r@ == regional_path_of(path@),
{
    let parent = parent_vec(path);
    let dir = basename_vec(&parent);
    let gp = parent_vec(&parent);
    let base = if gp.len() > 0 {
        cat(&gp, &slash_lit())
    } else {
        Vec::new()
    };
    let code = sub_vec(&dir, 0, 2);
    cat(&cat(&cat(&cat(&base, &common_lit()), &slash_lit()), &code), &dot_yaml_lit())
}

/// Template class of the device path: parent directory name, digits
/// stripped.
pub fn layer_vec(path: &Vec<u8>) -> (r: Vec<u8>)
    ensures
        r@ == layer_of(path@),
{
    let parent = parent_vec(path);
    let dir = basename_vec(&parent);
    strip_digits_vec(&dir)
}

/// Bytes that end the captured partition value.
pub open spec fn is_terminator(b: u8) -> bool {
    b == 10 || b == 13 || b == 36
}

/// ASCII whitespace, for trimming the captured value.
pub open spec fn is_space(b: u8) -> bool {
    b == 32 || b == 9 || b == 10 || b == 13
}

/// A `partition: ` marker at `i` with at least one capturable byte after it.
pub open spec fn partition_hit_at(text: Seq<u8>, i: int) -> bool {
    matches_at(text, lit_partition(), i) && i + 11 < text.len() && !is_terminator(text[i + 11])
}

/// First hit position at or after `i`, or -1.
pub open spec fn partition_hit_from(text: Seq<u8>, i: int) -> int
    decreases text.len() - i,
{
    if i < 0 || i + 11 >= text.len() {
        -1
    } else if partition_hit_at(text, i) {
        i
    } else {
        partition_hit_from(text, i + 1)
    }
}

/// End of the captured value: the first terminator at or after `j`, or the
/// end of the text.
pub open spec fn value_end_from(text: Seq<u8>, j: int) -> int
    decreases text.len() - j,
{
    if j < 0 || j >= text.len() {
        text.len() as int
    } else if is_terminator(text[j]) {
        j
    } else {
        value_end_from(text, j + 1)
    }
}

/// First non-space position at or after `i`.
pub open spec fn trim_start_idx(s: Seq<u8>, i: int) -> int
    decreases s.len() - i,
{
    if i < 0 || i >= s.len() {
        s.len() as int
    } else if is_space(s[i]) {
        trim_start_idx(s, i + 1)
    } else {
        i
    }
}

/// One past the last non-space position strictly before `j`.
pub open spec fn trim_end_idx(s: Seq<u8>, j: int) -> int
    decreases j,
{
    if j <= 0 {
        0
    } else if is_space(s[j - 1]) {
        trim_end_idx(s, j - 1)
    } else {
        j
    }
}

/// `s` with ASCII whitespace removed from both ends.
pub open spec fn trim_of(s: Seq<u8>) -> Seq<u8> {
    let a = trim_start_idx(s, 0);
    let b = trim_end_idx(s, s.len() as int);
    if a <= b {
        s.subrange(a, b)
    } else {
        Seq::empty()
    }
}

/// The value captured by the textual `partition: ` scan: the bytes after
/// the first viable marker, up to a newline, carriage return or `$`,
/// trimmed; `None` when no marker with a capturable byte exists.
pub open spec fn partition_value_of(text: Seq<u8>) -> Option<Seq<u8>> {
    let h = partition_hit_from(text, 0);
    if h < 0 {
        None
    } else {
        Some(trim_of(text.subrange(h + 11, value_end_from(text, h + 11))))
    }
}

proof fn lemma_trim_start_le(s: Seq<u8>, i: int)
    requires
        0 <= i <= s.len(),
    ensures
        i <= trim_start_idx(s, i) <= s.len(),
    decreases s.len() - i,
{
    if i < s.len() && is_space(s[i]) {
        lemma_trim_start_le(s, i + 1);
    }
}

proof fn lemma_trim_end_ge(s: Seq<u8>, j: int)
    requires
        0 <= j <= s.len(),
    ensures
        0 <= trim_end_idx(s, j) <= j,
    decreases j,
{
    if j > 0 && is_space(s[j - 1]) {
        lemma_trim_end_ge(s, j - 1);
    }
}

/// Trim ASCII whitespace from both ends.
#[verifier::loop_isolation(false)]
pub fn trim_vec(s: &Vec<u8>) -> (r: Vec<u8>)
    ensures
        r@ == trim_of(s@),
{
    let mut a: usize = 0;
    while a < s.len() && (s[a] == 32 || s[a] == 9 || s[a] == 10 || s[a] == 13)
        invariant
            0 <= a <= s.len(),
            trim_start_idx(s@, 0) == trim_start_idx(s@, a as int),
        decreases s.len() - a,
    {
        a = a + 1;
    }
    let mut b: usize = s.len();
    while b > a && (s[b - 1] == 32 || s[b - 1] == 9 || s[b - 1] == 10 || s[b - 1] == 13)
        invariant
            a <= b <= s.len(),
            trim_end_idx(s@, s@.len() as int) == trim_end_idx(s@, b as int),
        decreases b,
    {
        b = b - 1;
    }
    proof {
        assert(trim_start_idx(s@, a as int) == a);
        assert(trim_start_idx(s@, 0) == a);
    }
    if b > a {
        proof {
            assert(trim_end_idx(s@, b as int) == b);
        }
        sub_vec(s, a, b)
    } else {
        let r = sub_vec(s, a, a);
        proof {
            lemma_trim_end_ge(s@, a as int);
            let e = trim_end_idx(s@, s@.len() as int);
            assert(e == trim_end_idx(s@, a as int));
            if e == a {
                assert(trim_of(s@) == s@.subrange(a as int, a as int));
            } else {
                assert(e < a);
                assert(trim_of(s@) == Seq::<u8>::empty());
                assert(r@ =~= Seq::<u8>::empty());
            }
        }
        r
    }
}

/// Scan text for the first viable `partition: ` marker and capture its
/// trimmed value.
#[verifier::loop_isolation(false)]
pub fn find_partition_value(text: &Vec<u8>) -> (r: Option<Vec<u8>>)
    ensures
        (r is Some) == (partition_value_of(text@) is Some),
        r matches Some(v) ==> partition_value_of(text@) matches Some(pv) && v@ == pv,
{
    if text.len() < 12 {
        return None;
    }
    let marker = partition_lit();
    let mut i: usize = 0;
    while i < text.len() - 11
        invariant
            0 <= i <= text.len() - 11,
            marker@ == lit_partition(),
            partition_hit_from(text@, 0) == partition_hit_from(text@, i as int),
        decreases text.len() - i,
    {
        let is_marker = check_match_at(text, &marker, i);
        let t = text[i + 11];
        if is_marker && !(t == 10 || t == 13 || t == 36) {
            proof {
                assert(partition_hit_at(text@, i as int));
                assert(partition_hit_from(text@, i as int) == i);
            }
            let start = i + 11;
            let mut j: usize = start;
            while j < text.len() && !(text[j] == 10 || text[j] == 13 || text[j] == 36)
                invariant
                    start <= j <= text.len(),
                    value_end_from(text@, start as int) == value_end_from(text@, j as int),
                decreases text.len() - j,
            {
                j = j + 1;
            }
            proof {
                assert(value_end_from(text@, j as int) == j);
            }
            let raw = sub_vec(text, start, j);
            let out = trim_vec(&raw);
            return Some(out);
        }
        i = i + 1;
    }
    proof {
        assert(partition_hit_from(text@, i as int) == -1);
    }
    None
}

/// View of an optional borrowed byte text.
pub open spec fn opt_bytes_view(o: Option<&Vec<u8>>) -> Option<Seq<u8>> {
    match o {
        Some(v) => Some(v@),
        None => None,
    }
}

/// The partitional path `{spec-root}/common/{value}.yaml`, where the value
/// comes from a textual `partition: ` scan of the common file first, then
/// the regional file, defaulting to `default`.
pub open spec fn partitional_path_of(root: Seq<u8>, c: Option<Seq<u8>>, g: Option<Seq<u8>>) -> Seq<
    u8,
> {
    let vc = match c {
        Some(t) => partition_value_of(t),
        None => None,
    };
    let v = if vc is Some {
        vc
    } else {
        match g {
            Some(t) => partition_value_of(t),
            None => None,
        }
    };
    let name = match v {
        Some(n) => n,
        None => lit_default(),
    };
    root + seq![47u8] + lit_common() + seq![47u8] + name + lit_dot_yaml()
}

/// Derive the partitional path from the spec root and the contents (where
/// readable) of the common and regional files, scanning in that order.
pub fn get_partional(
    spec_root: &Vec<u8>,
    common_text: Option<&Vec<u8>>,
    regional_text: Option<&Vec<u8>>,
) -> (r: Vec<u8>)
    ensures
        r@ == partitional_path_of(
            spec_root@,
            opt_bytes_view(common_text),
            opt_bytes_view(regional_text),
        ),
{
    let first = match common_text {
        Some(t) => find_partition_value(t),
        None => None,
    };
    let found = match first {
        Some(x) => Some(x),
        None => match regional_text {
            Some(t) => find_partition_value(t),
            None => None,
        },
    };
    let name = match found {
        Some(x) => x,
        None => default_lit(),
    };
    cat(
        &cat(&cat(&cat(&cat(spec_root, &slash_lit()), &common_lit()), &slash_lit()), &name),
        &dot_yaml_lit(),
    )
}

/// Zonal fallback law: a device name without a `-` resolves its zonal path
/// to exactly the common path.
pub proof fn lemma_zonal_fallback(p: Seq<u8>)
    requires
        first_index_of(basename_of(p), 45) < 0,
    ensures
        zonal_path_of(p) == common_path_of(p),
{
}

/// Partition fallback law: when neither the common nor the regional file
/// contains a viable `partition: ` line (or neither is readable), the
/// partitional path is `{spec-root}/common/default.yaml`.
pub proof fn lemma_partition_fallback(root: Seq<u8>, c: Option<Seq<u8>>, g: Option<Seq<u8>>)
    requires
        c matches Some(t) ==> partition_value_of(t) is None,
        g matches Some(t) ==> partition_value_of(t) is None,
    ensures
        partitional_path_of(root, c, g) == root + seq![47u8] + lit_common() + seq![47u8]
            + lit_default() + lit_dot_yaml(),
{
}

} // verus!
