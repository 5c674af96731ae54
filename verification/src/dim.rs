//! Dimension compaction: detect that a sibling group of registers is a
//! uniform-stride array and fold it back into one array declaration. The
//! inverse of expansion; failing to compact is never an error, only a larger
//! valid output.

use crate::register::{
    first_pct_from, lemma_first_pct_bounds, spec_expanded_name, DimElement,
    DimElementView, RegisterInfo, RegisterInfoView,
};
use crate::text::{dec_str, str_eq, u64_to_dec};
use vstd::prelude::*;

verus! {

/// Whether two registers agree on everything an array's copies share: all
/// properties but the name and the address offset.
pub open spec fn same_shape(a: RegisterInfoView, b: RegisterInfoView) -> bool {
    &&& a.description == b.description
    &&& a.size == b.size
    &&& a.access == b.access
    &&& a.reset_value == b.reset_value
    &&& a.reset_mask == b.reset_mask
    &&& a.derived_from == b.derived_from
}

/// The candidate stride of a sibling group: the gap between its first two
/// offsets.
pub open spec fn spec_stride(rs: Seq<RegisterInfo>) -> int {
    rs[1]@.address_offset - rs[0]@.address_offset
}

/// The names of a sibling group, in order.
pub open spec fn names_of(rs: Seq<RegisterInfo>) -> Seq<Seq<char>> {
    rs.map_values(|r: RegisterInfo| r.name@)
}

/// A sibling group that can be folded into one array declaration: at least
/// two members, counts and stride representable, offsets in arithmetic
/// progression, and every member shaped like the first.
pub open spec fn spec_compactible(rs: Seq<RegisterInfo>) -> bool {
    &&& 2 <= rs.len() <= u32::MAX
    &&& 0 <= spec_stride(rs) <= u32::MAX
    &&& forall|i: int|
        0 <= i < rs.len() ==> (#[trigger] rs[i])@.address_offset == rs[0]@.address_offset + i
            * spec_stride(rs)
    &&& forall|i: int| 0 <= i < rs.len() ==> same_shape((#[trigger] rs[i])@, rs[0]@)
}

/// Whether the names follow the numeric naming rule with the split at `k`:
/// every name is the first name's head before `k`, then the decimal position,
/// then the first name's tail after `k`.
pub open spec fn pattern_at(ns: Seq<Seq<char>>, k: int) -> bool {
    &&& 0 <= k < ns[0].len()
    &&& forall|i: int|
        0 <= i < ns.len() ==> #[trigger] ns[i] == ns[0].subrange(0, k) + dec_str(i as nat)
            + ns[0].subrange(k + 1, ns[0].len() as int)
}

/// The first split position at or past `k` where the numeric naming rule
/// holds.
pub open spec fn first_pattern(ns: Seq<Seq<char>>, k: int) -> Option<int>
    decreases ns[0].len() - k,
{
    if k < 0 || k >= ns[0].len() {
        None
    } else if pattern_at(ns, k) {
        Some(k)
    } else {
        first_pattern(ns, k + 1)
    }
}

/// A found split lies inside the first name and the rule holds there.
pub proof fn lemma_first_pattern_bounds(ns: Seq<Seq<char>>, j: int)
    requires
        0 <= j,
    ensures
        first_pattern(ns, j) matches Some(k) ==> j <= k < ns[0].len() && pattern_at(ns, k),
    decreases ns[0].len() - j,
{
    if j < ns[0].len() && !pattern_at(ns, j) {
        lemma_first_pattern_bounds(ns, j + 1);
    }
}

/// When the rule holds somewhere, the search from any earlier position finds
/// a split.
pub proof fn lemma_first_pattern_finds(ns: Seq<Seq<char>>, j: int, k: int)
    requires
        0 <= j <= k,
        pattern_at(ns, k),
    ensures
        first_pattern(ns, j) is Some,
    decreases k - j,
{
    if j < k && !pattern_at(ns, j) {
        lemma_first_pattern_finds(ns, j + 1, k);
    }
}

/// Whether the numeric naming rule holds at split `k` for the whole group.
fn check_pattern(rs: &Vec<RegisterInfo>, k: usize) -> (r: bool)
    requires
        rs@.len() >= 1,
        k < rs@[0].name@.len(),
    ensures
        r == pattern_at(names_of(rs@), k as int),
{
    let ghost ns = names_of(rs@);
    let len0 = rs[0].name.as_str().unicode_len();
    let p = rs[0].name.as_str().substring_char(0, k);
    let q = rs[0].name.as_str().substring_char(k + 1, len0);
    let n = rs.len();
    let mut i: usize = 0;
    while i < n
        invariant
            n == rs@.len(),
            n >= 1,
            i <= n,
            ns == names_of(rs@),
            k < ns[0].len(),
            p@ == ns[0].subrange(0, k as int),
            q@ == ns[0].subrange(k + 1, ns[0].len() as int),
            forall|j: int| 0 <= j < i ==> #[trigger] ns[j] == p@ + dec_str(j as nat) + q@,
        decreases n - i,
    {
        assert(ns[i as int] == rs@[i as int].name@);
        let dec = u64_to_dec(i as u64);
        let expected = p.to_owned().concat(dec.as_str()).concat(q);
        if !str_eq(expected.as_str(), rs[i].name.as_str()) {
            assert(ns[i as int] != p@ + dec_str(i as nat) + q@);
            return false;
        }
        i += 1;
    }
    assert(pattern_at(ns, k as int));
    true
}

/// Search the first split position where the numeric naming rule holds for
/// the whole group.
fn find_split(rs: &Vec<RegisterInfo>) -> (r: Option<usize>)
    requires
        rs@.len() >= 1,
    ensures
        match r {
            Some(k) => first_pattern(names_of(rs@), 0) == Some(k as int),
            None => first_pattern(names_of(rs@), 0) is None,
        },
{
    let ghost ns = names_of(rs@);
    proof {
        assert(ns[0] == rs@[0].name@);
    }
    let len0 = rs[0].name.as_str().unicode_len();
    let mut k: usize = 0;
    while k < len0
        invariant
            rs@.len() >= 1,
            ns == names_of(rs@),
            len0 == ns[0].len(),
            k <= len0,
            first_pattern(ns, 0) == first_pattern(ns, k as int),
        decreases len0 - k,
    {
        if check_pattern(rs, k) {
            return Some(k);
        }
        k += 1;
    }
    None
}

/// Fold a sibling group back into one array declaration when its offsets
/// climb uniformly and its members share every property but name and offset.
/// The recovered dimension block carries the group's size and stride; the
/// index list is dropped exactly when the names follow the numeric naming
/// rule, and kept verbatim otherwise. The template keeps the first member's
/// properties, its name carrying the `%s` placeholder at the first split the
/// rule holds at.
pub fn compact_registers(rs: &Vec<RegisterInfo>) -> (r: Option<(RegisterInfo, DimElement)>)
    ensures
        r is Some <==> spec_compactible(rs@),
        r matches Some((t, d)) ==> {
            let ns = names_of(rs@);
            &&& d.dim == rs@.len()
            &&& d.dim_increment == spec_stride(rs@)
            &&& d@.dim_index == (match first_pattern(ns, 0) {
                Some(_) => None::<Seq<Seq<char>>>,
                None => Some(ns),
            })
            &&& t@.address_offset == rs@[0]@.address_offset
            &&& same_shape(t@, rs@[0]@)
            &&& t@.name == (match first_pattern(ns, 0) {
                Some(k) => ns[0].subrange(0, k) + "%s"@ + ns[0].subrange(
                    k + 1,
                    ns[0].len() as int,
                ),
                None => ns[0],
            })
        },
{
    let n = rs.len();
    if n < 2 {
        return None;
    }
    if n > 0xFFFF_FFFFusize {
        return None;
    }
    let off0 = rs[0].address_offset;
    let off1 = rs[1].address_offset;
    if off1 < off0 {
        return None;
    }
    let stride = off1 - off0;
    if stride > 0xFFFF_FFFFu64 {
        return None;
    }
    // Offsets must climb by the stride, member for member.
    let mut i: usize = 2;
    while i < n
        invariant
            n == rs@.len(),
            2 <= i <= n,
            off0 == rs@[0].address_offset,
            stride == spec_stride(rs@),
            forall|j: int|
                0 <= j < i ==> (#[trigger] rs@[j])@.address_offset == off0 + j * stride,
        decreases n - i,
    {
        let prev = rs[i - 1].address_offset;
        let cur = rs[i].address_offset;
        if cur < prev || cur - prev != stride {
            proof {
                assert(prev == off0 + (i - 1) * stride);
                if rs@[i as int]@.address_offset == off0 + (i as int) * spec_stride(rs@) {
                    assert(cur as int - prev as int == stride) by (nonlinear_arith)
                        requires
                            prev == off0 + (i - 1) * stride,
                            cur == off0 + (i as int) * stride,
                    ;
                }
                assert(!spec_compactible(rs@));
            }
            return None;
        }
        proof {
            assert(cur as int == off0 + (i as int) * stride) by (nonlinear_arith)
                requires
                    prev == off0 + (i - 1) * stride,
                    cur == prev + stride,
            ;
        }
        i += 1;
    }
    // Every member must be shaped like the first.
    let mut i2: usize = 1;
    while i2 < n
        invariant
            n == rs@.len(),
            1 <= i2 <= n,
            forall|j: int| 0 <= j < i2 ==> same_shape((#[trigger] rs@[j])@, rs@[0]@),
        decreases n - i2,
    {
        if !same_shape_exec(&rs[i2], &rs[0]) {
            assert(!spec_compactible(rs@));
            return None;
        }
        i2 += 1;
    }
    assert(spec_compactible(rs@));
    let ghost ns = names_of(rs@);
    let len0 = rs[0].name.as_str().unicode_len();
    let found = find_split(rs);
    let dim: u32 = n as u32;
    let dim_increment: u32 = stride as u32;
    match found {
        Some(k) => {
            assert(first_pattern(ns, 0) == Some(k as int));
            proof {
                assert(ns[0] == rs@[0].name@);
                lemma_first_pattern_bounds(ns, 0);
            }
            let head = rs[0].name.as_str().substring_char(0, k);
            let tail = rs[0].name.as_str().substring_char(k + 1, len0);
            let tname = head.to_owned().concat("%s").concat(tail);
            let t = RegisterInfo {
                name: tname,
                description: crate::register::clone_opt_string(&rs[0].description),
                address_offset: rs[0].address_offset,
                size: rs[0].size,
                access: rs[0].access,
                reset_value: rs[0].reset_value,
                reset_mask: rs[0].reset_mask,
                derived_from: crate::register::clone_opt_string(&rs[0].derived_from),
            };
            Some((t, DimElement { dim, dim_increment, dim_index: None }))
        },
        None => {
            assert(first_pattern(ns, 0) is None);
            let mut names: Vec<String> = Vec::new();
            let mut j: usize = 0;
            while j < n
                invariant
                    n == rs@.len(),
                    ns == names_of(rs@),
                    j <= n,
                    names@.len() == j,
                    forall|t: int| 0 <= t < j ==> (#[trigger] names@[t])@ == ns[t],
                decreases n - j,
            {
                let s = rs[j].name.clone();
                let ghost old_names = names@;
                names.push(s);
                proof {
                    assert(names@ == old_names.push(s));
                    assert(names@[j as int]@ == rs@[j as int].name@);
                }
                j += 1;
            }
            proof {
                assert forall|t: int| 0 <= t < n implies names.deep_view()[t] == ns[t] by {
                    assert(names.deep_view()[t] == names@[t].deep_view());
                    assert(names@[t].deep_view() == names@[t]@);
                }
                assert(names.deep_view() =~= ns);
            }
            let t = RegisterInfo {
                name: rs[0].name.clone(),
                description: crate::register::clone_opt_string(&rs[0].description),
                address_offset: rs[0].address_offset,
                size: rs[0].size,
                access: rs[0].access,
                reset_value: rs[0].reset_value,
                reset_mask: rs[0].reset_mask,
                derived_from: crate::register::clone_opt_string(&rs[0].derived_from),
            };
            Some((t, DimElement { dim, dim_increment, dim_index: Some(names) }))
        },
    }
}

/// Whether two registers agree on everything but name and offset.
fn same_shape_exec(a: &RegisterInfo, b: &RegisterInfo) -> (r: bool)
    ensures
        r == same_shape(a@, b@),
{
    opt_str_eq(&a.description, &b.description) && opt_u32_eq(a.size, b.size) && opt_access_eq(
        a.access,
        b.access,
    ) && opt_u64_eq(a.reset_value, b.reset_value) && opt_u64_eq(a.reset_mask, b.reset_mask)
        && opt_str_eq(&a.derived_from, &b.derived_from)
}

/// Whether two optional strings hold the same text.
fn opt_str_eq(a: &Option<String>, b: &Option<String>) -> (r: bool)
    ensures
        r == (crate::opt_str_view(*a) == crate::opt_str_view(*b)),
{
    match (a, b) {
        (None, None) => true,
        (Some(x), Some(y)) => str_eq(x.as_str(), y.as_str()),
        _ => false,
    }
}

/// Whether two optional 32-bit values are equal.
fn opt_u32_eq(a: Option<u32>, b: Option<u32>) -> (r: bool)
    ensures
        r == (a == b),
{
    match (a, b) {
        (None, None) => true,
        (Some(x), Some(y)) => x == y,
        _ => false,
    }
}

/// Whether two optional 64-bit values are equal.
fn opt_u64_eq(a: Option<u64>, b: Option<u64>) -> (r: bool)
    ensures
        r == (a == b),
{
    match (a, b) {
        (None, None) => true,
        (Some(x), Some(y)) => x == y,
        _ => false,
    }
}

/// Whether two optional access policies are equal.
fn opt_access_eq(
    a: Option<crate::register::Access>,
    b: Option<crate::register::Access>,
) -> (r: bool)
    ensures
        r == (a == b),
{
    match (a, b) {
        (None, None) => true,
        (Some(x), Some(y)) => x == y,
        _ => false,
    }
}

/// Compaction inverse: compacting the expansion of a uniform-stride template
/// recovers the dimension block exactly — same count, same stride, and the
/// same index naming. Groups of fewer than two copies are left out: a single
/// copy fixes no stride.
pub proof fn lemma_compact_inverse(
    info: RegisterInfoView,
    dim: DimElementView,
    rs: Seq<RegisterInfo>,
)
    requires
        2 <= dim.dim,
        info.address_offset + (dim.dim - 1) * dim.dim_increment <= u64::MAX,
        dim.dim_index matches Some(ns) ==> ns.len() == dim.dim && first_pattern(ns, 0) is None,
        rs.len() == dim.dim,
        forall|i: int|
            0 <= i < rs.len() ==> (#[trigger] rs[i])@ == (RegisterInfoView {
                name: spec_expanded_name(info.name, dim.dim_index, i as nat),
                address_offset: (info.address_offset + i * dim.dim_increment) as u64,
                ..info
            }),
    ensures
        spec_compactible(rs),
        spec_stride(rs) == dim.dim_increment,
        (match first_pattern(names_of(rs), 0) {
            Some(_) => None::<Seq<Seq<char>>>,
            None => Some(names_of(rs)),
        }) == dim.dim_index,
{
    let ns = names_of(rs);
    // Offsets: the copies sit exactly one stride apart, so the candidate
    // stride is the declared one and the progression holds.
    assert forall|i: int| 0 <= i < rs.len() implies (#[trigger] rs[i])@.address_offset
        == info.address_offset + i * dim.dim_increment by {
        assert(0 <= i * dim.dim_increment <= (dim.dim - 1) * dim.dim_increment)
            by (nonlinear_arith)
            requires
                0 <= i < dim.dim as int,
                dim.dim_increment >= 0,
        ;
    }
    assert(rs[0]@.address_offset == info.address_offset);
    assert(rs[1]@.address_offset == info.address_offset + 1 * dim.dim_increment);
    assert(spec_stride(rs) == dim.dim_increment);
    assert forall|i: int| 0 <= i < rs.len() implies (#[trigger] rs[i])@.address_offset
        == rs[0]@.address_offset + i * spec_stride(rs) by {
        assert(rs[i]@.address_offset == info.address_offset + i * dim.dim_increment);
    }
    assert(spec_compactible(rs));
    match dim.dim_index {
        Some(idx) => {
            assert(ns =~= idx);
        },
        None => {
            // The generated names follow the numeric rule: split at the end
            // of the head the placeholder rule fixes.
            let name = info.name;
            let k: int = match first_pct_from(name, 0) {
                Some(pk) => pk,
                None => name.len() as int,
            };
            let p = match first_pct_from(name, 0) {
                Some(pk) => name.subrange(0, pk),
                None => name,
            };
            let q = match first_pct_from(name, 0) {
                Some(pk) => name.subrange(pk + 2, name.len() as int),
                None => Seq::<char>::empty(),
            };
            lemma_first_pct_bounds(name, 0);
            assert(forall|i: int|
                0 <= i < rs.len() ==> #[trigger] ns[i] == p + dec_str(i as nat) + q);
            assert(ns[0] == p + dec_str(0) + q);
            assert(dec_str(0) == seq!['0']);
            assert(ns[0].len() == p.len() + 1 + q.len());
            assert(p =~= ns[0].subrange(0, k));
            assert(q =~= ns[0].subrange(k + 1, ns[0].len() as int));
            assert(pattern_at(ns, k));
            lemma_first_pattern_finds(ns, 0, k);
        },
    }
}

} // verus!
