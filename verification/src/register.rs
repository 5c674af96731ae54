//! Registers: the single/array entity pair, derivation merging and
//! dimensioned-array expansion.

use crate::text::{dec_str, lemma_dec_str_injective, u64_to_dec};
use crate::{opt_str_view, SvdError, ValidateLevel};
use vstd::prelude::*;

verus! {

/// Access policy of a register.
#[derive(Clone, Copy, Debug, PartialEq, Eq, Structural)]
pub enum Access {
    ReadOnly,
    ReadWrite,
    WriteOnly,
    WriteOnce,
    ReadWriteOnce,
}

/// The properties of one concrete register.
#[derive(Debug)]
pub struct RegisterInfo {
    /// The register's name; may hold the `%s` placeholder inside an array.
    pub name: String,
    /// Free-form description.
    pub description: Option<String>,
    /// Address offset relative to the enclosing element, in bytes.
    pub address_offset: u64,
    /// Bit width.
    pub size: Option<u32>,
    /// Access policy.
    pub access: Option<Access>,
    /// Register value at reset.
    pub reset_value: Option<u64>,
    /// Which reset-value bits are meaningful.
    pub reset_mask: Option<u64>,
    /// Path of the entity this one inherits unset properties from.
    pub derived_from: Option<String>,
}

/// Abstract value of a [`RegisterInfo`].
pub ghost struct RegisterInfoView {
    pub name: Seq<char>,
    pub description: Option<Seq<char>>,
    pub address_offset: u64,
    pub size: Option<u32>,
    pub access: Option<Access>,
    pub reset_value: Option<u64>,
    pub reset_mask: Option<u64>,
    pub derived_from: Option<Seq<char>>,
}

impl View for RegisterInfo {
    type V = RegisterInfoView;

    open spec fn view(&self) -> RegisterInfoView {
        RegisterInfoView {
            name: self.name@,
            description: opt_str_view(self.description),
            address_offset: self.address_offset,
            size: self.size,
            access: self.access,
            reset_value: self.reset_value,
            reset_mask: self.reset_mask,
            derived_from: opt_str_view(self.derived_from),
        }
    }
}

/// The dimension block of an array declaration: how many copies, how far
/// apart, and how each copy is named.
#[derive(Debug)]
pub struct DimElement {
    /// Number of copies.
    pub dim: u32,
    /// Address stride between two copies, in bytes.
    pub dim_increment: u32,
    /// Explicit index names; `None` means numeric `0..dim` naming.
    pub dim_index: Option<Vec<String>>,
}

/// Abstract value of a [`DimElement`].
pub ghost struct DimElementView {
    pub dim: u32,
    pub dim_increment: u32,
    pub dim_index: Option<Seq<Seq<char>>>,
}

impl View for DimElement {
    type V = DimElementView;

    open spec fn view(&self) -> DimElementView {
        DimElementView {
            dim: self.dim,
            dim_increment: self.dim_increment,
            dim_index: match self.dim_index {
                Some(v) => Some(v.deep_view()),
                None => None,
            },
        }
    }
}

/// A register declaration: one concrete register, or an array of them.
#[derive(Debug)]
pub enum Register {
    /// One register.
    Single(RegisterInfo),
    /// `dim` copies of a template, `dim_increment` bytes apart.
    Array(RegisterInfo, DimElement),
}

/// Clone an optional owned string.
pub(crate) fn clone_opt_string(o: &Option<String>) -> (r: Option<String>)
    ensures
        opt_str_view(r) == opt_str_view(*o),
{
    match o {
        Some(s) => Some(s.clone()),
        None => None,
    }
}

/// Field-wise override: every property the derived entity sets explicitly
/// wins; every property it leaves unset is taken from the base. The name,
/// the address offset and the reference itself always stay the derived
/// entity's own.
pub open spec fn spec_merge_derived(d: RegisterInfoView, base: RegisterInfoView) -> RegisterInfoView {
    RegisterInfoView {
        name: d.name,
        address_offset: d.address_offset,
        derived_from: d.derived_from,
        description: if d.description is Some {
            d.description
        } else {
            base.description
        },
        size: if d.size is Some {
            d.size
        } else {
            base.size
        },
        access: if d.access is Some {
            d.access
        } else {
            base.access
        },
        reset_value: if d.reset_value is Some {
            d.reset_value
        } else {
            base.reset_value
        },
        reset_mask: if d.reset_mask is Some {
            d.reset_mask
        } else {
            base.reset_mask
        },
    }
}

/// Merge a base register's properties into a derived one, field-wise.
pub fn merge_derived(d: &RegisterInfo, base: &RegisterInfo) -> (r: RegisterInfo)
    ensures
        r@ == spec_merge_derived(d@, base@),
{
    RegisterInfo {
        name: d.name.clone(),
        address_offset: d.address_offset,
        derived_from: clone_opt_string(&d.derived_from),
        description: if d.description.is_some() {
            clone_opt_string(&d.description)
        } else {
            clone_opt_string(&base.description)
        },
        size: if d.size.is_some() {
            d.size
        } else {
            base.size
        },
        access: if d.access.is_some() {
            d.access
        } else {
            base.access
        },
        reset_value: if d.reset_value.is_some() {
            d.reset_value
        } else {
            base.reset_value
        },
        reset_mask: if d.reset_mask.is_some() {
            d.reset_mask
        } else {
            base.reset_mask
        },
    }
}

/// Derivation idempotence: once a derived entity has taken the base's
/// properties, merging the same base in again changes nothing — the explicit
/// field set stabilizes after one pass.
pub proof fn lemma_merge_derived_idempotent(d: RegisterInfoView, base: RegisterInfoView)
    ensures
        spec_merge_derived(spec_merge_derived(d, base), base) == spec_merge_derived(d, base),
{
}

/// The first sibling whose name equals the path, in declaration order.
pub open spec fn spec_find_sibling(rs: Seq<RegisterInfo>, path: Seq<char>) -> Option<RegisterInfo>
    decreases rs.len(),
{
    if rs.len() == 0 {
        None
    } else if rs[0].name@ == path {
        Some(rs[0])
    } else {
        spec_find_sibling(rs.drop_first(), path)
    }
}

/// When the first `i` siblings do not carry the name, the search outcome is
/// decided by the rest.
proof fn lemma_find_sibling_skip(rs: Seq<RegisterInfo>, path: Seq<char>, i: int)
    requires
        0 <= i <= rs.len(),
        forall|j: int| 0 <= j < i ==> (#[trigger] rs[j]).name@ != path,
    ensures
        spec_find_sibling(rs, path) == spec_find_sibling(rs.subrange(i, rs.len() as int), path),
    decreases i,
{
    if i > 0 {
        let t = rs.drop_first();
        assert(rs[0].name@ != path);
        assert(forall|j: int| 0 <= j < i - 1 ==> (#[trigger] t[j]).name@ != path);
        lemma_find_sibling_skip(t, path, i - 1);
        assert(t.subrange(i - 1, t.len() as int) =~= rs.subrange(i, rs.len() as int));
    } else {
        assert(rs.subrange(0, rs.len() as int) =~= rs);
    }
}

/// Find the sibling a derivation path names.
pub fn find_sibling<'a>(rs: &'a Vec<RegisterInfo>, path: &str) -> (r: Option<&'a RegisterInfo>)
    ensures
        match r {
            Some(b) => spec_find_sibling(rs@, path@) == Some(*b),
            None => spec_find_sibling(rs@, path@) is None,
        },
{
    let n = rs.len();
    let mut i: usize = 0;
    while i < n
        invariant
            n == rs@.len(),
            i <= n,
            forall|j: int| 0 <= j < i ==> (#[trigger] rs@[j]).name@ != path@,
        decreases n - i,
    {
        if crate::text::str_eq(rs[i].name.as_str(), path) {
            proof {
                lemma_find_sibling_skip(rs@, path@, i as int);
                let rest = rs@.subrange(i as int, n as int);
                assert(rest[0] == rs@[i as int]);
            }
            return Some(&rs[i]);
        }
        i += 1;
    }
    proof {
        lemma_find_sibling_skip(rs@, path@, n as int);
        assert(rs@.subrange(n as int, n as int) =~= Seq::<RegisterInfo>::empty());
    }
    None
}

/// What resolving a derivation yields: the merged entity when the path
/// resolves among the siblings; the entity unchanged at the weaker tiers when
/// it does not; an error only under strict validation.
pub open spec fn spec_resolve_derived(
    d: RegisterInfoView,
    rs: Seq<RegisterInfo>,
    lvl: ValidateLevel,
) -> Result<RegisterInfoView, crate::SvdErrorView> {
    match d.derived_from {
        None => Ok(d),
        Some(path) => match spec_find_sibling(rs, path) {
            Some(base) => Ok(spec_merge_derived(d, base@)),
            None => if lvl == ValidateLevel::Strict {
                Err(crate::SvdErrorView::UnresolvedDerivedFrom(path))
            } else {
                Ok(d)
            },
        },
    }
}

/// Resolve a derived register against its sibling list: the derived entity's
/// explicit properties win, the base fills the rest. An unresolved path is an
/// error only under strict validation; otherwise the entity stands unchanged.
pub fn resolve_derived(d: &RegisterInfo, siblings: &Vec<RegisterInfo>, lvl: ValidateLevel) -> (r:
    Result<RegisterInfo, SvdError>)
    ensures
        match r {
            Ok(out) => spec_resolve_derived(d@, siblings@, lvl) == Ok::<
                RegisterInfoView,
                crate::SvdErrorView,
            >(out@),
            Err(e) => spec_resolve_derived(d@, siblings@, lvl) == Err::<
                RegisterInfoView,
                crate::SvdErrorView,
            >(e@),
        },
{
    let path = match &d.derived_from {
        None => {
            return Ok(copy_register_info(d));
        },
        Some(p) => p,
    };
    match find_sibling(siblings, path.as_str()) {
        Some(base) => Ok(merge_derived(d, base)),
        None => {
            if lvl.is_strict() {
                Err(SvdError::UnresolvedDerivedFrom(path.clone()))
            } else {
                Ok(copy_register_info(d))
            }
        },
    }
}

/// A field-for-field copy.
fn copy_register_info(d: &RegisterInfo) -> (r: RegisterInfo)
    ensures
        r@ == d@,
{
    RegisterInfo {
        name: d.name.clone(),
        description: clone_opt_string(&d.description),
        address_offset: d.address_offset,
        size: d.size,
        access: d.access,
        reset_value: d.reset_value,
        reset_mask: d.reset_mask,
        derived_from: clone_opt_string(&d.derived_from),
    }
}

/// First position of the `%s` placeholder at or past `j`.
pub open spec fn first_pct_from(s: Seq<char>, j: int) -> Option<int>
    decreases s.len() - j,
{
    if j < 0 || j + 1 >= s.len() {
        None
    } else if s[j] == '%' && s[j + 1] == 's' {
        Some(j)
    } else {
        first_pct_from(s, j + 1)
    }
}

/// A found placeholder position lies inside the name, with `%` and `s` at
/// and after it.
pub proof fn lemma_first_pct_bounds(s: Seq<char>, j: int)
    requires
        0 <= j,
    ensures
        first_pct_from(s, j) matches Some(k) ==> j <= k && k + 1 < s.len() && s[k] == '%' && s[k
            + 1] == 's',
    decreases s.len() - j,
{
    if j + 1 >= s.len() {
    } else if s[j] == '%' && s[j + 1] == 's' {
    } else {
        lemma_first_pct_bounds(s, j + 1);
    }
}

/// The name of copy `i` when the index naming is numeric: the first `%s` is
/// replaced by the decimal index; a name without the placeholder takes the
/// index as a suffix.
pub open spec fn spec_numeric_name(name: Seq<char>, i: nat) -> Seq<char> {
    match first_pct_from(name, 0) {
        Some(k) => name.subrange(0, k) + dec_str(i) + name.subrange(k + 2, name.len() as int),
        None => name + dec_str(i),
    }
}

/// The name of copy `i`: the i-th index name verbatim when an index list is
/// declared, else the numeric naming rule.
pub open spec fn spec_expanded_name(name: Seq<char>, idx: Option<Seq<Seq<char>>>, i: nat) -> Seq<
    char,
> {
    match idx {
        Some(ns) => ns[i as int],
        None => spec_numeric_name(name, i),
    }
}

/// Find the first `%s` placeholder.
fn find_pct(name: &str) -> (r: Option<usize>)
    ensures
        match r {
            Some(k) => first_pct_from(name@, 0) == Some(k as int),
            None => first_pct_from(name@, 0) is None,
        },
{
    let n = name.unicode_len();
    if n < 2 {
        return None;
    }
    let mut j: usize = 0;
    while j + 1 < n
        invariant
            n == name@.len(),
            0 <= j,
            j + 1 <= n,
            first_pct_from(name@, 0) == first_pct_from(name@, j as int),
        decreases n - j,
    {
        if name.get_char(j) == '%' && name.get_char(j + 1) == 's' {
            return Some(j);
        }
        j += 1;
    }
    None
}

/// Build the numeric name of copy `i`.
fn numeric_name(name: &str, i: u64) -> (r: String)
    ensures
        r@ == spec_numeric_name(name@, i as nat),
{
    let n = name.unicode_len();
    let dec = u64_to_dec(i);
    match find_pct(name) {
        Some(k) => {
            proof {
                lemma_first_pct_bounds(name@, 0);
            }
            let head = name.substring_char(0, k);
            let tail = name.substring_char(k + 2, n);
            let r = head.to_owned().concat(dec.as_str()).concat(tail);
            assert(r@ =~= spec_numeric_name(name@, i as nat));
            r
        },
        None => {
            let r = name.to_owned().concat(dec.as_str());
            assert(r@ =~= spec_numeric_name(name@, i as nat));
            r
        },
    }
}

/// Expand an array declaration into its concrete copies: exactly `dim`
/// entities, named by the index rule, at offsets climbing by the stride. The
/// template itself is read only, never changed.
pub fn expand_register(info: &RegisterInfo, dim: &DimElement) -> (r: Vec<RegisterInfo>)
    requires
        dim.dim >= 1,
        dim@.dim_index matches Some(ns) ==> ns.len() == dim.dim,
        info.address_offset + (dim.dim - 1) as u64 * dim.dim_increment as u64 <= u64::MAX,
    ensures
        r@.len() == dim.dim,
        forall|i: int|
            0 <= i < dim.dim ==> (#[trigger] r@[i])@ == (RegisterInfoView {
                name: spec_expanded_name(info@.name, dim@.dim_index, i as nat),
                address_offset: (info.address_offset + i * dim.dim_increment) as u64,
                ..info@
            }),
{
    let count = dim.dim as usize;
    let mut out: Vec<RegisterInfo> = Vec::new();
    let mut i: usize = 0;
    while i < count
        invariant
            count == dim.dim,
            dim@.dim_index matches Some(ns) ==> ns.len() == dim.dim,
            info.address_offset + (dim.dim - 1) as u64 * dim.dim_increment as u64 <= u64::MAX,
            i <= count,
            out@.len() == i,
            forall|j: int|
                0 <= j < i ==> (#[trigger] out@[j])@ == (RegisterInfoView {
                    name: spec_expanded_name(info@.name, dim@.dim_index, j as nat),
                    address_offset: (info.address_offset + j * dim.dim_increment) as u64,
                    ..info@
                }),
        decreases count - i,
    {
        assert((i as u64) * (dim.dim_increment as u64) <= (dim.dim - 1) as u64 * (
        dim.dim_increment as u64)) by (nonlinear_arith)
            requires
                0 <= i < dim.dim,
        ;
        let offset = info.address_offset + (i as u64) * (dim.dim_increment as u64);
        let name = match &dim.dim_index {
            Some(ns) => {
                let s = ns[i].clone();
                assert(s@ == dim@.dim_index->Some_0[i as int]);
                s
            },
            None => numeric_name(info.name.as_str(), i as u64),
        };
        let entry = RegisterInfo {
            name,
            description: clone_opt_string(&info.description),
            address_offset: offset,
            size: info.size,
            access: info.access,
            reset_value: info.reset_value,
            reset_mask: info.reset_mask,
            derived_from: clone_opt_string(&info.derived_from),
        };
        out.push(entry);
        i += 1;
    }
    out
}

/// Two numerically generated copy names never collide: the fixed head and
/// tail around the decimal index pin the index down.
pub proof fn lemma_numeric_name_injective(name: Seq<char>, i: nat, j: nat)
    requires
        i != j,
    ensures
        spec_numeric_name(name, i) != spec_numeric_name(name, j),
{
    let a = spec_numeric_name(name, i);
    let b = spec_numeric_name(name, j);
    if a == b {
        let di = dec_str(i);
        let dj = dec_str(j);
        match first_pct_from(name, 0) {
            Some(k) => {
                lemma_first_pct_bounds(name, 0);
                let p = name.subrange(0, k);
                let q = name.subrange(k + 2, name.len() as int);
                assert(a.len() == p.len() + di.len() + q.len());
                assert(b.len() == p.len() + dj.len() + q.len());
                assert(di.len() == dj.len());
                assert(di =~= a.subrange(p.len() as int, (p.len() + di.len()) as int));
                assert(dj =~= b.subrange(p.len() as int, (p.len() + dj.len()) as int));
                lemma_dec_str_injective(i, j);
            },
            None => {
                assert(a == name + di);
                assert(b == name + dj);
                assert(di.len() == dj.len());
                assert(di =~= a.subrange(name.len() as int, a.len() as int));
                assert(dj =~= b.subrange(name.len() as int, b.len() as int));
                lemma_dec_str_injective(i, j);
            },
        }
    }
}

/// Array expansion yields pairwise-distinct names: always, under numeric
/// naming; under a declared index list, whenever the declared names are
/// themselves pairwise distinct.
pub proof fn lemma_expanded_names_distinct(
    name: Seq<char>,
    idx: Option<Seq<Seq<char>>>,
    count: nat,
    i: nat,
    j: nat,
)
    requires
        i < count,
        j < count,
        i != j,
        idx matches Some(ns) ==> ns.len() == count && ns[i as int] != ns[j as int],
    ensures
        spec_expanded_name(name, idx, i) != spec_expanded_name(name, idx, j),
{
    match idx {
        Some(ns) => {},
        None => {
            lemma_numeric_name_injective(name, i, j);
        },
    }
}

} // verus!
