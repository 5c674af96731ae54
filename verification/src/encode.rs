//! The encode layer: build output elements from entities. The exact mirror of
//! the parse layer — every property an entity can hold lands in a child
//! element or attribute, numerals normalized to decimal.

use crate::enumeratedvalue::{EnumeratedValue, EnumeratedValueView};
use crate::register::{Access, DimElement, DimElementView, Register, RegisterInfo, RegisterInfoView};
use crate::text::{dec_str, u64_to_dec};
use crate::tree::{attrs_view, spec_merge_attrs, spec_set_attr, Element, NodeKind};
use vstd::prelude::*;

verus! {

/// A leaf element: the given tag around the given text, nothing else.
pub open spec fn is_text_elem(e: Element, tag: Seq<char>, text: Seq<char>) -> bool {
    &&& e.kind == NodeKind::Element
    &&& e.name@ == tag
    &&& e.attributes@.len() == 0
    &&& e.text matches Some(t) && t@ == text
    &&& e.children@.len() == 0
}

/// The textual spelling of a boolean on the encode side.
pub open spec fn bool_str(b: bool) -> Seq<char> {
    if b {
        "true"@
    } else {
        "false"@
    }
}

/// The textual spelling of an access policy.
pub open spec fn access_str(a: Access) -> Seq<char> {
    match a {
        Access::ReadOnly => "read-only"@,
        Access::ReadWrite => "read-write"@,
        Access::WriteOnly => "write-only"@,
        Access::WriteOnce => "writeOnce"@,
        Access::ReadWriteOnce => "read-writeOnce"@,
    }
}

/// Spell an access policy.
pub fn access_text(a: Access) -> (r: &'static str)
    ensures
        r@ == access_str(a),
{
    match a {
        Access::ReadOnly => "read-only",
        Access::ReadWrite => "read-write",
        Access::WriteOnly => "write-only",
        Access::WriteOnce => "writeOnce",
        Access::ReadWriteOnce => "read-writeOnce",
    }
}

/// How an encoded enumerated value looks: an `enumeratedValue` element whose
/// children are the name, then each optional property that is set, in a fixed
/// order.
pub open spec fn encodes_ev(v: EnumeratedValueView, e: Element) -> bool {
    let cs = e.children@;
    let n_desc: int = if v.description is Some {
        1
    } else {
        0
    };
    let n_val: int = if v.value is Some {
        1
    } else {
        0
    };
    let n_def: int = if v.is_default is Some {
        1
    } else {
        0
    };
    &&& e.kind == NodeKind::Element
    &&& e.name@ == "enumeratedValue"@
    &&& e.attributes@.len() == 0
    &&& e.text is None
    &&& cs.len() == 1 + n_desc + n_val + n_def
    &&& is_text_elem(cs[0], "name"@, v.name)
    &&& (v.description matches Some(d) ==> is_text_elem(cs[1], "description"@, d))
    &&& (v.value matches Some(x) ==> is_text_elem(cs[1 + n_desc], "value"@, dec_str(x as nat)))
    &&& (v.is_default matches Some(b) ==> is_text_elem(
        cs[1 + n_desc + n_val],
        "isDefault"@,
        bool_str(b),
    ))
}

/// Encode one enumerated value.
pub fn encode_enumerated_value(ev: &EnumeratedValue) -> (r: Element)
    ensures
        encodes_ev(ev@, r),
{
    let mut e = Element::new("enumeratedValue");
    e.append_child(Element::new_with_text("name", ev.name.as_str()));
    if let Some(d) = &ev.description {
        e.append_child(Element::new_with_text("description", d.as_str()));
    }
    if let Some(x) = ev.value {
        let t = u64_to_dec(x);
        e.append_child(Element::new_with_text("value", t.as_str()));
    }
    if let Some(b) = ev.is_default {
        e.append_child(Element::new_with_text("isDefault", if b {
            "true"
        } else {
            "false"
        }));
    }
    e
}

/// Join names with commas, from position `i` on.
pub open spec fn spec_join_from(ns: Seq<Seq<char>>, i: int) -> Seq<char>
    decreases ns.len() - i,
{
    if i < 0 || i >= ns.len() {
        Seq::<char>::empty()
    } else if i == ns.len() - 1 {
        ns[i]
    } else {
        ns[i] + seq![','] + spec_join_from(ns, i + 1)
    }
}

/// The comma-separated index-name list.
pub open spec fn spec_join_comma(ns: Seq<Seq<char>>) -> Seq<char> {
    spec_join_from(ns, 0)
}

/// Join the names from position `i` on with commas.
fn join_from(ns: &Vec<String>, i: usize) -> (r: String)
    requires
        i <= ns@.len(),
    ensures
        r@ == spec_join_from(ns.deep_view(), i as int),
    decreases ns@.len() - i,
{
    if i >= ns.len() {
        String::new()
    } else if i == ns.len() - 1 {
        ns[i].clone()
    } else {
        let rest = join_from(ns, i + 1);
        let r = ns[i].clone().concat(",").concat(rest.as_str());
        proof {
            reveal_strlit(",");
            assert(r@ =~= spec_join_from(ns.deep_view(), i as int));
        }
        r
    }
}

/// Number of child elements the dimension block encodes to.
pub open spec fn dim_child_count(d: DimElementView) -> int {
    if d.dim_index is Some {
        3
    } else {
        2
    }
}

/// How an encoded dimension block looks: `dim`, `dimIncrement`, and the
/// comma-joined `dimIndex` when an index list is declared.
pub open spec fn encodes_dim_fields(d: DimElementView, cs: Seq<Element>) -> bool {
    &&& cs.len() == dim_child_count(d)
    &&& is_text_elem(cs[0], "dim"@, dec_str(d.dim as nat))
    &&& is_text_elem(cs[1], "dimIncrement"@, dec_str(d.dim_increment as nat))
    &&& (d.dim_index matches Some(ns) ==> is_text_elem(cs[2], "dimIndex"@, spec_join_comma(ns)))
}

/// Encode a dimension block as a carrier element ready to merge into the
/// entity's own element.
pub fn encode_dim(d: &DimElement) -> (r: Element)
    ensures
        r.kind == NodeKind::Element,
        r.attributes@.len() == 0,
        r.text is None,
        encodes_dim_fields(d@, r.children@),
{
    let mut e = Element::new("dimElement");
    let t0 = u64_to_dec(d.dim as u64);
    e.append_child(Element::new_with_text("dim", t0.as_str()));
    let t1 = u64_to_dec(d.dim_increment as u64);
    e.append_child(Element::new_with_text("dimIncrement", t1.as_str()));
    if let Some(ns) = &d.dim_index {
        let joined = join_from(ns, 0);
        e.append_child(Element::new_with_text("dimIndex", joined.as_str()));
    }
    e
}

/// Number of child elements a register's own properties encode to.
pub open spec fn reginfo_child_count(v: RegisterInfoView) -> int {
    2 + (if v.description is Some {
        1int
    } else {
        0
    }) + (if v.size is Some {
        1int
    } else {
        0
    }) + (if v.access is Some {
        1int
    } else {
        0
    }) + (if v.reset_value is Some {
        1int
    } else {
        0
    }) + (if v.reset_mask is Some {
        1int
    } else {
        0
    })
}

/// How a register's own properties encode: name, optional description,
/// address offset, then each optional numeric property that is set, in a
/// fixed order.
pub open spec fn encodes_reginfo_fields(v: RegisterInfoView, cs: Seq<Element>) -> bool {
    let n_desc: int = if v.description is Some {
        1
    } else {
        0
    };
    let n_size: int = if v.size is Some {
        1
    } else {
        0
    };
    let n_acc: int = if v.access is Some {
        1
    } else {
        0
    };
    let n_rv: int = if v.reset_value is Some {
        1
    } else {
        0
    };
    let i_off = 1 + n_desc;
    let i_size = i_off + 1;
    let i_acc = i_size + n_size;
    let i_rv = i_acc + n_acc;
    let i_rm = i_rv + n_rv;
    &&& cs.len() == reginfo_child_count(v)
    &&& is_text_elem(cs[0], "name"@, v.name)
    &&& (v.description matches Some(d) ==> is_text_elem(cs[1], "description"@, d))
    &&& is_text_elem(cs[i_off], "addressOffset"@, dec_str(v.address_offset as nat))
    &&& (v.size matches Some(s) ==> is_text_elem(cs[i_size], "size"@, dec_str(s as nat)))
    &&& (v.access matches Some(a) ==> is_text_elem(cs[i_acc], "access"@, access_str(a)))
    &&& (v.reset_value matches Some(x) ==> is_text_elem(cs[i_rv], "resetValue"@, dec_str(x as nat)))
    &&& (v.reset_mask matches Some(x) ==> is_text_elem(cs[i_rm], "resetMask"@, dec_str(x as nat)))
}

/// The attribute list a register encodes to: the derivation reference, when
/// one is declared.
pub open spec fn reginfo_attrs(v: RegisterInfoView) -> Seq<(Seq<char>, Seq<char>)> {
    match v.derived_from {
        Some(p) => seq![("derivedFrom"@, p)],
        None => Seq::<(Seq<char>, Seq<char>)>::empty(),
    }
}

/// Encode a register's own properties.
pub fn encode_register_info(info: &RegisterInfo) -> (r: Element)
    ensures
        r.kind == NodeKind::Element,
        r.name@ == "register"@,
        r.text is None,
        attrs_view(r.attributes@) == reginfo_attrs(info@),
        encodes_reginfo_fields(info@, r.children@),
{
    let mut e = Element::new("register");
    if let Some(p) = &info.derived_from {
        e.set_attribute(String::from_str("derivedFrom"), p.clone());
        proof {
            assert(attrs_view(e.attributes@) =~= reginfo_attrs(info@));
        }
    }
    e.append_child(Element::new_with_text("name", info.name.as_str()));
    if let Some(d) = &info.description {
        e.append_child(Element::new_with_text("description", d.as_str()));
    }
    let t_off = u64_to_dec(info.address_offset);
    e.append_child(Element::new_with_text("addressOffset", t_off.as_str()));
    if let Some(s) = info.size {
        let t = u64_to_dec(s as u64);
        e.append_child(Element::new_with_text("size", t.as_str()));
    }
    if let Some(a) = info.access {
        e.append_child(Element::new_with_text("access", access_text(a)));
    }
    if let Some(x) = info.reset_value {
        let t = u64_to_dec(x);
        e.append_child(Element::new_with_text("resetValue", t.as_str()));
    }
    if let Some(x) = info.reset_mask {
        let t = u64_to_dec(x);
        e.append_child(Element::new_with_text("resetMask", t.as_str()));
    }
    e
}

impl Register {
    /// Encode a register declaration: a single register encodes its own
    /// properties; an array encodes the dimension block followed by the
    /// template's properties, merged into one `register` element exactly as
    /// they are parsed back.
    pub fn encode(&self) -> (r: Element)
        ensures
            r.kind == NodeKind::Element,
            r.name@ == "register"@,
            r.text is None,
            match self {
                Register::Single(info) => {
                    &&& attrs_view(r.attributes@) == reginfo_attrs(info@)
                    &&& encodes_reginfo_fields(info@, r.children@)
                },
                Register::Array(info, dim) => {
                    &&& attrs_view(r.attributes@) == reginfo_attrs(info@)
                    &&& r.children@.len() == dim_child_count(dim@) + reginfo_child_count(info@)
                    &&& encodes_dim_fields(dim@, r.children@.subrange(0, dim_child_count(dim@)))
                    &&& encodes_reginfo_fields(
                        info@,
                        r.children@.subrange(dim_child_count(dim@), r.children@.len() as int),
                    )
                },
            },
    {
        match self {
            Register::Single(info) => encode_register_info(info),
            Register::Array(info, dim) => {
                let mut base = Element::new("register");
                let ghost a0 = attrs_view(base.attributes@);
                let d_el = encode_dim(dim);
                let ghost bd = attrs_view(d_el.attributes@);
                base.merge(d_el);
                let ghost a1 = attrs_view(base.attributes@);
                let i_el = encode_register_info(info);
                let ghost bi = attrs_view(i_el.attributes@);
                base.merge(i_el);
                proof {
                    let dc = dim_child_count(dim@);
                    let cs = base.children@;
                    assert(cs.subrange(0, dc) =~= cs.subrange(0, cs.len() as int).subrange(0, dc));
                    let e0 = Seq::<(Seq<char>, Seq<char>)>::empty();
                    assert(a0 =~= e0);
                    assert(bd =~= e0);
                    assert(a1 == spec_merge_attrs(a0, bd));
                    let ra = reginfo_attrs(info@);
                    assert(bi == ra);
                    assert(attrs_view(base.attributes@) == spec_merge_attrs(a1, bi));
                    match info@.derived_from {
                        None => {
                            assert(ra =~= e0);
                            assert(spec_merge_attrs(a1, bi) == a1);
                        },
                        Some(p) => {
                            assert(ra.len() == 1);
                            assert(ra.drop_first() =~= e0);
                            assert(spec_merge_attrs(a1, ra) == spec_merge_attrs(
                                spec_set_attr(a1, ra[0].0, ra[0].1),
                                ra.drop_first(),
                            ));
                            assert(spec_merge_attrs(spec_set_attr(a1, ra[0].0, ra[0].1), e0)
                                == spec_set_attr(a1, ra[0].0, ra[0].1));
                            assert(spec_set_attr(a1, ra[0].0, ra[0].1) =~= ra);
                        },
                    }
                }
                base
            },
        }
    }
}

} // verus!
