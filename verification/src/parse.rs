//! The parse layer for enumerated values: walk the element tree, apply the
//! primitive parsers and the builder, and tag every error with the node it
//! arose at.

use crate::encode::{bool_str, encodes_ev};
use crate::enumeratedvalue::{
    spec_build, EnumeratedValue, EnumeratedValueBuilderView, EnumeratedValueView,
};
use crate::num::{
    bool_token, lemma_dec_str_numeral,
};
use crate::text::{lemma_trim_idempotent, lemma_trim_no_ws, lower_seq, trim_spec};
use crate::tree::{
    is_named_elem, lemma_spec_get_child_at, lemma_spec_get_child_none, spec_get_child,
    spec_get_child_bool, spec_get_child_text_opt, spec_get_child_u64, Element, NodeKind, ParseError,
    ParseErrorView, SvdErrorAt, SvdErrorAtView,
};
use crate::ValidateLevel;
use vstd::prelude::*;

verus! {

/// What parsing an `enumeratedValue` element yields: the name is required,
/// description, value and default marker are optional; a present child with
/// malformed content is an error at that child; the assembled entity is then
/// validated at the requested tier, a rejection tagged with the element
/// itself.
pub open spec fn spec_parse_ev(e: Element, lvl: ValidateLevel) -> Result<
    EnumeratedValueView,
    SvdErrorAtView,
> {
    match spec_get_child_text_opt(e, "name"@) {
        None => Err(SvdErrorAtView { error: ParseErrorView::MissingTag("name"@), id: e.id }),
        Some(n) => {
            let desc = spec_get_child_text_opt(e, "description"@);
            let vres: Result<Option<u64>, SvdErrorAtView> = if spec_get_child(
                e.children@,
                "value"@,
            ) is Some {
                match spec_get_child_u64(e, "value"@) {
                    Ok(x) => Ok(Some(x)),
                    Err(er) => Err(er),
                }
            } else {
                Ok(None)
            };
            match vres {
                Err(er) => Err(er),
                Ok(value) => {
                    let bres: Result<Option<bool>, SvdErrorAtView> = if spec_get_child(
                        e.children@,
                        "isDefault"@,
                    ) is Some {
                        match spec_get_child_bool(e, "isDefault"@) {
                            Ok(b) => Ok(Some(b)),
                            Err(er) => Err(er),
                        }
                    } else {
                        Ok(None)
                    };
                    match bres {
                        Err(er) => Err(er),
                        Ok(isdef) => {
                            let b = EnumeratedValueBuilderView {
                                name: Some(n),
                                description: desc,
                                value: value,
                                is_default: isdef,
                            };
                            match spec_build(b, lvl) {
                                Ok(v) => Ok(v),
                                Err(se) => Err(
                                    SvdErrorAtView { error: ParseErrorView::Svd(se), id: e.id },
                                ),
                            }
                        },
                    }
                },
            }
        },
    }
}

/// Parse one `enumeratedValue` element at the given validation tier.
pub fn parse_enumerated_value(e: &Element, lvl: ValidateLevel) -> (r: Result<
    EnumeratedValue,
    SvdErrorAt,
>)
    ensures
        match r {
            Ok(ev) => spec_parse_ev(*e, lvl) == Ok::<EnumeratedValueView, SvdErrorAtView>(ev@),
            Err(err) => spec_parse_ev(*e, lvl) == Err::<EnumeratedValueView, SvdErrorAtView>(
                err@,
            ),
        },
{
    let name = e.get_child_text("name")?;
    let desc = e.get_child_text_opt("description")?;
    let value = if e.get_child("value").is_some() {
        Some(e.get_child_u64("value")?)
    } else {
        None
    };
    let is_default = if e.get_child("isDefault").is_some() {
        Some(e.get_child_bool("isDefault")?)
    } else {
        None
    };
    match EnumeratedValue::builder().name(name).description(desc).value(value).is_default(
        is_default,
    ).build(lvl) {
        Ok(ev) => Ok(ev),
        Err(se) => Err(SvdErrorAt { error: ParseError::Svd(se), id: e.id }),
    }
}

/// Abstract values of a list of parsed entities.
pub open spec fn evs_view(vs: Seq<EnumeratedValue>) -> Seq<EnumeratedValueView> {
    vs.map_values(|v: EnumeratedValue| v@)
}

/// Abstract values of a list of tagged errors.
pub open spec fn errs_view(es: Seq<SvdErrorAt>) -> Seq<SvdErrorAtView> {
    es.map_values(|e: SvdErrorAt| e@)
}

/// What parsing a child list yields: each `enumeratedValue` child either
/// contributes an entity or a tagged error, in document order; other children
/// are passed over. No child's failure stops its siblings.
pub open spec fn spec_parse_ev_list(cs: Seq<Element>, lvl: ValidateLevel) -> (
    Seq<EnumeratedValueView>,
    Seq<SvdErrorAtView>,
)
    decreases cs.len(),
{
    if cs.len() == 0 {
        (Seq::<EnumeratedValueView>::empty(), Seq::<SvdErrorAtView>::empty())
    } else {
        let (vs, es) = spec_parse_ev_list(cs.drop_last(), lvl);
        if is_named_elem(cs.last(), "enumeratedValue"@) {
            match spec_parse_ev(cs.last(), lvl) {
                Ok(v) => (vs.push(v), es),
                Err(e) => (vs, es.push(e)),
            }
        } else {
            (vs, es)
        }
    }
}

/// Parse every `enumeratedValue` child of an element: entities and tagged
/// errors are collected side by side, so one malformed entry never hides its
/// siblings.
pub fn parse_enumerated_values(e: &Element, lvl: ValidateLevel) -> (r: (
    Vec<EnumeratedValue>,
    Vec<SvdErrorAt>,
))
    ensures
        (evs_view(r.0@), errs_view(r.1@)) == spec_parse_ev_list(e.children@, lvl),
{
    let mut vals: Vec<EnumeratedValue> = Vec::new();
    let mut errs: Vec<SvdErrorAt> = Vec::new();
    let n = e.children.len();
    let mut i: usize = 0;
    proof {
        assert(e.children@.subrange(0, 0) =~= Seq::<Element>::empty());
        assert(evs_view(vals@) =~= Seq::<EnumeratedValueView>::empty());
        assert(errs_view(errs@) =~= Seq::<SvdErrorAtView>::empty());
    }
    while i < n
        invariant
            n == e.children@.len(),
            i <= n,
            (evs_view(vals@), errs_view(errs@)) == spec_parse_ev_list(
                e.children@.subrange(0, i as int),
                lvl,
            ),
        decreases n - i,
    {
        let c = &e.children[i];
        let ghost done = e.children@.subrange(0, i as int);
        let ghost next = e.children@.subrange(0, i + 1);
        proof {
            assert(next.drop_last() =~= done);
            assert(next.last() == e.children@[i as int]);
        }
        let named = matches!(c.kind, NodeKind::Element) && crate::text::str_eq(
            c.name.as_str(),
            "enumeratedValue",
        );
        if named {
            match parse_enumerated_value(c, lvl) {
                Ok(v) => {
                    let ghost old_vs = evs_view(vals@);
                    vals.push(v);
                    proof {
                        assert(evs_view(vals@) =~= old_vs.push(v@));
                    }
                },
                Err(er) => {
                    let ghost old_es = errs_view(errs@);
                    errs.push(er);
                    proof {
                        assert(errs_view(errs@) =~= old_es.push(
                            errs@[errs@.len() - 1]@,
                        ));
                    }
                },
            }
        }
        i += 1;
    }
    proof {
        assert(e.children@.subrange(0, n as int) =~= e.children@);
    }
    (vals, errs)
}

/// Where each property of an encoded enumerated value is found again: the
/// lookup of every tag lands on the child the encoder wrote, and a property
/// that was not set has no child at all.
proof fn lemma_ev_children_lookup(v: EnumeratedValueView, e: Element)
    requires
        encodes_ev(v, e),
    ensures
        spec_get_child(e.children@, "name"@) == Some(e.children@[0]),
        v.description matches Some(d) ==> spec_get_child(e.children@, "description"@) == Some(
            e.children@[1],
        ),
        v.description is None ==> spec_get_child(e.children@, "description"@) is None,
        v.value is Some ==> spec_get_child(e.children@, "value"@) == Some(
            e.children@[1 + (if v.description is Some { 1int } else { 0 })],
        ),
        v.value is None ==> spec_get_child(e.children@, "value"@) is None,
        v.is_default is Some ==> spec_get_child(e.children@, "isDefault"@) == Some(
            e.children@[1 + (if v.description is Some { 1int } else { 0 }) + (if v.value is Some {
                1int
            } else {
                0
            })],
        ),
        v.is_default is None ==> spec_get_child(e.children@, "isDefault"@) is None,
{
    reveal_strlit("name");
    reveal_strlit("description");
    reveal_strlit("value");
    reveal_strlit("isDefault");
    // The four tags have pairwise different lengths.
    assert("name"@.len() == 4);
    assert("description"@.len() == 11);
    assert("value"@.len() == 5);
    assert("isDefault"@.len() == 9);
    let cs = e.children@;
    let nd: int = if v.description is Some {
        1
    } else {
        0
    };
    let nv: int = if v.value is Some {
        1
    } else {
        0
    };
    let iv = 1 + nd;
    let ib = 1 + nd + nv;
    // The four tags have pairwise different lengths, so no child is found
    // under a tag the encoder did not write it under.
    lemma_spec_get_child_at(cs, "name"@, 0);
    if v.description is Some {
        assert(!is_named_elem(cs[0], "description"@));
        lemma_spec_get_child_at(cs, "description"@, 1);
    } else {
        assert forall|j: int| 0 <= j < cs.len() implies !is_named_elem(
            #[trigger] cs[j],
            "description"@,
        ) by {
            if j == 0 {
            } else if v.value is Some && j == iv {
            } else if v.is_default is Some && j == ib {
            }
        }
        lemma_spec_get_child_none(cs, "description"@);
    }
    if v.value is Some {
        assert forall|j: int| 0 <= j < iv implies !is_named_elem(#[trigger] cs[j], "value"@) by {
            if j == 0 {
            } else if v.description is Some && j == 1 {
            }
        }
        lemma_spec_get_child_at(cs, "value"@, iv);
    } else {
        assert forall|j: int| 0 <= j < cs.len() implies !is_named_elem(
            #[trigger] cs[j],
            "value"@,
        ) by {
            if j == 0 {
            } else if v.description is Some && j == 1 {
            } else if v.is_default is Some && j == ib {
            }
        }
        lemma_spec_get_child_none(cs, "value"@);
    }
    if v.is_default is Some {
        assert forall|j: int| 0 <= j < ib implies !is_named_elem(
            #[trigger] cs[j],
            "isDefault"@,
        ) by {
            if j == 0 {
            } else if v.description is Some && j == 1 {
            } else if v.value is Some && j == iv {
            }
        }
        lemma_spec_get_child_at(cs, "isDefault"@, ib);
    } else {
        assert forall|j: int| 0 <= j < cs.len() implies !is_named_elem(
            #[trigger] cs[j],
            "isDefault"@,
        ) by {
            if j == 0 {
            } else if v.description is Some && j == 1 {
            } else if v.value is Some && j == iv {
            }
        }
        lemma_spec_get_child_none(cs, "isDefault"@);
    }
}

/// The boolean spellings the encoder writes read back as the boolean they
/// spell, and they carry no whitespace to trim away.
proof fn lemma_bool_str_round_trip(b: bool)
    ensures
        trim_spec(bool_str(b)) == bool_str(b),
        bool_token(bool_str(b)) == Some(b),
{
    reveal_strlit("true");
    reveal_strlit("false");
    reveal_strlit("1");
    reveal_strlit("0");
    reveal_strlit("enabled");
    reveal_strlit("disabled");
    if b {
        assert(forall|i: int| 0 <= i < "true"@.len() ==> !crate::text::is_ws(#[trigger] "true"@[i]));
        lemma_trim_no_ws("true"@);
        assert(lower_seq("true"@) =~= "true"@);
    } else {
        assert(forall|i: int|
            0 <= i < "false"@.len() ==> !crate::text::is_ws(#[trigger] "false"@[i]));
        lemma_trim_no_ws("false"@);
        assert(lower_seq("false"@) =~= "false"@);
        assert(lower_seq("false"@) != "true"@);
        assert(lower_seq("false"@) != "1"@);
        assert(lower_seq("false"@) != "enabled"@);
    }
}

/// Round-trip: an entity obtained from one successful parse re-parses from
/// its own encoding to the very same abstract value. The textual spelling of
/// numerals and booleans is normalized on the way, the entity is not.
pub proof fn lemma_ev_round_trip(t: Element, v: EnumeratedValueView, e: Element, lvl: ValidateLevel)
    requires
        spec_parse_ev(t, lvl) == Ok::<EnumeratedValueView, SvdErrorAtView>(v),
        encodes_ev(v, e),
    ensures
        spec_parse_ev(e, ValidateLevel::Disabled) == Ok::<EnumeratedValueView, SvdErrorAtView>(v),
{
    let cs = e.children@;
    // A parsed entity is already normalized: its name and description came
    // out of the trimming reader, and an empty description was dropped.
    match spec_get_child(t.children@, "name"@) {
        Some(c) => match c.text {
            Some(tx) => {
                lemma_trim_idempotent(tx@);
            },
            None => {},
        },
        None => {},
    }
    assert(trim_spec(v.name) == v.name);
    if v.description is Some {
        match spec_get_child(t.children@, "description"@) {
            Some(c) => match c.text {
                Some(tx) => {
                    lemma_trim_idempotent(tx@);
                },
                None => {},
            },
            None => {},
        }
    }
    assert(v.description matches Some(d) ==> trim_spec(d) == d && d.len() > 0);
    // Each encoded child is found again under its own tag.
    lemma_ev_children_lookup(v, e);
    assert(spec_get_child_text_opt(e, "name"@) == Some(v.name));
    match v.description {
        Some(d) => {
            assert(spec_get_child_text_opt(e, "description"@) == Some(d));
        },
        None => {
            assert(spec_get_child_text_opt(e, "description"@) is None);
        },
    }
    match v.value {
        Some(x) => {
            lemma_dec_str_numeral(x);
            assert(spec_get_child_u64(e, "value"@) == Ok::<u64, SvdErrorAtView>(x));
        },
        None => {},
    }
    match v.is_default {
        Some(b) => {
            lemma_bool_str_round_trip(b);
            assert(spec_get_child_bool(e, "isDefault"@) == Ok::<bool, SvdErrorAtView>(b));
        },
        None => {},
    }
    // Rebuilding from those properties reproduces the entity: the name is
    // present, the description needs no renewed normalization, and disabled
    // validation accepts it.
    let b = EnumeratedValueBuilderView {
        name: Some(v.name),
        description: v.description,
        value: v.value,
        is_default: v.is_default,
    };
    assert(spec_build(b, ValidateLevel::Disabled) == Ok::<
        EnumeratedValueView,
        crate::SvdErrorView,
    >(v));
}

} // verus!
