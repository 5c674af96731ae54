//! The plain element tree the codec works on.
//!
//! One type serves both directions: the parse layer queries it (child by tag,
//! trimmed text, typed child values, preceding comments), and the encode
//! layer builds it (create, set attribute, append child, merge). The
//! surrounding application converts between this type and whatever concrete
//! XML library it reads with.

use crate::num::{bool_token, numeral_val, parse_bool, parse_u32, parse_u64, valid_numeral};
use crate::text::{str_eq, trim, trim_spec};
use crate::{SvdError, SvdErrorView};
use vstd::prelude::*;

verus! {

/// What a tree node is.
#[derive(Clone, Copy, Debug, PartialEq, Eq, Structural)]
pub enum NodeKind {
    /// A named element, possibly with attributes, text and children.
    Element,
    /// A comment; its words sit in `text`.
    Comment,
}

/// A node of the document tree.
#[derive(Debug)]
pub struct Element {
    /// Element or comment.
    pub kind: NodeKind,
    /// The tag name; empty for comments.
    pub name: String,
    /// Attributes in document order; `set_attribute` keeps keys unique.
    pub attributes: Vec<(String, String)>,
    /// The node's own text content (untrimmed), or the comment's words.
    pub text: Option<String>,
    /// Child nodes in document order, comments included.
    pub children: Vec<Element>,
    /// Location-identifying token for error reporting.
    pub id: u64,
}

/// Errors of the parse layer.
#[derive(Clone, Debug)]
pub enum ParseError {
    /// The named tag holds no text.
    EmptyTag(String),
    /// The named child tag is missing.
    MissingTag(String),
    /// The text is no well-formed numeral in range; carries the text.
    InvalidNumeral(String),
    /// The text is no boolean spelling; carries the text.
    InvalidBooleanValue(String),
    /// The entity model rejected the assembled entity.
    Svd(SvdError),
}

/// Abstract value of a [`ParseError`].
pub ghost enum ParseErrorView {
    EmptyTag(Seq<char>),
    MissingTag(Seq<char>),
    InvalidNumeral(Seq<char>),
    InvalidBooleanValue(Seq<char>),
    Svd(SvdErrorView),
}

impl View for ParseError {
    type V = ParseErrorView;

    open spec fn view(&self) -> ParseErrorView {
        match self {
            ParseError::EmptyTag(s) => ParseErrorView::EmptyTag(s@),
            ParseError::MissingTag(s) => ParseErrorView::MissingTag(s@),
            ParseError::InvalidNumeral(s) => ParseErrorView::InvalidNumeral(s@),
            ParseError::InvalidBooleanValue(s) => ParseErrorView::InvalidBooleanValue(s@),
            ParseError::Svd(e) => ParseErrorView::Svd(e@),
        }
    }
}

/// A parse error tagged with the identity of the node it arose at.
#[derive(Clone, Debug)]
pub struct SvdErrorAt {
    /// What went wrong.
    pub error: ParseError,
    /// The node the error belongs to.
    pub id: u64,
}

/// Abstract value of a [`SvdErrorAt`].
pub ghost struct SvdErrorAtView {
    pub error: ParseErrorView,
    pub id: u64,
}

impl View for SvdErrorAt {
    type V = SvdErrorAtView;

    open spec fn view(&self) -> SvdErrorAtView {
        SvdErrorAtView { error: self.error@, id: self.id }
    }
}

/// Whether a node is an element with the given tag.
pub open spec fn is_named_elem(e: Element, k: Seq<char>) -> bool {
    e.kind == NodeKind::Element && e.name@ == k
}

/// The first child element with the given tag, in document order.
pub open spec fn spec_get_child(cs: Seq<Element>, k: Seq<char>) -> Option<Element>
    decreases cs.len(),
{
    if cs.len() == 0 {
        None
    } else if is_named_elem(cs[0], k) {
        Some(cs[0])
    } else {
        spec_get_child(cs.drop_first(), k)
    }
}

/// When the first `i` children hold no match, the search outcome is decided
/// by the rest.
proof fn lemma_get_child_skip(cs: Seq<Element>, k: Seq<char>, i: int)
    requires
        0 <= i <= cs.len(),
        forall|j: int| 0 <= j < i ==> !is_named_elem(#[trigger] cs[j], k),
    ensures
        spec_get_child(cs, k) == spec_get_child(cs.subrange(i, cs.len() as int), k),
    decreases i,
{
    if i > 0 {
        let t = cs.drop_first();
        assert(!is_named_elem(cs[0], k));
        assert(forall|j: int| 0 <= j < i - 1 ==> !is_named_elem(#[trigger] t[j], k));
        lemma_get_child_skip(t, k, i - 1);
        assert(t.subrange(i - 1, t.len() as int) =~= cs.subrange(i, cs.len() as int));
    } else {
        assert(cs.subrange(0, cs.len() as int) =~= cs);
    }
}

/// When the child at `i` matches and none before it does, the search finds
/// exactly that child.
pub proof fn lemma_spec_get_child_at(cs: Seq<Element>, k: Seq<char>, i: int)
    requires
        0 <= i < cs.len(),
        is_named_elem(cs[i], k),
        forall|j: int| 0 <= j < i ==> !is_named_elem(#[trigger] cs[j], k),
    ensures
        spec_get_child(cs, k) == Some(cs[i]),
{
    lemma_get_child_skip(cs, k, i);
    let rest = cs.subrange(i, cs.len() as int);
    assert(rest[0] == cs[i]);
}

/// When no child matches, the search finds nothing.
pub proof fn lemma_spec_get_child_none(cs: Seq<Element>, k: Seq<char>)
    requires
        forall|j: int| 0 <= j < cs.len() ==> !is_named_elem(#[trigger] cs[j], k),
    ensures
        spec_get_child(cs, k) is None,
{
    lemma_get_child_skip(cs, k, cs.len() as int);
    assert(cs.subrange(cs.len() as int, cs.len() as int) =~= Seq::<Element>::empty());
}

/// The value of the first attribute with the given key.
pub open spec fn spec_get_attr(attrs: Seq<(String, String)>, k: Seq<char>) -> Option<Seq<char>>
    decreases attrs.len(),
{
    if attrs.len() == 0 {
        None
    } else if attrs[0].0@ == k {
        Some(attrs[0].1@)
    } else {
        spec_get_attr(attrs.drop_first(), k)
    }
}

/// When the first `i` attributes do not carry the key, the lookup outcome is
/// decided by the rest.
proof fn lemma_get_attr_skip(attrs: Seq<(String, String)>, k: Seq<char>, i: int)
    requires
        0 <= i <= attrs.len(),
        forall|j: int| 0 <= j < i ==> (#[trigger] attrs[j]).0@ != k,
    ensures
        spec_get_attr(attrs, k) == spec_get_attr(attrs.subrange(i, attrs.len() as int), k),
    decreases i,
{
    if i > 0 {
        let t = attrs.drop_first();
        assert(attrs[0].0@ != k);
        assert(forall|j: int| 0 <= j < i - 1 ==> (#[trigger] t[j]).0@ != k);
        lemma_get_attr_skip(t, k, i - 1);
        assert(t.subrange(i - 1, t.len() as int) =~= attrs.subrange(i, attrs.len() as int));
    } else {
        assert(attrs.subrange(0, attrs.len() as int) =~= attrs);
    }
}

/// The trimmed text of a child element with tag `k`, when both the child and
/// its text are present.
pub open spec fn spec_get_child_text_opt(e: Element, k: Seq<char>) -> Option<Seq<char>> {
    match spec_get_child(e.children@, k) {
        None => None,
        Some(c) => match c.text {
            Some(t) => Some(trim_spec(t@)),
            None => None,
        },
    }
}

/// What reading an unsigned 64-bit child value yields: the child must exist,
/// hold text, and the trimmed text must be a well-formed numeral in range.
pub open spec fn spec_get_child_u64(e: Element, k: Seq<char>) -> Result<u64, SvdErrorAtView> {
    match spec_get_child(e.children@, k) {
        None => Err(SvdErrorAtView { error: ParseErrorView::MissingTag(k), id: e.id }),
        Some(c) => match c.text {
            None => Err(SvdErrorAtView { error: ParseErrorView::EmptyTag(c.name@), id: c.id }),
            Some(t) => {
                let s = trim_spec(t@);
                if valid_numeral(s) {
                    Ok(numeral_val(s) as u64)
                } else {
                    Err(SvdErrorAtView { error: ParseErrorView::InvalidNumeral(s), id: c.id })
                }
            },
        },
    }
}

/// As [`spec_get_child_u64`], further bounded to 32 bits.
pub open spec fn spec_get_child_u32(e: Element, k: Seq<char>) -> Result<u32, SvdErrorAtView> {
    match spec_get_child(e.children@, k) {
        None => Err(SvdErrorAtView { error: ParseErrorView::MissingTag(k), id: e.id }),
        Some(c) => match c.text {
            None => Err(SvdErrorAtView { error: ParseErrorView::EmptyTag(c.name@), id: c.id }),
            Some(t) => {
                let s = trim_spec(t@);
                if valid_numeral(s) && numeral_val(s) <= u32::MAX {
                    Ok(numeral_val(s) as u32)
                } else {
                    Err(SvdErrorAtView { error: ParseErrorView::InvalidNumeral(s), id: c.id })
                }
            },
        },
    }
}

/// What reading a boolean child value yields.
pub open spec fn spec_get_child_bool(e: Element, k: Seq<char>) -> Result<bool, SvdErrorAtView> {
    match spec_get_child(e.children@, k) {
        None => Err(SvdErrorAtView { error: ParseErrorView::MissingTag(k), id: e.id }),
        Some(c) => match c.text {
            None => Err(SvdErrorAtView { error: ParseErrorView::EmptyTag(c.name@), id: c.id }),
            Some(t) => {
                let s = trim_spec(t@);
                match bool_token(s) {
                    Some(b) => Ok(b),
                    None => Err(
                        SvdErrorAtView { error: ParseErrorView::InvalidBooleanValue(s), id: c.id },
                    ),
                }
            },
        },
    }
}

impl Element {
    /// A fresh element with the given tag and nothing else.
    pub fn new(name: &str) -> (r: Element)
        ensures
            r.kind == NodeKind::Element,
            r.name@ == name@,
            r.attributes@ == Seq::<(String, String)>::empty(),
            r.text is None,
            r.children@ == Seq::<Element>::empty(),
            r.id == 0,
    {
        let e = Element {
            kind: NodeKind::Element,
            name: name.to_owned(),
            attributes: Vec::new(),
            text: None,
            children: Vec::new(),
            id: 0,
        };
        proof {
            assert(e.attributes@ =~= Seq::<(String, String)>::empty());
            assert(e.children@ =~= Seq::<Element>::empty());
        }
        e
    }

    /// A fresh element with the given tag and text content.
    pub fn new_with_text(name: &str, text: &str) -> (r: Element)
        ensures
            r.kind == NodeKind::Element,
            r.name@ == name@,
            r.attributes@ == Seq::<(String, String)>::empty(),
            r.text matches Some(t) && t@ == text@,
            r.children@ == Seq::<Element>::empty(),
            r.id == 0,
    {
        let mut e = Element::new(name);
        e.text = Some(text.to_owned());
        e
    }

    /// Append one child node.
    pub fn append_child(&mut self, c: Element)
        ensures
            final(self).children@ == old(self).children@.push(c),
            final(self).kind == old(self).kind,
            final(self).name == old(self).name,
            final(self).attributes == old(self).attributes,
            final(self).text == old(self).text,
            final(self).id == old(self).id,
    {
        self.children.push(c);
    }

    /// Get an attribute value by key.
    pub fn get_attribute<'a>(&'a self, k: &str) -> (r: Option<&'a str>)
        ensures
            match r {
                Some(v) => spec_get_attr(self.attributes@, k@) == Some(v@),
                None => spec_get_attr(self.attributes@, k@) is None,
            },
    {
        let n = self.attributes.len();
        let mut i: usize = 0;
        while i < n
            invariant
                n == self.attributes@.len(),
                i <= n,
                forall|j: int| 0 <= j < i ==> (#[trigger] self.attributes@[j]).0@ != k@,
            decreases n - i,
        {
            if str_eq(self.attributes[i].0.as_str(), k) {
                proof {
                    lemma_get_attr_skip(self.attributes@, k@, i as int);
                    let rest = self.attributes@.subrange(i as int, n as int);
                    assert(rest[0] == self.attributes@[i as int]);
                }
                return Some(self.attributes[i].1.as_str());
            }
            i += 1;
        }
        proof {
            lemma_get_attr_skip(self.attributes@, k@, n as int);
            assert(self.attributes@.subrange(n as int, n as int) =~= Seq::<(
                String,
                String,
            )>::empty());
        }
        None
    }

    /// Get the first child element with the given tag.
    pub fn get_child<'a>(&'a self, k: &str) -> (r: Option<&'a Element>)
        ensures
            match r {
                Some(c) => spec_get_child(self.children@, k@) == Some(*c),
                None => spec_get_child(self.children@, k@) is None,
            },
    {
        let n = self.children.len();
        let mut i: usize = 0;
        while i < n
            invariant
                n == self.children@.len(),
                i <= n,
                forall|j: int| 0 <= j < i ==> !is_named_elem(#[trigger] self.children@[j], k@),
            decreases n - i,
        {
            let c = &self.children[i];
            if matches!(c.kind, NodeKind::Element) && str_eq(c.name.as_str(), k) {
                proof {
                    lemma_get_child_skip(self.children@, k@, i as int);
                    let rest = self.children@.subrange(i as int, n as int);
                    assert(rest[0] == self.children@[i as int]);
                    assert(is_named_elem(rest[0], k@));
                }
                return Some(c);
            }
            i += 1;
        }
        proof {
            lemma_get_child_skip(self.children@, k@, n as int);
            assert(self.children@.subrange(n as int, n as int) =~= Seq::<Element>::empty());
        }
        None
    }

    /// The node's trimmed text content, or an `EmptyTag` error naming the tag
    /// when the node holds no text at all.
    pub fn get_text(&self) -> (r: Result<String, SvdErrorAt>)
        ensures
            match r {
                Ok(t) => self.text matches Some(s) && t@ == trim_spec(s@),
                Err(e) => self.text is None && e@ == (SvdErrorAtView {
                    error: ParseErrorView::EmptyTag(self.name@),
                    id: self.id,
                }),
            },
    {
        match &self.text {
            Some(s) => Ok(trim(s.as_str())),
            None => Err(
                SvdErrorAt {
                    error: ParseError::EmptyTag(self.name.clone()),
                    id: self.id,
                },
            ),
        }
    }

    /// The trimmed text of the child element with tag `k`: absent child and
    /// empty tag both read as `None`.
    pub fn get_child_text_opt(&self, k: &str) -> (r: Result<Option<String>, SvdErrorAt>)
        ensures
            r matches Ok(o) && crate::opt_str_view(o) == spec_get_child_text_opt(*self, k@),
    {
        if let Some(child) = self.get_child(k) {
            match child.get_text() {
                Err(e) => {
                    // The only error the text read can raise is an empty tag,
                    // which reads as "not set".
                    match e {
                        SvdErrorAt { error: ParseError::EmptyTag(_), .. } => Ok(None),
                        _ => Err(e),
                    }
                },
                Ok(s) => Ok(Some(s)),
            }
        } else {
            Ok(None)
        }
    }

    /// The trimmed text of the child element with tag `k`, required to be
    /// present.
    pub fn get_child_text(&self, k: &str) -> (r: Result<String, SvdErrorAt>)
        ensures
            match r {
                Ok(s) => spec_get_child_text_opt(*self, k@) == Some(s@),
                Err(e) => spec_get_child_text_opt(*self, k@) is None && e@ == (SvdErrorAtView {
                    error: ParseErrorView::MissingTag(k@),
                    id: self.id,
                }),
            },
    {
        match self.get_child_text_opt(k)? {
            Some(s) => Ok(s),
            None => Err(
                SvdErrorAt { error: ParseError::MissingTag(k.to_owned()), id: self.id },
            ),
        }
    }

    /// Get a named child element, required to be present.
    pub fn get_child_elem<'a>(&'a self, n: &str) -> (r: Result<&'a Element, SvdErrorAt>)
        ensures
            match r {
                Ok(c) => spec_get_child(self.children@, n@) == Some(*c),
                Err(e) => spec_get_child(self.children@, n@) is None && e@ == (SvdErrorAtView {
                    error: ParseErrorView::MissingTag(n@),
                    id: self.id,
                }),
            },
    {
        match self.get_child(n) {
            Some(c) => Ok(c),
            None => Err(
                SvdErrorAt { error: ParseError::MissingTag(n.to_owned()), id: self.id },
            ),
        }
    }

    /// Read an unsigned 32-bit value from a named child element.
    pub fn get_child_u32(&self, n: &str) -> (r: Result<u32, SvdErrorAt>)
        ensures
            match r {
                Ok(v) => spec_get_child_u32(*self, n@) == Ok::<u32, SvdErrorAtView>(v),
                Err(e) => spec_get_child_u32(*self, n@) == Err::<u32, SvdErrorAtView>(e@),
            },
    {
        let s = self.get_child_elem(n)?;
        let t = s.get_text()?;
        match parse_u32(t.as_str()) {
            Some(v) => Ok(v),
            None => Err(SvdErrorAt { error: ParseError::InvalidNumeral(t), id: s.id }),
        }
    }

    /// Read an unsigned 64-bit value from a named child element.
    pub fn get_child_u64(&self, n: &str) -> (r: Result<u64, SvdErrorAt>)
        ensures
            match r {
                Ok(v) => spec_get_child_u64(*self, n@) == Ok::<u64, SvdErrorAtView>(v),
                Err(e) => spec_get_child_u64(*self, n@) == Err::<u64, SvdErrorAtView>(e@),
            },
    {
        let s = self.get_child_elem(n)?;
        let t = s.get_text()?;
        match parse_u64(t.as_str()) {
            Some(v) => Ok(v),
            None => Err(SvdErrorAt { error: ParseError::InvalidNumeral(t), id: s.id }),
        }
    }

    /// Read a boolean value from a named child element.
    pub fn get_child_bool(&self, n: &str) -> (r: Result<bool, SvdErrorAt>)
        ensures
            match r {
                Ok(v) => spec_get_child_bool(*self, n@) == Ok::<bool, SvdErrorAtView>(v),
                Err(e) => spec_get_child_bool(*self, n@) == Err::<bool, SvdErrorAtView>(e@),
            },
    {
        let s = self.get_child_elem(n)?;
        let t = s.get_text()?;
        match parse_bool(t.as_str()) {
            Some(v) => Ok(v),
            None => Err(SvdErrorAt { error: ParseError::InvalidBooleanValue(t), id: s.id }),
        }
    }
}

/// Abstract value of an attribute list.
pub open spec fn attrs_view(a: Seq<(String, String)>) -> Seq<(Seq<char>, Seq<char>)> {
    a.map_values(|p: (String, String)| (p.0@, p.1@))
}

/// Setting one attribute: the first entry with the same key is replaced,
/// otherwise the pair is appended.
pub open spec fn spec_set_attr(
    a: Seq<(Seq<char>, Seq<char>)>,
    k: Seq<char>,
    v: Seq<char>,
) -> Seq<(Seq<char>, Seq<char>)>
    decreases a.len(),
{
    if a.len() == 0 {
        seq![(k, v)]
    } else if a[0].0 == k {
        seq![(k, v)] + a.drop_first()
    } else {
        seq![a[0]] + spec_set_attr(a.drop_first(), k, v)
    }
}

/// Merging attribute lists: the incoming entries are applied left to right,
/// each replacing an entry of equal key.
pub open spec fn spec_merge_attrs(
    a: Seq<(Seq<char>, Seq<char>)>,
    b: Seq<(Seq<char>, Seq<char>)>,
) -> Seq<(Seq<char>, Seq<char>)>
    decreases b.len(),
{
    if b.len() == 0 {
        a
    } else {
        spec_merge_attrs(spec_set_attr(a, b[0].0, b[0].1), b.drop_first())
    }
}

/// Replacing the first entry whose key matches is what `spec_set_attr` does
/// when such an entry exists.
proof fn lemma_set_attr_update(
    a: Seq<(Seq<char>, Seq<char>)>,
    k: Seq<char>,
    v: Seq<char>,
    j: int,
)
    requires
        0 <= j < a.len(),
        a[j].0 == k,
        forall|i: int| 0 <= i < j ==> (#[trigger] a[i]).0 != k,
    ensures
        spec_set_attr(a, k, v) =~= a.update(j, (k, v)),
    decreases j,
{
    if j == 0 {
    } else {
        let t = a.drop_first();
        assert(a[0].0 != k);
        assert(forall|i: int| 0 <= i < j - 1 ==> (#[trigger] t[i]).0 != k);
        lemma_set_attr_update(t, k, v, j - 1);
    }
}

/// Appending is what `spec_set_attr` does when no key matches.
proof fn lemma_set_attr_push(a: Seq<(Seq<char>, Seq<char>)>, k: Seq<char>, v: Seq<char>)
    requires
        forall|i: int| 0 <= i < a.len() ==> (#[trigger] a[i]).0 != k,
    ensures
        spec_set_attr(a, k, v) =~= a.push((k, v)),
    decreases a.len(),
{
    if a.len() > 0 {
        let t = a.drop_first();
        assert(a[0].0 != k);
        assert(forall|i: int| 0 <= i < t.len() ==> (#[trigger] t[i]).0 != k);
        lemma_set_attr_push(t, k, v);
    }
}

/// One more incoming entry extends the merge by one `spec_set_attr` step.
proof fn lemma_merge_attrs_snoc(
    a: Seq<(Seq<char>, Seq<char>)>,
    b: Seq<(Seq<char>, Seq<char>)>,
    i: int,
)
    requires
        0 <= i < b.len(),
    ensures
        spec_merge_attrs(a, b.subrange(0, i + 1)) == spec_set_attr(
            spec_merge_attrs(a, b.subrange(0, i)),
            b[i].0,
            b[i].1,
        ),
    decreases i,
{
    let p = b.subrange(0, i + 1);
    assert(p[0] == b[0]);
    if i == 0 {
        assert(p.drop_first() =~= Seq::<(Seq<char>, Seq<char>)>::empty());
        assert(b.subrange(0, 0) =~= Seq::<(Seq<char>, Seq<char>)>::empty());
        assert(spec_merge_attrs(spec_set_attr(a, b[0].0, b[0].1), p.drop_first())
            == spec_set_attr(a, b[0].0, b[0].1));
        assert(spec_merge_attrs(a, b.subrange(0, 0)) == a);
    } else {
        let t = b.drop_first();
        let a1 = spec_set_attr(a, b[0].0, b[0].1);
        let q = b.subrange(0, i);
        assert(p.drop_first() =~= t.subrange(0, i));
        assert(spec_merge_attrs(a, p) == spec_merge_attrs(a1, t.subrange(0, i)));
        lemma_merge_attrs_snoc(a1, t, i - 1);
        assert(t[i - 1] == b[i]);
        assert(q[0] == b[0]);
        assert(q.drop_first() =~= t.subrange(0, i - 1));
        assert(spec_merge_attrs(a, q) == spec_merge_attrs(a1, t.subrange(0, i - 1)));
    }
}

impl Element {
    /// Set one attribute; an existing entry of equal key is overwritten in
    /// place, a new key is appended.
    #[verifier::loop_isolation(false)]
    pub fn set_attribute(&mut self, k: String, v: String)
        ensures
            attrs_view(final(self).attributes@) == spec_set_attr(
                attrs_view(old(self).attributes@),
                k@,
                v@,
            ),
            final(self).kind == old(self).kind,
            final(self).name == old(self).name,
            final(self).text == old(self).text,
            final(self).children == old(self).children,
            final(self).id == old(self).id,
    {
        let ghost a0 = attrs_view(old(self).attributes@);
        let n = self.attributes.len();
        let mut i: usize = 0;
        while i < n
            invariant
                n == self.attributes@.len(),
                i <= n,
                a0 == attrs_view(self.attributes@),
                a0.len() == n,
                forall|j: int| 0 <= j < i ==> (#[trigger] a0[j]).0 != k@,
                self.kind == old(self).kind,
                self.name == old(self).name,
                self.text == old(self).text,
                self.children == old(self).children,
                self.id == old(self).id,
            decreases n - i,
        {
            assert(a0[i as int] == (self.attributes@[i as int].0@, self.attributes@[i as int].1@));
            if str_eq(self.attributes[i].0.as_str(), k.as_str()) {
                let ghost gk = k@;
                let ghost gv = v@;
                self.attributes[i] = (k, v);
                proof {
                    lemma_set_attr_update(a0, gk, gv, i as int);
                    assert(attrs_view(self.attributes@) =~= a0.update(i as int, (gk, gv)));
                }
                return;
            }
            i += 1;
        }
        let ghost gk = k@;
        let ghost gv = v@;
        self.attributes.push((k, v));
        proof {
            lemma_set_attr_push(a0, gk, gv);
            assert(attrs_view(self.attributes@) =~= a0.push((gk, gv)));
        }
    }

    /// Merge another element into this one: incoming attributes win on key
    /// collision, incoming children are appended without deduplication, and
    /// incoming text, when present, replaces the own text.
    #[verifier::loop_isolation(false)]
    pub fn merge(&mut self, other: Element)
        ensures
            final(self).children@ == old(self).children@ + other.children@,
            attrs_view(final(self).attributes@) == spec_merge_attrs(
                attrs_view(old(self).attributes@),
                attrs_view(other.attributes@),
            ),
            final(self).text == (if other.text is Some {
                other.text
            } else {
                old(self).text
            }),
            final(self).kind == old(self).kind,
            final(self).name == old(self).name,
            final(self).id == old(self).id,
    {
        let Element { attributes, text, children, .. } = other;
        let ghost a0 = attrs_view(old(self).attributes@);
        let ghost b = attrs_view(attributes@);
        let n = attributes.len();
        let mut i: usize = 0;
        proof {
            assert(b.subrange(0, 0) =~= Seq::<(Seq<char>, Seq<char>)>::empty());
        }
        while i < n
            invariant
                n == attributes@.len(),
                i <= n,
                b == attrs_view(attributes@),
                b.len() == n,
                attrs_view(self.attributes@) == spec_merge_attrs(a0, b.subrange(0, i as int)),
                self.kind == old(self).kind,
                self.name == old(self).name,
                self.text == old(self).text,
                self.children == old(self).children,
                self.id == old(self).id,
            decreases n - i,
        {
            let k = attributes[i].0.clone();
            let v = attributes[i].1.clone();
            assert(b[i as int] == (attributes@[i as int].0@, attributes@[i as int].1@));
            self.set_attribute(k, v);
            proof {
                lemma_merge_attrs_snoc(a0, b, i as int);
            }
            i += 1;
        }
        proof {
            assert(b.subrange(0, n as int) =~= b);
        }
        let mut cs = children;
        self.children.append(&mut cs);
        if text.is_some() {
            self.text = text;
        }
    }
}

/// The comment's words, empty when the node carries none.
pub open spec fn comment_text(e: Element) -> Seq<char> {
    match e.text {
        Some(t) => t@,
        None => Seq::<char>::empty(),
    }
}

/// The texts of the comment nodes immediately preceding position `i`,
/// nearest comment first.
pub open spec fn preceding_comments(cs: Seq<Element>, i: int) -> Seq<Seq<char>>
    decreases i,
{
    if i <= 0 || cs[i - 1].kind != NodeKind::Comment {
        Seq::<Seq<char>>::empty()
    } else {
        seq![comment_text(cs[i - 1])] + preceding_comments(cs, i - 1)
    }
}

/// Access to the comments captured next to a node.
pub trait Comments {
    /// Positions whose preceding comments may be asked for.
    spec fn comments_ok(&self, i: int) -> bool;

    /// What the scan yields at position `i`.
    spec fn comments_spec(&self, i: int) -> Seq<Seq<char>>;

    /// The comment texts immediately preceding child `i`, nearest first.
    fn comments(&self, i: usize) -> (v: Vec<String>)
        requires
            self.comments_ok(i as int),
        ensures
            v.deep_view() == self.comments_spec(i as int),
    ;
}

impl Comments for Element {
    /// Every comment among the first `i` children must carry its words.
    open spec fn comments_ok(&self, i: int) -> bool {
        0 <= i <= self.children@.len() && forall|k: int|
            0 <= k < i && (#[trigger] self.children@[k]).kind == NodeKind::Comment
                ==> self.children@[k].text is Some
    }

    open spec fn comments_spec(&self, i: int) -> Seq<Seq<char>> {
        preceding_comments(self.children@, i)
    }

    fn comments(&self, i: usize) -> (v: Vec<String>) {
        let mut v: Vec<String> = Vec::new();
        let mut j: usize = i;
        while j > 0 && comment_at(self, j)
            invariant
                self.comments_ok(i as int),
                0 <= j <= i,
                v.deep_view() + preceding_comments(self.children@, j as int)
                    == preceding_comments(self.children@, i as int),
            decreases j,
        {
            let t = match &self.children[j - 1].text {
                Some(t) => t.clone(),
                None => String::new(),
            };
            let ghost old_v = v.deep_view();
            v.push(t);
            proof {
                assert(v.deep_view() =~= old_v.push(comment_text(self.children@[j - 1])));
                assert(old_v.push(comment_text(self.children@[j - 1])) + preceding_comments(
                    self.children@,
                    j - 1,
                ) =~= old_v + preceding_comments(self.children@, j as int));
            }
            j -= 1;
        }
        proof {
            assert(preceding_comments(self.children@, j as int) =~= Seq::<Seq<char>>::empty());
            assert(v.deep_view() =~= preceding_comments(self.children@, i as int));
        }
        v
    }
}

/// Whether the child just before position `j` is a comment.
fn comment_at(e: &Element, j: usize) -> (r: bool)
    requires
        1 <= j <= e.children@.len(),
    ensures
        r == (e.children@[j - 1].kind == NodeKind::Comment),
{
    matches!(e.children[j - 1].kind, NodeKind::Comment)
}

} // verus!
