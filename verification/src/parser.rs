//! The descriptor parser: a pure function from document text to the ordered
//! list of named sub-rectangles. Document order is the sole addressing
//! mechanism downstream (the atlas index), so the order of the result is
//! pinned exactly, and every failure is a typed error, never a panic.

use vstd::prelude::*;

use crate::text::{spec_parse_u32, parse_u32};
use crate::xml::{doc_nodes, parse_document_nodes};

verus! {

/// One attribute set, as the specification sees it: (name, value) pairs in
/// document order.
pub type AttrsModel = Seq<(Seq<char>, Seq<char>)>;

/// One document node, as the specification sees it: tag name and attributes.
pub type NodeModel = (Seq<char>, AttrsModel);

/// One named sub-rectangle of the sheet, with pixel offsets and dimensions.
#[derive(Debug, Clone)]
pub struct SubTexture {
    pub name: String,
    pub x: u32,
    pub y: u32,
    pub width: u32,
    pub height: u32,
}

/// The mathematical value of a `SubTexture`.
pub ghost struct SubTextureView {
    pub name: Seq<char>,
    pub x: u32,
    pub y: u32,
    pub width: u32,
    pub height: u32,
}

impl View for SubTexture {
    type V = SubTextureView;

    open spec fn view(&self) -> SubTextureView {
        SubTextureView {
            name: self.name@,
            x: self.x,
            y: self.y,
            width: self.width,
            height: self.height,
        }
    }
}

/// The five attributes a qualifying element must carry.
#[derive(Debug, Clone, Copy, PartialEq, Eq, Structural)]
pub enum AttributeName {
    Name,
    X,
    Y,
    Width,
    Height,
}

impl AttributeName {
    /// The attribute's key as it stands in the document.
    pub open spec fn spec_key(self) -> Seq<char> {
        match self {
            AttributeName::Name => "name"@,
            AttributeName::X => "x"@,
            AttributeName::Y => "y"@,
            AttributeName::Width => "width"@,
            AttributeName::Height => "height"@,
        }
    }

    /// The attribute's key as executable text.
    pub fn key(self) -> (r: &'static str)
        ensures
            r@ == self.spec_key(),
    {
        match self {
            AttributeName::Name => "name",
            AttributeName::X => "x",
            AttributeName::Y => "y",
            AttributeName::Width => "width",
            AttributeName::Height => "height",
        }
    }
}

/// Why a descriptor was rejected. The element index counts qualifying
/// elements in document order, so it equals the atlas index the element
/// would have received.
#[derive(Debug, Clone)]
pub enum ParseError {
    /// The text is not a well-formed document.
    MalformedDescriptor,
    /// A qualifying element lacks one of the five required attributes.
    MissingAttribute { element: usize, attribute: AttributeName },
    /// A numeric attribute's text is not a base-10 non-negative integer
    /// that fits in a `u32`; `raw` is the offending text verbatim.
    InvalidAttributeValue { element: usize, attribute: AttributeName, raw: String },
}

/// The mathematical value of a `ParseError`.
pub ghost enum ParseErrorView {
    MalformedDescriptor,
    MissingAttribute { element: int, attribute: AttributeName },
    InvalidAttributeValue { element: int, attribute: AttributeName, raw: Seq<char> },
}

impl View for ParseError {
    type V = ParseErrorView;

    open spec fn view(&self) -> ParseErrorView {
        match self {
            ParseError::MalformedDescriptor => ParseErrorView::MalformedDescriptor,
            ParseError::MissingAttribute { element, attribute } => ParseErrorView::MissingAttribute {
                element: *element as int,
                attribute: *attribute,
            },
            ParseError::InvalidAttributeValue { element, attribute, raw } => ParseErrorView::InvalidAttributeValue {
                element: *element as int,
                attribute: *attribute,
                raw: raw@,
            },
        }
    }
}

/// The tag that marks a qualifying element.
pub open spec fn sub_texture_tag() -> Seq<char> {
    "SubTexture"@
}

/// The value of the first attribute named `key`, if any.
pub open spec fn attr_value(attrs: AttrsModel, key: Seq<char>) -> Option<Seq<char>>
    decreases attrs.len(),
{
    if attrs.len() == 0 {
        None
    } else if attrs.first().0 == key {
        Some(attrs.first().1)
    } else {
        attr_value(attrs.drop_first(), key)
    }
}

/// Whether a node is a qualifying element: one tagged `SubTexture`.
pub open spec fn is_qualifying(n: NodeModel) -> bool {
    n.0 == sub_texture_tag()
}

/// The qualifying elements of a node list, in document order.
pub open spec fn qualifying(nodes: Seq<NodeModel>) -> Seq<NodeModel>
    decreases nodes.len(),
{
    if nodes.len() == 0 {
        Seq::empty()
    } else {
        let rest = qualifying(nodes.drop_last());
        if is_qualifying(nodes.last()) {
            rest.push(nodes.last())
        } else {
            rest
        }
    }
}

/// What extracting numeric attribute `a` of the element at qualifying index
/// `i` yields: its parsed value, or the error that names the element, the
/// attribute and (when present but invalid) the raw text.
pub open spec fn spec_numeric_attr(attrs: AttrsModel, i: int, a: AttributeName) -> Result<
    u32,
    ParseErrorView,
> {
    match attr_value(attrs, a.spec_key()) {
        None => Err(ParseErrorView::MissingAttribute { element: i, attribute: a }),
        Some(raw) => match spec_parse_u32(raw) {
            None => Err(ParseErrorView::InvalidAttributeValue { element: i, attribute: a, raw }),
            Some(v) => Ok(v),
        },
    }
}

/// What parsing the element at qualifying index `i` yields. The attributes
/// are checked in the order name, x, y, width, height; the first missing or
/// invalid one decides the error.
pub open spec fn spec_parse_region(attrs: AttrsModel, i: int) -> Result<
    SubTextureView,
    ParseErrorView,
> {
    match attr_value(attrs, AttributeName::Name.spec_key()) {
        None => Err(ParseErrorView::MissingAttribute { element: i, attribute: AttributeName::Name }),
        Some(name) => match spec_numeric_attr(attrs, i, AttributeName::X) {
            Err(e) => Err(e),
            Ok(x) => match spec_numeric_attr(attrs, i, AttributeName::Y) {
                Err(e) => Err(e),
                Ok(y) => match spec_numeric_attr(attrs, i, AttributeName::Width) {
                    Err(e) => Err(e),
                    Ok(width) => match spec_numeric_attr(attrs, i, AttributeName::Height) {
                        Err(e) => Err(e),
                        Ok(height) => Ok(SubTextureView { name, x, y, width, height }),
                    },
                },
            },
        },
    }
}

/// What parsing a list of qualifying elements yields: one region per
/// element, in order, or the error of the first failing element.
pub open spec fn spec_parse_regions(elems: Seq<NodeModel>) -> Result<
    Seq<SubTextureView>,
    ParseErrorView,
>
    decreases elems.len(),
{
    if elems.len() == 0 {
        Ok(Seq::empty())
    } else {
        match spec_parse_regions(elems.drop_last()) {
            Err(e) => Err(e),
            Ok(rs) => match spec_parse_region(elems.last().1, elems.len() - 1) {
                Err(e) => Err(e),
                Ok(r) => Ok(rs.push(r)),
            },
        }
    }
}

/// What parsing a whole descriptor yields: the regions of its qualifying
/// elements in document order, or `MalformedDescriptor` when the text is
/// not a well-formed document, or the first element's failure.
pub open spec fn spec_parse_descriptor(text: Seq<char>) -> Result<
    Seq<SubTextureView>,
    ParseErrorView,
> {
    match doc_nodes(text) {
        None => Err(ParseErrorView::MalformedDescriptor),
        Some(nodes) => spec_parse_regions(qualifying(nodes)),
    }
}

/// The views of a list of regions.
pub open spec fn regions_view(regions: Seq<SubTexture>) -> Seq<SubTextureView> {
    Seq::new(regions.len(), |i: int| regions[i]@)
}

/// Appending a node keeps the earlier qualifying elements and adds the new
/// node exactly when it qualifies.
proof fn lemma_qualifying_push(nodes: Seq<NodeModel>, e: NodeModel)
    ensures
        qualifying(nodes.push(e)) == if is_qualifying(e) {
            qualifying(nodes).push(e)
        } else {
            qualifying(nodes)
        },
{
    assert(nodes.push(e).drop_last() =~= nodes);
    assert(nodes.push(e).last() == e);
}

/// The qualifying elements of a prefix are a prefix of the qualifying
/// elements of the whole.
proof fn lemma_qualifying_take_prefix(nodes: Seq<NodeModel>, i: int)
    requires
        0 <= i <= nodes.len(),
    ensures
        qualifying(nodes.take(i)).is_prefix_of(qualifying(nodes)),
    decreases nodes.len() - i,
{
    if i < nodes.len() {
        assert(nodes.take(i + 1) =~= nodes.take(i).push(nodes[i]));
        lemma_qualifying_push(nodes.take(i), nodes[i]);
        lemma_qualifying_take_prefix(nodes, i + 1);
        assert(qualifying(nodes.take(i)).is_prefix_of(qualifying(nodes.take(i + 1))));
    } else {
        assert(nodes.take(i) =~= nodes);
    }
}

/// Once a prefix of the qualifying elements fails to parse, the whole list
/// fails with the same error.
pub(crate) proof fn lemma_parse_regions_prefix_err(elems: Seq<NodeModel>, p: Seq<NodeModel>)
    requires
        p.is_prefix_of(elems),
        spec_parse_regions(p) is Err,
    ensures
        spec_parse_regions(elems) == spec_parse_regions(p),
    decreases elems.len(),
{
    if p.len() < elems.len() {
        assert(p.is_prefix_of(elems.drop_last())) by {
            assert(p =~= elems.drop_last().subrange(0, p.len() as int));
        }
        lemma_parse_regions_prefix_err(elems.drop_last(), p);
    } else {
        assert(p =~= elems);
    }
}

/// Find the value of the first attribute named `key`.
fn find_attr<'a>(attrs: &'a Vec<(String, String)>, key: &str) -> (r: Option<&'a String>)
    ensures
        match r {
            Some(v) => attr_value(attrs.deep_view(), key@) == Some(v@),
            None => attr_value(attrs.deep_view(), key@) is None,
        },
{
    let key_string: String = key.to_owned();
    let n = attrs.len();
    let mut i: usize = 0;
    proof {
        assert(attrs.deep_view().skip(0) =~= attrs.deep_view());
    }
    while i < n
        invariant
            key_string@ == key@,
            n == attrs@.len(),
            0 <= i <= n,
            attr_value(attrs.deep_view(), key@) == attr_value(
                attrs.deep_view().skip(i as int),
                key@,
            ),
        decreases n - i,
    {
        let pair = &attrs[i];
        proof {
            let dv = attrs.deep_view();
            assert(dv.skip(i as int).first() == dv[i as int]);
            assert(dv.skip(i as int).drop_first() =~= dv.skip(i as int + 1));
        }
        if pair.0 == key_string {
            return Some(&pair.1);
        }
        i += 1;
    }
    proof {
        assert(attrs.deep_view().skip(i as int).len() == 0);
    }
    None
}

/// Extract and parse numeric attribute `a` of the element at qualifying
/// index `index`.
fn numeric_attr(attrs: &Vec<(String, String)>, index: usize, a: AttributeName) -> (r: Result<
    u32,
    ParseError,
>)
    ensures
        match r {
            Ok(v) => spec_numeric_attr(attrs.deep_view(), index as int, a) == Ok::<
                u32,
                ParseErrorView,
            >(v),
            Err(e) => spec_numeric_attr(attrs.deep_view(), index as int, a) == Err::<
                u32,
                ParseErrorView,
            >(e@),
        },
{
    let raw = match find_attr(attrs, a.key()) {
        None => {
            return Err(ParseError::MissingAttribute { element: index, attribute: a });
        },
        Some(v) => v,
    };
    match parse_u32(raw.as_str()) {
        Some(v) => Ok(v),
        None => Err(
            ParseError::InvalidAttributeValue { element: index, attribute: a, raw: raw.clone() },
        ),
    }
}

/// Parse one qualifying element, which stands at qualifying index `index`.
fn parse_region(attrs: &Vec<(String, String)>, index: usize) -> (r: Result<SubTexture, ParseError>)
    ensures
        match r {
            Ok(st) => spec_parse_region(attrs.deep_view(), index as int) == Ok::<
                SubTextureView,
                ParseErrorView,
            >(st@),
            Err(e) => spec_parse_region(attrs.deep_view(), index as int) == Err::<
                SubTextureView,
                ParseErrorView,
            >(e@),
        },
{
    let name = match find_attr(attrs, AttributeName::Name.key()) {
        None => {
            return Err(
                ParseError::MissingAttribute { element: index, attribute: AttributeName::Name },
            );
        },
        Some(v) => v.clone(),
    };
    let x = match numeric_attr(attrs, index, AttributeName::X) {
        Err(e) => return Err(e),
        Ok(v) => v,
    };
    let y = match numeric_attr(attrs, index, AttributeName::Y) {
        Err(e) => return Err(e),
        Ok(v) => v,
    };
    let width = match numeric_attr(attrs, index, AttributeName::Width) {
        Err(e) => return Err(e),
        Ok(v) => v,
    };
    let height = match numeric_attr(attrs, index, AttributeName::Height) {
        Err(e) => return Err(e),
        Ok(v) => v,
    };
    Ok(SubTexture { name, x, y, width, height })
}

/// Parse descriptor text into the ordered list of named sub-rectangles.
/// The order of the result is the document order of the qualifying
/// elements: region `i` becomes atlas index `i`.
pub fn parse_descriptor(text: &str) -> (r: Result<Vec<SubTexture>, ParseError>)
    ensures
        r is Ok <==> spec_parse_descriptor(text@) is Ok,
        r is Ok ==> regions_view(r->Ok_0@) == spec_parse_descriptor(text@)->Ok_0,
        r is Err ==> r->Err_0@ == spec_parse_descriptor(text@)->Err_0,
{
    let nodes = match parse_document_nodes(text) {
        None => {
            return Err(ParseError::MalformedDescriptor);
        },
        Some(ns) => ns,
    };
    let ghost dv: Seq<NodeModel> = nodes.deep_view();
    let sub_tag: String = "SubTexture".to_owned();
    let mut regions: Vec<SubTexture> = Vec::new();
    let n = nodes.len();
    let mut i: usize = 0;
    proof {
        assert(dv.take(0) =~= Seq::<NodeModel>::empty());
        assert(regions_view(regions@) =~= Seq::<SubTextureView>::empty());
    }
    while i < n
        invariant
            doc_nodes(text@) == Some(dv),
            dv == nodes.deep_view(),
            sub_tag@ == sub_texture_tag(),
            n == nodes@.len(),
            0 <= i <= n,
            regions@.len() == qualifying(dv.take(i as int)).len(),
            spec_parse_regions(qualifying(dv.take(i as int))) == Ok::<
                Seq<SubTextureView>,
                ParseErrorView,
            >(regions_view(regions@)),
        decreases n - i,
    {
        let node = &nodes[i];
        proof {
            assert(dv.take(i as int + 1) =~= dv.take(i as int).push(dv[i as int]));
            lemma_qualifying_push(dv.take(i as int), dv[i as int]);
        }
        if node.tag == sub_tag {
            let ghost q: Seq<NodeModel> = qualifying(dv.take(i as int));
            proof {
                assert(q.push(dv[i as int]).drop_last() =~= q);
                assert(q.push(dv[i as int]).last() == dv[i as int]);
            }
            match parse_region(&node.attrs, regions.len()) {
                Ok(st) => {
                    let ghost old_regions = regions@;
                    regions.push(st);
                    proof {
                        assert(regions_view(regions@) =~= regions_view(old_regions).push(st@));
                    }
                },
                Err(e) => {
                    proof {
                        lemma_qualifying_take_prefix(dv, i as int + 1);
                        lemma_parse_regions_prefix_err(
                            qualifying(dv),
                            qualifying(dv.take(i as int + 1)),
                        );
                    }
                    return Err(e);
                },
            }
        }
        i += 1;
    }
    proof {
        assert(dv.take(n as int) =~= dv);
    }
    Ok(regions)
}

} // verus!
