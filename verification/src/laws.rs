//! The laws of the pipeline, stated over the parser's and loader's models
//! and proved once for all inputs: the round trip from descriptor text to
//! regions, the exact error on a missing or invalid attribute, and the
//! determinism of a load.

use vstd::prelude::*;

use crate::parser::{
    attr_value, qualifying, spec_parse_descriptor, spec_parse_region, spec_parse_regions,
    AttributeName, AttrsModel, NodeModel, ParseErrorView, SubTextureView,
};
use crate::sheet::{spec_load, KenneySpriteSheetAssetView, LoadErrorView};
use crate::text::{is_digit, spec_parse_u32};
use crate::xml::doc_nodes;

verus! {

/// Whether numeric attribute `a` is present on an element and its text
/// parses as a `u32`.
pub open spec fn numeric_ok(attrs: AttrsModel, a: AttributeName) -> bool {
    &&& attr_value(attrs, a.spec_key()) is Some
    &&& spec_parse_u32(attr_value(attrs, a.spec_key())->Some_0) is Some
}

/// Whether an element carries all five required attributes, the numeric
/// ones with valid values.
pub open spec fn element_complete(attrs: AttrsModel) -> bool {
    &&& attr_value(attrs, AttributeName::Name.spec_key()) is Some
    &&& numeric_ok(attrs, AttributeName::X)
    &&& numeric_ok(attrs, AttributeName::Y)
    &&& numeric_ok(attrs, AttributeName::Width)
    &&& numeric_ok(attrs, AttributeName::Height)
}

/// The region a complete element denotes: its attribute values verbatim.
pub open spec fn spec_region_of(attrs: AttrsModel) -> SubTextureView {
    SubTextureView {
        name: attr_value(attrs, AttributeName::Name.spec_key())->Some_0,
        x: spec_parse_u32(attr_value(attrs, AttributeName::X.spec_key())->Some_0)->Some_0,
        y: spec_parse_u32(attr_value(attrs, AttributeName::Y.spec_key())->Some_0)->Some_0,
        width: spec_parse_u32(attr_value(attrs, AttributeName::Width.spec_key())->Some_0)->Some_0,
        height: spec_parse_u32(
            attr_value(attrs, AttributeName::Height.spec_key())->Some_0,
        )->Some_0,
    }
}

/// Parsing a list of complete elements succeeds, with one region per
/// element, in order, each the element's attribute values verbatim.
proof fn lemma_parse_regions_all_ok(elems: Seq<NodeModel>)
    requires
        forall|i: int| 0 <= i < elems.len() ==> element_complete((#[trigger] elems[i]).1),
    ensures
        spec_parse_regions(elems) is Ok,
        spec_parse_regions(elems)->Ok_0.len() == elems.len(),
        forall|i: int| 0 <= i < elems.len() ==> spec_parse_regions(elems)->Ok_0[i]
            == spec_region_of((#[trigger] elems[i]).1),
    decreases elems.len(),
{
    if elems.len() > 0 {
        assert forall|i: int| 0 <= i < elems.drop_last().len() implies element_complete(
            (#[trigger] elems.drop_last()[i]).1,
        ) by {
            assert(elems.drop_last()[i] == elems[i]);
        }
        lemma_parse_regions_all_ok(elems.drop_last());
        let rs = spec_parse_regions(elems)->Ok_0;
        assert forall|i: int| 0 <= i < elems.len() implies rs[i] == spec_region_of(
            (#[trigger] elems[i]).1,
        ) by {
            if i < elems.len() - 1 {
                assert(elems.drop_last()[i] == elems[i]);
            } else {
                assert(elems[i] == elems.last());
            }
        }
    }
}

/// Round trip: parsing a well-formed descriptor whose qualifying elements
/// each carry the five attributes with valid numeric values succeeds and
/// returns exactly one region per qualifying element, in document order,
/// holding that element's attribute values verbatim.
pub proof fn lemma_parser_round_trip(text: Seq<char>)
    requires
        doc_nodes(text) is Some,
        forall|i: int|
            0 <= i < qualifying(doc_nodes(text)->Some_0).len() ==> element_complete(
                (#[trigger] qualifying(doc_nodes(text)->Some_0)[i]).1,
            ),
    ensures
        spec_parse_descriptor(text) is Ok,
        spec_parse_descriptor(text)->Ok_0.len() == qualifying(doc_nodes(text)->Some_0).len(),
        forall|i: int|
            0 <= i < qualifying(doc_nodes(text)->Some_0).len() ==> spec_parse_descriptor(
                text,
            )->Ok_0[i] == spec_region_of((#[trigger] qualifying(doc_nodes(text)->Some_0)[i]).1),
{
    lemma_parse_regions_all_ok(qualifying(doc_nodes(text)->Some_0));
}

/// Whether every attribute checked before `a` (in the order name, x, y,
/// width, height) is present on the element and, if numeric, valid.
pub open spec fn earlier_attrs_ok(attrs: AttrsModel, a: AttributeName) -> bool {
    match a {
        AttributeName::Name => true,
        AttributeName::X => attr_value(attrs, AttributeName::Name.spec_key()) is Some,
        AttributeName::Y => attr_value(attrs, AttributeName::Name.spec_key()) is Some
            && numeric_ok(attrs, AttributeName::X),
        AttributeName::Width => attr_value(attrs, AttributeName::Name.spec_key()) is Some
            && numeric_ok(attrs, AttributeName::X) && numeric_ok(attrs, AttributeName::Y),
        AttributeName::Height => attr_value(attrs, AttributeName::Name.spec_key()) is Some
            && numeric_ok(attrs, AttributeName::X) && numeric_ok(attrs, AttributeName::Y)
            && numeric_ok(attrs, AttributeName::Width),
    }
}

/// The elements before qualifying index `k` parse, and element `k` fails as
/// `err`: then the whole descriptor fails as `err`.
proof fn lemma_first_failure_decides(text: Seq<char>, k: int, err: ParseErrorView)
    requires
        doc_nodes(text) is Some,
        0 <= k < qualifying(doc_nodes(text)->Some_0).len(),
        forall|i: int|
            0 <= i < k ==> element_complete((#[trigger] qualifying(doc_nodes(text)->Some_0)[i]).1),
        spec_parse_region(qualifying(doc_nodes(text)->Some_0)[k].1, k) == Err::<
            SubTextureView,
            ParseErrorView,
        >(err),
    ensures
        spec_parse_descriptor(text) == Err::<Seq<SubTextureView>, ParseErrorView>(err),
{
    let q = qualifying(doc_nodes(text)->Some_0);
    assert forall|i: int| 0 <= i < q.take(k).len() implies element_complete(
        (#[trigger] q.take(k)[i]).1,
    ) by {
        assert(q.take(k)[i] == q[i]);
    }
    lemma_parse_regions_all_ok(q.take(k));
    assert(q.take(k + 1).drop_last() =~= q.take(k));
    assert(q.take(k + 1).last() == q[k]);
    assert(spec_parse_regions(q.take(k + 1)) == Err::<Seq<SubTextureView>, ParseErrorView>(err));
    assert(q.take(k + 1).is_prefix_of(q));
    crate::parser::lemma_parse_regions_prefix_err(q, q.take(k + 1));
}

/// A qualifying element that lacks a required attribute fails the whole
/// parse with `MissingAttribute` naming that element and that attribute:
/// nothing is skipped and nothing defaulted. `k` counts qualifying elements
/// in document order; the elements before `k` must parse, and the
/// attributes checked before `a` must be in order, for `a` to be the one
/// reported.
pub proof fn lemma_missing_attribute(text: Seq<char>, k: int, a: AttributeName)
    requires
        doc_nodes(text) is Some,
        0 <= k < qualifying(doc_nodes(text)->Some_0).len(),
        forall|i: int|
            0 <= i < k ==> element_complete((#[trigger] qualifying(doc_nodes(text)->Some_0)[i]).1),
        attr_value(qualifying(doc_nodes(text)->Some_0)[k].1, a.spec_key()) is None,
        earlier_attrs_ok(qualifying(doc_nodes(text)->Some_0)[k].1, a),
    ensures
        spec_parse_descriptor(text) == Err::<Seq<SubTextureView>, ParseErrorView>(
            ParseErrorView::MissingAttribute { element: k, attribute: a },
        ),
{
    lemma_first_failure_decides(
        text,
        k,
        ParseErrorView::MissingAttribute { element: k, attribute: a },
    );
}

/// A numeric attribute whose text is not a base-10 non-negative integer in
/// range fails the whole parse with `InvalidAttributeValue` naming the
/// element, the attribute and the text verbatim: nothing is defaulted to
/// zero. In particular a negative value such as `-3` is invalid, since `-`
/// is not a digit (see `lemma_nondigit_not_numeric`).
pub proof fn lemma_invalid_attribute(text: Seq<char>, k: int, a: AttributeName, raw: Seq<char>)
    requires
        doc_nodes(text) is Some,
        0 <= k < qualifying(doc_nodes(text)->Some_0).len(),
        forall|i: int|
            0 <= i < k ==> element_complete((#[trigger] qualifying(doc_nodes(text)->Some_0)[i]).1),
        a != AttributeName::Name,
        attr_value(qualifying(doc_nodes(text)->Some_0)[k].1, a.spec_key()) == Some(raw),
        spec_parse_u32(raw) is None,
        earlier_attrs_ok(qualifying(doc_nodes(text)->Some_0)[k].1, a),
    ensures
        spec_parse_descriptor(text) == Err::<Seq<SubTextureView>, ParseErrorView>(
            ParseErrorView::InvalidAttributeValue { element: k, attribute: a, raw },
        ),
{
    lemma_first_failure_decides(
        text,
        k,
        ParseErrorView::InvalidAttributeValue { element: k, attribute: a, raw },
    );
}

/// Any non-digit character, a `-` or `+` sign included, makes a numeric
/// attribute's text invalid.
pub proof fn lemma_nondigit_not_numeric(raw: Seq<char>, i: int)
    requires
        0 <= i < raw.len(),
        !is_digit(raw[i]),
    ensures
        spec_parse_u32(raw) is None,
{
}

/// A well-formed asset's layout rectangle at atlas index `i` spans exactly
/// the `i`-th region: from the region's offsets, offsets plus dimensions
/// wide and high. Index `i` in the region catalog and index `i` in the
/// layout always describe the same sub-texture.
pub proof fn lemma_layout_matches_region(asset: KenneySpriteSheetAssetView, i: int)
    requires
        asset.wf(),
        0 <= i < asset.textures.len(),
    ensures
        asset.texture_atlas_layout.textures.len() == asset.textures.len(),
        asset.texture_atlas_layout.textures[i].min_x == asset.textures[i].x,
        asset.texture_atlas_layout.textures[i].min_y == asset.textures[i].y,
        asset.texture_atlas_layout.textures[i].max_x == asset.textures[i].x
            + asset.textures[i].width,
        asset.texture_atlas_layout.textures[i].max_y == asset.textures[i].y
            + asset.textures[i].height,
{
}

/// A load whose companion bitmap cannot be found or decoded fails whole:
/// whatever the descriptor text, the result is `CompanionLoadFailure` and
/// no asset is published.
pub proof fn lemma_companion_failure_is_total(text: Option<Seq<char>>)
    ensures
        spec_load(text, None) == Err::<KenneySpriteSheetAssetView, LoadErrorView>(
            LoadErrorView::CompanionLoadFailure,
        ),
{
}

/// One logical load is deterministic: two loads of the same descriptor text
/// against the same companion bitmap size yield equal results, asset or
/// error. Coalescing concurrent requests for one path into one load is the
/// host asset system's contract; this shows the outcome does not depend on
/// which request's load runs.
pub proof fn lemma_load_deterministic(
    text: Option<Seq<char>>,
    size: Option<(u32, u32)>,
    r1: Result<KenneySpriteSheetAssetView, LoadErrorView>,
    r2: Result<KenneySpriteSheetAssetView, LoadErrorView>,
)
    requires
        r1 == spec_load(text, size),
        r2 == spec_load(text, size),
    ensures
        r1 == r2,
{
}

} // verus!
