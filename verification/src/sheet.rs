//! The composite sprite-sheet asset and its loader. The loader's two-phase
//! pipeline is explicit: the host first resolves the companion bitmap (its
//! pixel size is the layout's bound and must be known first), then hands the
//! descriptor text and the size here, and the assembly is a pure, verified
//! step. A failed load returns an error and publishes nothing.

use vstd::prelude::*;
use vstd::string::StrSliceExecFns;
use vstd::string::StringExecFns;

use crate::atlas::{build_layout, spec_rects_of, AtlasLayout, AtlasLayoutView};
use crate::parser::{
    parse_descriptor, regions_view, spec_parse_descriptor, ParseError, ParseErrorView, SubTexture,
    SubTextureView,
};

verus! {

/// The composite artifact of one successful load: the companion bitmap's
/// pixel size, the ordered region catalog, and the atlas layout. Region `i`
/// and layout rectangle `i` describe the same sub-texture.
///
/// A region that overruns the sheet is not a load-time error: the pipeline
/// publishes what the descriptor says, and whether an overrun matters is
/// the renderer's concern. `regions_in_bounds` lets a consumer check.
#[derive(Debug, Clone)]
pub struct KenneySpriteSheetAsset {
    pub sheet_width: u32,
    pub sheet_height: u32,
    pub textures: Vec<SubTexture>,
    pub texture_atlas_layout: AtlasLayout,
}

/// The mathematical value of a `KenneySpriteSheetAsset`.
pub ghost struct KenneySpriteSheetAssetView {
    pub sheet_width: u32,
    pub sheet_height: u32,
    pub textures: Seq<SubTextureView>,
    pub texture_atlas_layout: AtlasLayoutView,
}

impl View for KenneySpriteSheetAsset {
    type V = KenneySpriteSheetAssetView;

    open spec fn view(&self) -> KenneySpriteSheetAssetView {
        KenneySpriteSheetAssetView {
            sheet_width: self.sheet_width,
            sheet_height: self.sheet_height,
            textures: regions_view(self.textures@),
            texture_atlas_layout: self.texture_atlas_layout@,
        }
    }
}

impl KenneySpriteSheetAssetView {
    /// Well-formedness: the layout is bound to the sheet's pixel size and
    /// holds exactly one rectangle per region, rectangle `i` spanning
    /// region `i`.
    pub open spec fn wf(self) -> bool {
        &&& self.texture_atlas_layout.width == self.sheet_width
        &&& self.texture_atlas_layout.height == self.sheet_height
        &&& self.texture_atlas_layout.textures == spec_rects_of(self.textures)
    }
}

/// Why a load failed. Every failure is terminal for the whole load: no
/// partial asset is ever returned.
#[derive(Debug, Clone)]
pub enum KenneySpriteSheetAssetLoaderError {
    /// Reading the descriptor's bytes failed.
    IoFailure,
    /// The companion bitmap could not be found or decoded.
    CompanionLoadFailure,
    /// The descriptor text was rejected by the parser.
    Descriptor(ParseError),
}

/// The mathematical value of a `KenneySpriteSheetAssetLoaderError`.
pub ghost enum LoadErrorView {
    IoFailure,
    CompanionLoadFailure,
    Descriptor(ParseErrorView),
}

impl View for KenneySpriteSheetAssetLoaderError {
    type V = LoadErrorView;

    open spec fn view(&self) -> LoadErrorView {
        match self {
            KenneySpriteSheetAssetLoaderError::IoFailure => LoadErrorView::IoFailure,
            KenneySpriteSheetAssetLoaderError::CompanionLoadFailure => LoadErrorView::CompanionLoadFailure,
            KenneySpriteSheetAssetLoaderError::Descriptor(e) => LoadErrorView::Descriptor(e@),
        }
    }
}

/// The companion bitmap path of a descriptor path: the terminal descriptor
/// extension replaced by the bitmap extension. The loader is dispatched
/// only for paths carrying the descriptor extension; on any other path the
/// bitmap extension is appended.
pub open spec fn spec_companion_path(path: Seq<char>) -> Seq<char> {
    if path.len() >= 4 && path.subrange(path.len() - 4, path.len() as int) == ".xml"@ {
        path.subrange(0, path.len() - 4) + ".png"@
    } else {
        path + ".png"@
    }
}

/// Derive the companion bitmap path from a descriptor path: same directory,
/// same base name, the bitmap extension in place of the descriptor's.
pub fn companion_image_path(path: &str) -> (r: String)
    ensures
        r@ == spec_companion_path(path@),
{
    let n = path.unicode_len();
    if n >= 4 {
        let suffix = path.substring_char(n - 4, n);
        let xml_ext: String = ".xml".to_owned();
        if suffix.to_owned() == xml_ext {
            let stem = path.substring_char(0, n - 4);
            return stem.to_owned().concat(".png");
        }
    }
    path.to_owned().concat(".png")
}

/// What assembling a sheet from descriptor text and the companion bitmap's
/// pixel size yields: the parsed regions with their layout, or the parser's
/// error.
pub open spec fn spec_assemble(text: Seq<char>, width: u32, height: u32) -> Result<
    KenneySpriteSheetAssetView,
    LoadErrorView,
> {
    match spec_parse_descriptor(text) {
        Err(e) => Err(LoadErrorView::Descriptor(e)),
        Ok(regions) => Ok(
            KenneySpriteSheetAssetView {
                sheet_width: width,
                sheet_height: height,
                textures: regions,
                texture_atlas_layout: AtlasLayoutView {
                    width,
                    height,
                    textures: spec_rects_of(regions),
                },
            },
        ),
    }
}

/// The view of an optional descriptor text.
pub open spec fn text_view(text: Option<&str>) -> Option<Seq<char>> {
    match text {
        None => None,
        Some(t) => Some(t@),
    }
}

/// What a whole load yields. The companion bitmap is resolved first (the
/// layout cannot be sized without it), so its failure takes precedence;
/// then the descriptor's bytes are read; then the text is parsed and the
/// asset assembled.
pub open spec fn spec_load(text: Option<Seq<char>>, size: Option<(u32, u32)>) -> Result<
    KenneySpriteSheetAssetView,
    LoadErrorView,
> {
    match size {
        None => Err(LoadErrorView::CompanionLoadFailure),
        Some(s) => match text {
            None => Err(LoadErrorView::IoFailure),
            Some(t) => spec_assemble(t, s.0, s.1),
        },
    }
}

/// The loader of sprite-sheet descriptors. It holds no state of its own:
/// caching and request coalescing belong to the host asset system.
#[derive(Default)]
pub struct KenneySpriteSheetAssetLoader;

impl KenneySpriteSheetAssetLoader {
    /// The descriptor extensions the loader is registered for: exactly one.
    pub fn extensions(&self) -> (r: Vec<&'static str>)
        ensures
            r@.len() == 1,
            r@[0]@ == "xml"@,
    {
        let mut v: Vec<&'static str> = Vec::new();
        v.push("xml");
        v
    }

    /// Assemble the composite asset from the outcomes of the two loads the
    /// host performed: the descriptor's text, if its bytes could be read,
    /// and the companion bitmap's pixel size, if the bitmap was found and
    /// decoded. Either failure aborts the whole load; a returned asset is
    /// well-formed and pinned, region by region, to the descriptor text.
    pub fn load(&self, descriptor_text: Option<&str>, sheet_size: Option<(u32, u32)>) -> (r:
        Result<KenneySpriteSheetAsset, KenneySpriteSheetAssetLoaderError>)
        ensures
            r is Ok <==> spec_load(text_view(descriptor_text), sheet_size) is Ok,
            r is Ok ==> r->Ok_0@ == spec_load(text_view(descriptor_text), sheet_size)->Ok_0
                && r->Ok_0@.wf(),
            r is Err ==> r->Err_0@ == spec_load(text_view(descriptor_text), sheet_size)->Err_0,
    {
        let (width, height) = match sheet_size {
            None => {
                return Err(KenneySpriteSheetAssetLoaderError::CompanionLoadFailure);
            },
            Some(s) => s,
        };
        let text = match descriptor_text {
            None => {
                return Err(KenneySpriteSheetAssetLoaderError::IoFailure);
            },
            Some(t) => t,
        };
        let textures = match parse_descriptor(text) {
            Err(e) => {
                return Err(KenneySpriteSheetAssetLoaderError::Descriptor(e));
            },
            Ok(ts) => ts,
        };
        let texture_atlas_layout = build_layout(width, height, &textures);
        Ok(
            KenneySpriteSheetAsset {
                sheet_width: width,
                sheet_height: height,
                textures,
                texture_atlas_layout,
            },
        )
    }
}

/// Whether a region lies inside a sheet of the given pixel size.
pub open spec fn spec_region_in_bounds(t: SubTextureView, width: u32, height: u32) -> bool {
    &&& t.x + t.width <= width
    &&& t.y + t.height <= height
}

/// The index of the first region named `name`, if any.
pub open spec fn spec_name_index(regions: Seq<SubTextureView>, name: Seq<char>) -> Option<int>
    decreases regions.len(),
{
    if regions.len() == 0 {
        None
    } else if regions.first().name == name {
        Some(0int)
    } else {
        match spec_name_index(regions.drop_first(), name) {
            None => None,
            Some(i) => Some(i + 1),
        }
    }
}

/// The name lookup finds the first region bearing the name: a returned
/// index is in range, holds the name, and no earlier index does; no index
/// is returned exactly when no region bears the name.
pub proof fn lemma_name_index_first_match(regions: Seq<SubTextureView>, name: Seq<char>)
    ensures
        match spec_name_index(regions, name) {
            Some(i) => 0 <= i < regions.len() && regions[i].name == name && forall|j: int|
                0 <= j < i ==> (#[trigger] regions[j]).name != name,
            None => forall|j: int|
                0 <= j < regions.len() ==> (#[trigger] regions[j]).name != name,
        },
    decreases regions.len(),
{
    if regions.len() > 0 && regions.first().name != name {
        lemma_name_index_first_match(regions.drop_first(), name);
        assert forall|j: int|
            1 <= j < regions.len() implies regions.drop_first()[j - 1] == regions[j] by {}
    }
}

/// A scan that has passed `i` regions without a match finds the first match
/// of the remainder, `i` places further on.
proof fn lemma_name_index_skip(regions: Seq<SubTextureView>, name: Seq<char>, i: int)
    requires
        0 <= i <= regions.len(),
        forall|j: int| 0 <= j < i ==> (#[trigger] regions[j]).name != name,
    ensures
        spec_name_index(regions, name) == match spec_name_index(regions.skip(i), name) {
            None => None::<int>,
            Some(k) => Some(k + i),
        },
    decreases i,
{
    if i == 0 {
        assert(regions.skip(0) =~= regions);
    } else {
        assert(regions.first().name != name);
        lemma_name_index_skip(regions.drop_first(), name, i - 1);
        assert(regions.drop_first().skip(i - 1) =~= regions.skip(i));
    }
}

impl KenneySpriteSheetAsset {
    /// How many regions the sheet holds.
    pub fn len(&self) -> (n: usize)
        ensures
            n == self@.textures.len(),
    {
        self.textures.len()
    }

    /// The region at an atlas index, if the index is in range.
    pub fn region(&self, index: usize) -> (r: Option<&SubTexture>)
        ensures
            match r {
                Some(t) => index < self@.textures.len() && t@ == self@.textures[index as int],
                None => index >= self@.textures.len(),
            },
    {
        if index < self.textures.len() {
            Some(&self.textures[index])
        } else {
            None
        }
    }

    /// Whether every region lies inside the sheet's pixel bounds.
    pub fn regions_in_bounds(&self) -> (r: bool)
        ensures
            r == forall|i: int|
                0 <= i < self@.textures.len() ==> spec_region_in_bounds(
                    #[trigger] self@.textures[i],
                    self@.sheet_width,
                    self@.sheet_height,
                ),
    {
        let n = self.textures.len();
        let mut i: usize = 0;
        while i < n
            invariant
                n == self.textures@.len(),
                0 <= i <= n,
                forall|j: int|
                    0 <= j < i ==> spec_region_in_bounds(
                        #[trigger] regions_view(self.textures@)[j],
                        self.sheet_width,
                        self.sheet_height,
                    ),
            decreases n - i,
        {
            let t = &self.textures[i];
            let fits = t.x as u64 + t.width as u64 <= self.sheet_width as u64 && t.y as u64
                + t.height as u64 <= self.sheet_height as u64;
            if !fits {
                assert(!(forall|j: int|
                    0 <= j < self@.textures.len() ==> spec_region_in_bounds(
                        #[trigger] self@.textures[j],
                        self@.sheet_width,
                        self@.sheet_height,
                    ))) by {
                    assert(!spec_region_in_bounds(
                        self@.textures[i as int],
                        self@.sheet_width,
                        self@.sheet_height,
                    ));
                }
                return false;
            }
            i += 1;
        }
        true
    }

    /// The atlas index of the first region named `name`. This is the
    /// primary addressing interface: names are stable under reordering of
    /// the descriptor, numeric indices are not.
    pub fn atlas_index_for_name(&self, name: &str) -> (r: Option<usize>)
        ensures
            match r {
                Some(i) => spec_name_index(self@.textures, name@) == Some(i as int),
                None => spec_name_index(self@.textures, name@) is None,
            },
    {
        let key: String = name.to_owned();
        let n = self.textures.len();
        let mut i: usize = 0;
        while i < n
            invariant
                key@ == name@,
                n == self.textures@.len(),
                0 <= i <= n,
                forall|j: int| 0 <= j < i ==> (#[trigger] regions_view(self.textures@)[j]).name
                    != name@,
            decreases n - i,
        {
            if self.textures[i].name == key {
                proof {
                    let rv = regions_view(self.textures@);
                    lemma_name_index_skip(rv, name@, i as int);
                    assert(rv.skip(i as int).first() == rv[i as int]);
                }
                return Some(i);
            }
            i += 1;
        }
        proof {
            let rv = regions_view(self.textures@);
            lemma_name_index_skip(rv, name@, n as int);
            assert(rv.skip(n as int).len() == 0);
        }
        None
    }
}

} // verus!
