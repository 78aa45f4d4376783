//! Remote tile servers: how a tile is addressed on each, and how large its images are.
//! Make sure you follow the terms of use of the particular source.

use crate::tile::{TileId, TileSpec};
use vstd::prelude::*;

verus! {

/// Decimal digit `d` (below ten) as a character.
pub open spec fn digit(d: nat) -> char {
    seq!['0', '1', '2', '3', '4', '5', '6', '7', '8', '9'][d as int]
}

/// The decimal rendering of `n`, without sign or leading zeros.
pub open spec fn decimal(n: nat) -> Seq<char>
    decreases n,
{
    if n < 10 {
        seq![digit(n)]
    } else {
        decimal(n / 10).push(digit(n % 10))
    }
}

/// The characters of `parts`, one after the other.
pub open spec fn joined(parts: Seq<&str>) -> Seq<char>
    decreases parts.len(),
{
    if parts.len() == 0 {
        Seq::empty()
    } else {
        joined(parts.drop_last()) + parts.last()@
    }
}

/// Relies on the `Display` impl of `u32`: plain decimal digits.
#[verifier::external_body]
fn decimal_string(n: u32) -> (r: String)
    ensures
        r@ == decimal(n as nat),
{
    n.to_string()
}

/// Relies on `<[&str]>::concat`: the parts one after the other.
#[verifier::external_body]
fn join(parts: &[&str]) -> (r: String)
    ensures
        r@ == joined(parts@),
{
    parts.concat()
}

/// `base` followed by three numbers separated by slashes, then `tail`.
pub open spec fn path_url(base: Seq<char>, a: nat, b: nat, c: nat, tail: Seq<char>) -> Seq<char> {
    base + decimal(a) + "/"@ + decimal(b) + "/"@ + decimal(c) + tail
}

fn build_path_url(base: &str, a: u32, b: u32, c: u32, tail: &str) -> (r: String)
    ensures
        r@ == path_url(base@, a as nat, b as nat, c as nat, tail@),
{
    let da = decimal_string(a);
    let db = decimal_string(b);
    let dc = decimal_string(c);
    let sa = da.as_str();
    let sb = db.as_str();
    let sc = dc.as_str();
    let parts: [&str; 7] = [base, sa, "/", sb, "/", sc, tail];
    let r = join(&parts);
    proof {
        let s = parts@;
        let s6 = s.drop_last();
        let s5 = s6.drop_last();
        let s4 = s5.drop_last();
        let s3 = s4.drop_last();
        let s2 = s3.drop_last();
        let s1 = s2.drop_last();
        assert(s1.drop_last() =~= Seq::<&str>::empty());
        assert(joined(s1) =~= base@) by {
            assert(joined(s1.drop_last()) == Seq::<char>::empty());
        }
        assert(s =~= seq![base, sa, "/", sb, "/", sc, tail]);
        assert(joined(s2) == base@ + da@);
        assert(joined(s3) == base@ + da@ + "/"@);
        assert(joined(s4) == base@ + da@ + "/"@ + db@);
        assert(joined(s5) == base@ + da@ + "/"@ + db@ + "/"@);
        assert(joined(s6) == base@ + da@ + "/"@ + db@ + "/"@ + dc@);
        assert(joined(s) =~= path_url(base@, a as nat, b as nat, c as nat, tail@));
    }
    r
}

/// Who to credit for the imagery of a source.
#[derive(Clone)]
pub struct Attribution {
    pub text: &'static str,
    pub url: &'static str,
    pub logo_light: Option<iced_core::image::Image<iced_core::image::Handle>>,
    pub logo_dark: Option<iced_core::image::Image<iced_core::image::Handle>>,
}

/// Remote tile server definition.
pub trait Source {
    /// The address of `tile` on this server.
    spec fn url_of(&self, tile: TileSpec) -> Seq<char>;

    fn tile_url(&self, tile_id: TileId) -> (r: String)
        ensures
            r@ == self.url_of(tile_id@),
    ;

    fn attribution(&self) -> Attribution;

    /// Edge of each tile image in pixels, a positive multiple of 256.
    fn tile_size(&self) -> (r: u32)
        ensures
            r >= 256,
            r % 256 == 0,
    {
        256
    }

    fn max_zoom(&self) -> u8 {
        19
    }
}

fn osm_attribution() -> (r: Attribution)
    ensures
        r.text@ == "OpenStreetMap contributors"@,
        r.logo_light is None,
        r.logo_dark is None,
{
    Attribution {
        text: "OpenStreetMap contributors",
        url: "https://www.openstreetmap.org/copyright",
        logo_light: None,
        logo_dark: None,
    }
}

/// Resolution multiplier of a raster tile set.
#[derive(Debug, Clone, Copy, PartialEq, Eq, Structural)]
pub enum Scale {
    X1,
    X2,
    X4,
    X8,
}

impl Scale {
    pub open spec fn spec_factor(self) -> nat {
        match self {
            Scale::X1 => 1,
            Scale::X2 => 2,
            Scale::X4 => 4,
            Scale::X8 => 8,
        }
    }

    /// How many times finer than the base resolution.
    pub fn factor(self) -> (r: u32)
        ensures
            r == self.spec_factor(),
    {
        match self {
            Scale::X1 => 1,
            Scale::X2 => 2,
            Scale::X4 => 4,
            Scale::X8 => 8,
        }
    }
}

/// World imagery served by ArcGIS; the path orders the numbers zoom, y, x.
#[derive(Debug)]
pub struct ArcGisWorldMap;

pub const ARCGIS_BASE: &'static str = "https://server.arcgisonline.com/ArcGIS/rest/services/World_Imagery/MapServer/tile/";

impl Source for ArcGisWorldMap {
    open spec fn url_of(&self, t: TileSpec) -> Seq<char> {
        path_url(ARCGIS_BASE@, t.zoom, t.y, t.x, ""@)
    }

    fn tile_url(&self, tile_id: TileId) -> (r: String) {
        build_path_url(ARCGIS_BASE, tile_id.zoom() as u32, tile_id.y(), tile_id.x(), "")
    }

    fn attribution(&self) -> Attribution {
        osm_attribution()
    }

    fn tile_size(&self) -> (r: u32) {
        256
    }
}

/// The standard OpenStreetMap tile server.
#[derive(Debug)]
pub struct OpenStreetMap;

pub const OSM_BASE: &'static str = "https://tile.openstreetmap.org/";

impl Source for OpenStreetMap {
    open spec fn url_of(&self, t: TileSpec) -> Seq<char> {
        path_url(OSM_BASE@, t.zoom, t.x, t.y, ".png"@)
    }

    fn tile_url(&self, tile_id: TileId) -> (r: String) {
        build_path_url(OSM_BASE, tile_id.zoom() as u32, tile_id.x(), tile_id.y(), ".png")
    }

    fn attribution(&self) -> Attribution {
        osm_attribution()
    }
}

/// OpenTopoMap topographic tiles.
#[derive(Debug)]
pub struct OpenTopo;

pub const OPEN_TOPO_BASE: &'static str = "https://tile.opentopomap.org/";

impl Source for OpenTopo {
    open spec fn url_of(&self, t: TileSpec) -> Seq<char> {
        path_url(OPEN_TOPO_BASE@, t.zoom, t.x, t.y, ".png"@)
    }

    fn tile_url(&self, tile_id: TileId) -> (r: String) {
        build_path_url(OPEN_TOPO_BASE, tile_id.zoom() as u32, tile_id.x(), tile_id.y(), ".png")
    }

    fn attribution(&self) -> Attribution {
        osm_attribution()
    }

    fn tile_size(&self) -> (r: u32) {
        256
    }
}

/// The suffix that selects the resolution of a CARTO tile.
pub open spec fn carto_tail(scale: Scale) -> Seq<char> {
    "@"@ + decimal(scale.spec_factor()) + "x.png"@
}

fn carto_tail_string(scale: Scale) -> (r: String)
    ensures
        r@ == carto_tail(scale),
{
    let f = decimal_string(scale.factor());
    let sf = f.as_str();
    let parts: [&str; 3] = ["@", sf, "x.png"];
    let r = join(&parts);
    proof {
        let s = parts@;
        let s2 = s.drop_last();
        let s1 = s2.drop_last();
        assert(s1.drop_last() =~= Seq::<&str>::empty());
        assert(joined(s1) =~= "@"@) by {
            assert(joined(s1.drop_last()) == Seq::<char>::empty());
        }
        assert(s =~= seq!["@", sf, "x.png"]);
        assert(joined(s2) == "@"@ + f@);
        assert(joined(s) =~= carto_tail(scale));
    }
    r
}

fn carto_url(base: &str, tile_id: TileId, scale: Scale) -> (r: String)
    ensures
        r@ == path_url(base@, tile_id@.zoom, tile_id@.x, tile_id@.y, carto_tail(scale)),
{
    let tail = carto_tail_string(scale);
    build_path_url(base, tile_id.zoom() as u32, tile_id.x(), tile_id.y(), tail.as_str())
}

/// CARTO light basemap.
#[derive(Debug)]
pub struct CartoLight(pub Scale);

pub const CARTO_LIGHT_BASE: &'static str = "https://basemaps.cartocdn.com/light_all/";

impl Source for CartoLight {
    open spec fn url_of(&self, t: TileSpec) -> Seq<char> {
        path_url(CARTO_LIGHT_BASE@, t.zoom, t.x, t.y, carto_tail(self.0))
    }

    fn tile_url(&self, tile_id: TileId) -> (r: String) {
        carto_url(CARTO_LIGHT_BASE, tile_id, self.0)
    }

    fn attribution(&self) -> Attribution {
        osm_attribution()
    }

    fn tile_size(&self) -> (r: u32) {
        256 * self.0.factor()
    }
}

/// CARTO dark basemap.
#[derive(Debug)]
pub struct CartoDark(pub Scale);

pub const CARTO_DARK_BASE: &'static str = "https://basemaps.cartocdn.com/dark_all/";

impl Source for CartoDark {
    open spec fn url_of(&self, t: TileSpec) -> Seq<char> {
        path_url(CARTO_DARK_BASE@, t.zoom, t.x, t.y, carto_tail(self.0))
    }

    fn tile_url(&self, tile_id: TileId) -> (r: String) {
        carto_url(CARTO_DARK_BASE, tile_id, self.0)
    }

    fn attribution(&self) -> Attribution {
        osm_attribution()
    }

    fn tile_size(&self) -> (r: u32) {
        512
    }
}

/// CARTO Voyager basemap.
#[derive(Debug)]
pub struct CartoVoyager(pub Scale);

pub const CARTO_VOYAGER_BASE: &'static str = "https://basemaps.cartocdn.com/rastertiles/voyager/";

impl Source for CartoVoyager {
    open spec fn url_of(&self, t: TileSpec) -> Seq<char> {
        path_url(CARTO_VOYAGER_BASE@, t.zoom, t.x, t.y, carto_tail(self.0))
    }

    fn tile_url(&self, tile_id: TileId) -> (r: String) {
        carto_url(CARTO_VOYAGER_BASE, tile_id, self.0)
    }

    fn attribution(&self) -> Attribution {
        osm_attribution()
    }

    fn tile_size(&self) -> (r: u32) {
        512
    }
}

} // verus!
