use slippery::{
    ArcGisWorldMap, CartoDark, CartoLight, CartoVoyager, OpenStreetMap, OpenTopo, Scale, Source,
    TileId,
};

#[test]
fn openstreetmap_url_orders_zoom_x_y() {
    let t = TileId::new(1234, 987, 12);
    assert_eq!(OpenStreetMap.tile_url(t), "https://tile.openstreetmap.org/12/1234/987.png");
    assert_eq!(OpenStreetMap.tile_size(), 256);
    assert_eq!(OpenStreetMap.max_zoom(), 19);
    assert_eq!(OpenStreetMap.attribution().text, "OpenStreetMap contributors");
}

#[test]
fn arcgis_url_orders_zoom_y_x() {
    let t = TileId::new(3, 5, 4);
    assert_eq!(
        ArcGisWorldMap.tile_url(t),
        "https://server.arcgisonline.com/ArcGIS/rest/services/World_Imagery/MapServer/tile/4/5/3"
    );
    assert_eq!(ArcGisWorldMap.tile_size(), 256);
}

#[test]
fn carto_urls_carry_the_scale() {
    let t = TileId::new(0, 1, 1);
    assert_eq!(
        CartoLight(Scale::X2).tile_url(t),
        "https://basemaps.cartocdn.com/light_all/1/0/1@2x.png"
    );
    assert_eq!(
        CartoDark(Scale::X1).tile_url(t),
        "https://basemaps.cartocdn.com/dark_all/1/0/1@1x.png"
    );
    assert_eq!(
        CartoVoyager(Scale::X8).tile_url(t),
        "https://basemaps.cartocdn.com/rastertiles/voyager/1/0/1@8x.png"
    );
    assert_eq!(CartoLight(Scale::X4).tile_size(), 1024);
    assert_eq!(CartoDark(Scale::X4).tile_size(), 512);
    assert_eq!(CartoVoyager(Scale::X1).tile_size(), 512);
}

#[test]
fn opentopo_url_and_zero_tile() {
    let t = TileId::new(0, 0, 0);
    assert_eq!(OpenTopo.tile_url(t), "https://tile.opentopomap.org/0/0/0.png");
    assert_eq!(Scale::X8.factor(), 8);
}
