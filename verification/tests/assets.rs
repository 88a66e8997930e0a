use rust_imperialism::assets::{
    capital_asset_path, civilian_asset_path, depot_asset_path, port_asset_path, terrain_asset_path, town_asset_path,
};
use rust_imperialism::bmp_loader::{convert_with_transparency, decode_imperialism_bmp, BmpLoaderError, TRANSPARENCY_COLOR};
use rust_imperialism::civilians::types::CivilianKind;
use rust_imperialism::map::TerrainType;

#[test]
fn terrain_bitmaps() {
    assert_eq!(terrain_asset_path(TerrainType::Grass), "extracted/bitmaps/10000.BMP");
    assert_eq!(terrain_asset_path(TerrainType::Forest), "extracted/bitmaps/10001.BMP");
    assert_eq!(terrain_asset_path(TerrainType::Hills), "extracted/bitmaps/10002.BMP");
    assert_eq!(terrain_asset_path(TerrainType::Mountain), "extracted/bitmaps/10003.BMP");
    assert_eq!(terrain_asset_path(TerrainType::Swamp), "extracted/bitmaps/10004.BMP");
    assert_eq!(terrain_asset_path(TerrainType::Water), "extracted/bitmaps/10005.BMP");
    assert_eq!(terrain_asset_path(TerrainType::Desert), "extracted/bitmaps/10006.BMP");
    assert_eq!(terrain_asset_path(TerrainType::Farmland), "extracted/bitmaps/10007.BMP");
}

#[test]
fn civilian_bitmaps() {
    assert_eq!(civilian_asset_path(CivilianKind::Engineer), "extracted/bitmaps/400.BMP");
    assert_eq!(civilian_asset_path(CivilianKind::Farmer), "extracted/bitmaps/401.BMP");
    assert_eq!(civilian_asset_path(CivilianKind::Miner), "extracted/bitmaps/402.BMP");
    assert_eq!(civilian_asset_path(CivilianKind::Prospector), "extracted/bitmaps/403.BMP");
    assert_eq!(civilian_asset_path(CivilianKind::Developer), "extracted/bitmaps/404.BMP");
    assert_eq!(civilian_asset_path(CivilianKind::Forester), "extracted/bitmaps/406.BMP");
    assert_eq!(civilian_asset_path(CivilianKind::Rancher), "extracted/bitmaps/407.BMP");
    assert_eq!(civilian_asset_path(CivilianKind::Driller), "extracted/bitmaps/408.BMP");
}

#[test]
fn building_bitmaps() {
    assert_eq!(depot_asset_path(), "extracted/bitmaps/554.BMP");
    assert_eq!(port_asset_path(), "extracted/bitmaps/557.BMP");
    assert_eq!(capital_asset_path(), "extracted/bitmaps/550.BMP");
    assert_eq!(town_asset_path(), "extracted/bitmaps/551.BMP");
}

#[test]
fn key_colour_becomes_transparent() {
    let (r, g, b) = TRANSPARENCY_COLOR;
    let rgb = vec![r, g, b, 10, 20, 30, 0, 0, 0];
    let rgba = convert_with_transparency(3, 1, &rgb);
    assert_eq!(rgba, vec![0, 0, 0, 0, 10, 20, 30, 255, 0, 0, 0, 255]);
}

#[test]
fn only_the_first_width_times_height_pixels_are_converted() {
    let rgb = vec![1, 2, 3, 4, 5, 6, 7, 8, 9];
    assert_eq!(convert_with_transparency(1, 2, &rgb), vec![1, 2, 3, 255, 4, 5, 6, 255]);
    assert!(convert_with_transparency(0, 5, &rgb).is_empty());
}

fn le32(v: u32) -> [u8; 4] {
    v.to_le_bytes()
}

/// A 24-bit bitmap of two pixels in one row.
fn bmp_two_pixels(first: (u8, u8, u8), second: (u8, u8, u8)) -> Vec<u8> {
    let mut b: Vec<u8> = Vec::new();
    b.extend_from_slice(b"BM");
    b.extend_from_slice(&le32(62));
    b.extend_from_slice(&[0, 0, 0, 0]);
    b.extend_from_slice(&le32(54));
    b.extend_from_slice(&le32(40));
    b.extend_from_slice(&le32(2));
    b.extend_from_slice(&le32(1));
    b.extend_from_slice(&[1, 0, 24, 0]);
    b.extend_from_slice(&le32(0));
    b.extend_from_slice(&le32(8));
    b.extend_from_slice(&le32(2835));
    b.extend_from_slice(&le32(2835));
    b.extend_from_slice(&le32(0));
    b.extend_from_slice(&le32(0));
    b.extend_from_slice(&[first.2, first.1, first.0, second.2, second.1, second.0, 0, 0]);
    b
}

#[test]
fn decodes_sprite_with_transparency() {
    let bytes = bmp_two_pixels(TRANSPARENCY_COLOR, (10, 20, 30));
    match decode_imperialism_bmp(&bytes) {
        Ok(img) => {
            assert_eq!(img.width, 2);
            assert_eq!(img.height, 1);
            assert_eq!(img.rgba, vec![0, 0, 0, 0, 10, 20, 30, 255]);
        },
        Err(_) => panic!("a valid bitmap was refused"),
    }
}

#[test]
fn magenta_stays_opaque() {
    let bytes = bmp_two_pixels((255, 0, 255), (1, 2, 3));
    match decode_imperialism_bmp(&bytes) {
        Ok(img) => assert_eq!(img.rgba, vec![255, 0, 255, 255, 1, 2, 3, 255]),
        Err(_) => panic!("a valid bitmap was refused"),
    }
}

#[test]
fn garbage_is_a_decode_error() {
    let r = decode_imperialism_bmp(b"not a bitmap at all");
    assert!(matches!(r, Err(BmpLoaderError::ImageError(_))));
}
