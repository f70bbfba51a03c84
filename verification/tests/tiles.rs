use infini_jump::level_generator::tile::{
    ColorTile, TexturedTile, Tile, TILE_HEIGHT, TILE_SCALE, TILE_WIDTH,
};

#[test]
fn tile_sizes() {
    assert_eq!(TILE_WIDTH, 32);
    assert_eq!(TILE_HEIGHT, 32);
    assert_eq!(TILE_SCALE, 32);
}

#[test]
fn color_tile_holds_what_it_was_made_with() {
    let tile = ColorTile::new((3, -4), "#FF5733", 2);
    assert_eq!(tile.pos(), (3, -4));
    assert_eq!(tile.z_index(), 2);
    assert_eq!(tile.color, "#FF5733");
    assert_eq!(tile, ColorTile { pos: (3, -4), color: "#FF5733", z_index: 2 });
    assert_ne!(tile, ColorTile::new((3, -4), "#FF5733", 1));
    assert_ne!(tile, ColorTile::new((3, -4), "#FF5734", 2));
}

#[test]
fn atlas_tile_holds_what_it_was_made_with() {
    let tile = TexturedTile::atlas((1, 2), "textures/ground.png", 7, 3);
    assert_eq!(tile.pos(), (1, 2));
    assert_eq!(tile.z_index(), 3);
    assert_eq!(tile.texture_path(), "textures/ground.png");
    assert!(matches!(
        tile,
        TexturedTile::Atlas { pos: (1, 2), texture_path: "textures/ground.png", tex_index: 7, z_index: 3 }
    ));
}

#[test]
fn single_tile_holds_what_it_was_made_with() {
    let tile = TexturedTile::single((-5, 0), "textures/rock.png", -1);
    assert_eq!(tile.pos(), (-5, 0));
    assert_eq!(tile.z_index(), -1);
    assert_eq!(tile.texture_path(), "textures/rock.png");
    assert!(matches!(
        tile,
        TexturedTile::Single { pos: (-5, 0), texture_path: "textures/rock.png", z_index: -1 }
    ));
}
