use portals::math::{URect, UVec2};
use portals::render::atlas::page::{
    prepare_atlas_requests, AtlasError, AtlasInfo, AtlasPacking, AtlasPages, AtlasWrite, PageInfo,
};
use portals::render::atlas::region::AtlasRegion;

fn size(x: u32, y: u32) -> UVec2 {
    UVec2 { x, y }
}

fn disjoint(a: URect, b: URect) -> bool {
    a.max.x <= b.min.x || b.max.x <= a.min.x || a.max.y <= b.min.y || b.max.y <= a.min.y
}

/// Serves a request as the game does: packs into a page, or makes one.
fn serve(pages: &mut AtlasPages, writes: &mut Vec<AtlasWrite>, limit: u32, s: UVec2, next_texture: &mut u64) -> Result<AtlasInfo, AtlasError> {
    let data = vec![7u8; (s.x * s.y * 4) as usize];
    match pages.handle_atlas_request(writes, limit, s, Some(data), true)? {
        AtlasPacking::Packed(info) => Ok(info),
        AtlasPacking::NeedsPage { data, max_size } => {
            *next_texture += 1;
            Ok(pages.add_page_and_pack(writes, *next_texture, max_size, data, s))
        },
    }
}

#[test]
fn first_sprite_opens_a_page_and_sits_one_texel_in() {
    let mut pages = AtlasPages::new();
    let mut writes = vec![];
    let mut tex = 0;
    let info = serve(&mut pages, &mut writes, 64, size(10, 6), &mut tex).unwrap();
    assert_eq!(pages.len(), 1);
    assert_eq!(info.page, PageInfo { texture: 1, texture_size: size(64, 64) });
    assert_eq!(info.rect, URect { min: size(1, 1), max: size(11, 7) });
    assert_eq!(writes.len(), 1);
    assert_eq!(writes[0].page, 1);
    assert_eq!(writes[0].rect, info.rect);
    assert_eq!(writes[0].data.len(), 240);
}

#[test]
fn sprites_share_a_page_without_overlap() {
    let mut pages = AtlasPages::new();
    let mut writes = vec![];
    let mut tex = 0;
    let mut rects = vec![];
    for i in 0..12u32 {
        let info = serve(&mut pages, &mut writes, 64, size(5 + i % 4, 3 + i % 5), &mut tex).unwrap();
        assert_eq!(info.rect.max.x - info.rect.min.x, 5 + i % 4);
        assert_eq!(info.rect.max.y - info.rect.min.y, 3 + i % 5);
        assert!(info.rect.min.x >= 1 && info.rect.max.x <= 63);
        assert!(info.rect.min.y >= 1 && info.rect.max.y <= 63);
        rects.push(info);
    }
    assert_eq!(pages.len(), 1);
    for (i, a) in rects.iter().enumerate() {
        for b in &rects[i + 1..] {
            assert!(disjoint(a.rect, b.rect));
        }
    }
}

#[test]
fn a_full_page_makes_another() {
    let mut pages = AtlasPages::new();
    let mut writes = vec![];
    let mut tex = 0;
    let a = serve(&mut pages, &mut writes, 16, size(14, 14), &mut tex).unwrap();
    let b = serve(&mut pages, &mut writes, 16, size(14, 14), &mut tex).unwrap();
    assert_eq!(pages.len(), 2);
    assert_eq!(a.page.texture, 1);
    assert_eq!(b.page.texture, 2);
    assert_eq!(b.rect, URect { min: size(1, 1), max: size(15, 15) });
    assert_eq!(pages.page_info(1), b.page);
}

#[test]
fn the_page_size_is_capped() {
    let mut pages = AtlasPages::new();
    let mut writes = vec![];
    let mut tex = 0;
    let info = serve(&mut pages, &mut writes, 100_000, size(1, 1), &mut tex).unwrap();
    assert_eq!(info.page.texture_size, size(8192, 8192));
}

#[test]
fn too_large_sprites_are_refused() {
    let mut pages = AtlasPages::new();
    let mut writes = vec![];
    let r = pages.handle_atlas_request(&mut writes, 32, size(33, 2), Some(vec![0; 33 * 2 * 4]), true);
    assert_eq!(r.err(), Some(AtlasError::TooLarge { size: size(33, 2), max_size: 32 }));
    assert_eq!(pages.len(), 0);
    assert!(writes.is_empty());
}

#[test]
fn sprites_without_pixels_or_in_another_format_are_refused() {
    let mut pages = AtlasPages::new();
    let mut writes = vec![];
    let r = pages.handle_atlas_request(&mut writes, 32, size(2, 2), None, true);
    assert_eq!(r.err(), Some(AtlasError::MissingData));
    let r = pages.handle_atlas_request(&mut writes, 32, size(2, 2), Some(vec![0; 16]), false);
    assert_eq!(r.err(), Some(AtlasError::MissingData));
    assert!(writes.is_empty());
}

#[test]
fn without_pages_a_new_one_is_needed() {
    let mut pages = AtlasPages::new();
    let mut writes = vec![];
    match pages.handle_atlas_request(&mut writes, 32, size(2, 2), Some(vec![1; 16]), true) {
        Ok(AtlasPacking::NeedsPage { data, max_size }) => {
            assert_eq!(data, vec![1; 16]);
            assert_eq!(max_size, 32);
        },
        _ => panic!("expected a new page to be needed"),
    }
}

#[test]
fn writes_wait_for_their_page_texture() {
    let rect = URect { min: size(1, 1), max: size(2, 2) };
    let mut writes = vec![
        AtlasWrite { page: 1, data: vec![1], rect },
        AtlasWrite { page: 2, data: vec![2], rect },
        AtlasWrite { page: 1, data: vec![3], rect },
    ];
    let now = prepare_atlas_requests(&mut writes, &vec![1]);
    assert_eq!(now.iter().map(|w| w.data[0]).collect::<Vec<_>>(), vec![1, 3]);
    assert_eq!(writes.iter().map(|w| w.data[0]).collect::<Vec<_>>(), vec![2]);
}

#[test]
fn uv_corners_go_round_the_sprite() {
    let info = AtlasInfo {
        page: PageInfo { texture: 1, texture_size: size(64, 64) },
        rect: URect { min: size(1, 2), max: size(11, 7) },
    };
    assert_eq!(info.uvs(), [size(1, 2), size(11, 7)]);
    assert_eq!(info.uv_corners(), [size(1, 7), size(11, 7), size(11, 2), size(1, 2)]);
    let region = AtlasRegion { info };
    assert_eq!(region.info.rect.min, size(1, 2));
}

#[test]
fn the_first_page_with_room_takes_the_sprite() {
    let mut pages = AtlasPages::new();
    let mut writes = vec![];
    let mut tex = 0;
    // Two pages: the first nearly full, the second with room.
    serve(&mut pages, &mut writes, 16, size(14, 10), &mut tex).unwrap();
    serve(&mut pages, &mut writes, 16, size(14, 14), &mut tex).unwrap();
    assert_eq!(pages.len(), 2);
    // 14 x 2 fits only what is left of the first page.
    let a = serve(&mut pages, &mut writes, 16, size(14, 2), &mut tex).unwrap();
    assert_eq!(a.page.texture, 1);
    assert_eq!(a.rect, URect { min: size(1, 13), max: size(15, 15) });
    // The first page is full now; nothing of this size fits the second either.
    let b = serve(&mut pages, &mut writes, 16, size(2, 2), &mut tex).unwrap();
    assert_eq!(b.page.texture, 3);
    assert_eq!(pages.len(), 3);
}

#[test]
fn a_page_with_sprites_still_takes_what_fits() {
    let mut pages = AtlasPages::new();
    let mut writes = vec![];
    let mut tex = 0;
    serve(&mut pages, &mut writes, 64, size(30, 30), &mut tex).unwrap();
    match pages.handle_atlas_request(&mut writes, 64, size(30, 30), Some(vec![0; 3600]), true) {
        Ok(AtlasPacking::Packed(info)) => {
            assert_eq!(info.page.texture, 1);
            assert_eq!(info.rect.max.x - info.rect.min.x, 30);
        },
        _ => panic!("expected the sprite to be packed into the existing page"),
    }
    assert_eq!(pages.len(), 1);
}

#[test]
fn pages_are_found_by_texture() {
    let mut pages = AtlasPages::new();
    let mut writes = vec![];
    let mut tex = 4;
    assert!(!pages.has_texture(5));
    serve(&mut pages, &mut writes, 16, size(2, 2), &mut tex).unwrap();
    assert!(pages.has_texture(5));
    assert!(!pages.has_texture(4));
}
