use portals::render::painter::pipeline::{drops_bind_group, ImageEventKind};
use portals::render::painter::pipeline::{
    batching_fits, painter_shader_defs, prepare_painters, queue_painter_requests, texture_binding, view_sprite_shading,
    Blending, NoCurrentBatch, SpriteShading,
    PainterBatch, PainterPipelineKey, PainterPipelineKeys, ResolvedItem, ShaderDef, TextureBinding, TonemapMethod,
    INVALID_IMAGE,
};
use portals::render::painter::vertex::{grown_vertex_buffer_size, Painter, PainterQuads, RequestKey, Vertex};

fn vertex(n: u32) -> Vertex {
    Vertex { position: [n, n], color: [n; 4], uv: [n, n] }
}

fn quad(n: u32) -> [Vertex; 4] {
    [vertex(n), vertex(n + 1), vertex(n + 2), vertex(n + 3)]
}

fn item(entity: u64, q: usize, image: u64) -> ResolvedItem {
    ResolvedItem { entity, request: Some((q, image)), image_ready: true }
}

fn batch_key(view: u64, entity: u64) -> u128 {
    ((view as u128) << 64) | entity as u128
}

#[test]
fn blend_keys() {
    assert_eq!(PainterPipelineKey::from_blend(Blending::Normal), PainterPipelineKey(0));
    assert_eq!(PainterPipelineKey::from_blend(Blending::Additive), PainterPipelineKey(1));
    assert!(PainterPipelineKey(1).is_additive());
    assert!(!PainterPipelineKey(2).is_additive());
    assert_eq!(Blending::default(), Blending::Normal);
}

#[test]
fn key_bits_put_the_painter_key_high() {
    let k = PainterPipelineKeys { sprite_key: 0xdead_beef, painter_key: PainterPipelineKey(1) };
    assert_eq!(k.to_bits(), 0x1_dead_beef);
    let same = PainterPipelineKeys { sprite_key: 0xdead_beef, painter_key: PainterPipelineKey(1) };
    let other = PainterPipelineKeys { sprite_key: 0xdead_beef, painter_key: PainterPipelineKey(0) };
    assert!(k == same);
    assert!(k != other);
}

#[test]
fn requests_name_the_first_vertex_of_their_quad() {
    let mut quads = PainterQuads::default();
    let mut a = Painter::default();
    let mut b = Painter::default();
    let key = |image| RequestKey { image, blend: Blending::Additive, layer: 7 };
    quads.request(&mut a, 5, Blending::Additive, 7, vec![quad(0), quad(10)]);
    quads.request(&mut b, 6, Blending::Additive, 7, vec![quad(20)]);
    quads.request(&mut a, 5, Blending::Additive, 7, vec![quad(30)]);
    let ra = a.take_requests();
    let rb = b.take_requests();
    assert_eq!(ra.iter().map(|r| r.0).collect::<Vec<_>>(), vec![0, 4, 12]);
    assert_eq!(rb.iter().map(|r| r.0).collect::<Vec<_>>(), vec![8]);
    assert!(ra.iter().all(|r| r.1.image == key(5).image && r.1.layer == 7));
    assert_eq!(rb[0].1.image, 6);
    let all = quads.take_quads();
    assert_eq!(all.len(), 4);
    assert_eq!(all[2][0].position, [20, 20]);
    assert!(a.take_requests().is_empty());
    assert!(quads.take_quads().is_empty());
}

#[test]
fn default_request_key() {
    let k = RequestKey::default();
    assert_eq!((k.image, k.blend, k.layer), (0, Blending::Normal, 0));
}

#[test]
fn queued_requests_keep_their_position() {
    let requests = vec![
        (0, RequestKey { image: 1, blend: Blending::Normal, layer: 3 }),
        (4, RequestKey { image: 2, blend: Blending::Additive, layer: 9 }),
    ];
    let q = queue_painter_requests(&requests);
    assert_eq!(q.len(), 2);
    assert_eq!((q[0].extracted_index, q[0].layer, q[0].painter_key), (0, 3, PainterPipelineKey(0)));
    assert_eq!((q[1].extracted_index, q[1].layer, q[1].painter_key), (1, 9, PainterPipelineKey(1)));
}

#[test]
fn consecutive_items_with_one_image_share_a_batch() {
    let views = vec![(3, vec![item(1, 0, 10), item(1, 4, 10), item(2, 8, 20)])];
    let p = prepare_painters(&views).unwrap();
    assert_eq!(p.indices.0, vec![0, 1, 2, 2, 3, 0, 4, 5, 6, 6, 7, 4, 8, 9, 10, 10, 11, 8]);
    assert_eq!(p.batches.0.get(&batch_key(3, 1)), Some(&PainterBatch { image: 10, start: 0, end: 12 }));
    assert_eq!(p.batches.0.get(&batch_key(3, 2)), Some(&PainterBatch { image: 20, start: 12, end: 18 }));
    assert_eq!(p.batch_ends, vec![vec![2, 0, 1]]);
    assert_eq!(p.bind_images, vec![10, 20]);
}

#[test]
fn views_continue_the_index_buffer() {
    let views = vec![(1, vec![item(1, 0, 10)]), (2, vec![item(1, 0, 10)])];
    let p = prepare_painters(&views).unwrap();
    assert_eq!(p.indices.0.len(), 12);
    assert_eq!(p.batches.0.get(&batch_key(1, 1)), Some(&PainterBatch { image: 10, start: 0, end: 6 }));
    assert_eq!(p.batches.0.get(&batch_key(2, 1)), Some(&PainterBatch { image: 10, start: 6, end: 12 }));
    assert_eq!(p.bind_images, vec![10, 10]);
}

#[test]
fn missing_requests_end_a_batch() {
    let gone = ResolvedItem { entity: 1, request: None, image_ready: true };
    let views = vec![(0, vec![item(1, 0, 10), gone, item(1, 4, 10)])];
    let p = prepare_painters(&views).unwrap();
    assert_eq!(p.batch_ends, vec![vec![1, 0, 1]]);
    assert_eq!(p.bind_images, vec![10, 10]);
    assert_eq!(p.batches.0.get(&batch_key(0, 1)), Some(&PainterBatch { image: 10, start: 6, end: 12 }));
}

#[test]
fn an_image_not_on_the_gpu_is_skipped_once() {
    let not_ready = ResolvedItem { entity: 2, request: Some((8, 20)), image_ready: false };
    let views = vec![(0, vec![item(1, 0, 10), not_ready, item(2, 12, 30)])];
    let p = prepare_painters(&views).unwrap();
    assert_eq!(p.indices.0.len(), 12);
    assert_eq!(p.bind_images, vec![10, 30]);
}

#[test]
fn a_second_item_of_an_unready_image_joins_the_previous_batch() {
    let not_ready = |e| ResolvedItem { entity: e, request: Some((8, 20)), image_ready: false };
    let views = vec![(0, vec![item(1, 0, 10), not_ready(2), not_ready(3)])];
    let p = prepare_painters(&views).unwrap();
    assert_eq!(p.batch_ends, vec![vec![2, 0, 0]]);
    assert_eq!(p.batches.0.get(&batch_key(0, 1)), Some(&PainterBatch { image: 10, start: 0, end: 12 }));
}

#[test]
fn drawing_before_any_batch_fails() {
    let not_ready = |e| ResolvedItem { entity: e, request: Some((0, 20)), image_ready: false };
    let views = vec![(0, vec![not_ready(1), not_ready(2)])];
    assert!(matches!(prepare_painters(&views), Err(NoCurrentBatch)));
    let views = vec![(0, vec![item(1, 0, INVALID_IMAGE)])];
    assert!(matches!(prepare_painters(&views), Err(NoCurrentBatch)));
}

#[test]
fn indices_are_truncated_to_32_bits() {
    let q = (1usize << 32) + 5;
    let views = vec![(0, vec![item(1, q, 10)])];
    let p = prepare_painters(&views).unwrap();
    assert_eq!(p.indices.0, vec![5, 6, 7, 7, 8, 5]);
}

#[test]
fn shader_defs_for_tonemapping() {
    assert!(painter_shader_defs(false, TonemapMethod::AgX, true).is_empty());
    assert_eq!(
        painter_shader_defs(true, TonemapMethod::AgX, false),
        vec![
            ShaderDef::TonemapInShader,
            ShaderDef::TonemappingLutTextureBindingIndex(1),
            ShaderDef::TonemappingLutSamplerBindingIndex(2),
            ShaderDef::Method(TonemapMethod::AgX),
        ]
    );
    assert_eq!(painter_shader_defs(true, TonemapMethod::Plain, true).last(), Some(&ShaderDef::DebandDither));
}

#[test]
fn the_vertex_buffer_grows_by_doubling() {
    assert_eq!(grown_vertex_buffer_size(100, 50, 4), None);
    assert_eq!(grown_vertex_buffer_size(100, 100, 4), None);
    assert_eq!(grown_vertex_buffer_size(100, 150, 4), Some(200));
    assert_eq!(grown_vertex_buffer_size(100, 301, 4), Some(304));
    assert_eq!(grown_vertex_buffer_size(7, 8, 4), Some(16));
    assert_eq!(grown_vertex_buffer_size(0, 3, 4), Some(4));
}

#[test]
fn requests_stay_within_the_belt_limit() {
    let mut quads = PainterQuads::default();
    let mut a = Painter::default();
    let limit = usize::MAX / 256;
    assert!(quads.can_request(&a, 0));
    assert!(quads.can_request(&a, limit));
    assert!(!quads.can_request(&a, limit + 1));
    quads.request(&mut a, 1, Blending::Normal, 0, vec![quad(0), quad(1)]);
    assert!(quads.can_request(&a, limit - 2));
    assert!(!quads.can_request(&a, limit - 1));
}

#[test]
fn each_run_of_one_image_is_one_batch() {
    let views = vec![(5, vec![
        item(1, 0, 10),
        item(2, 4, 10),
        item(3, 8, 10),
        item(4, 12, 20),
        item(5, 16, 10),
        item(6, 20, 10),
    ])];
    let p = prepare_painters(&views).unwrap();
    assert_eq!(p.batch_ends, vec![vec![3, 0, 0, 1, 2, 0]]);
    assert_eq!(p.batches.0.get(&batch_key(5, 1)), Some(&PainterBatch { image: 10, start: 0, end: 18 }));
    assert_eq!(p.batches.0.get(&batch_key(5, 4)), Some(&PainterBatch { image: 20, start: 18, end: 24 }));
    assert_eq!(p.batches.0.get(&batch_key(5, 5)), Some(&PainterBatch { image: 10, start: 24, end: 36 }));
    assert_eq!(p.batches.0.len(), 3);
    assert_eq!(p.indices.0.len(), 36);
}

#[test]
fn batches_bind_their_texture_or_the_fallback() {
    let b = |image| Some(PainterBatch { image, start: 0, end: 6 });
    assert_eq!(texture_binding(None, 0, true), TextureBinding::Skip);
    assert_eq!(texture_binding(b(0), 0, false), TextureBinding::Fallback);
    assert_eq!(texture_binding(b(7), 0, true), TextureBinding::Image(7));
    assert_eq!(texture_binding(b(7), 0, false), TextureBinding::Skip);
}

#[test]
fn only_drawn_items_count_against_the_index_limit() {
    let views = vec![(0, vec![item(1, 0, 10), item(2, 4, 10)])];
    assert!(batching_fits(&views));
    // A quad index at the very top is refused only where the item is drawn.
    let gone = ResolvedItem { entity: 3, request: None, image_ready: true };
    let not_ready = ResolvedItem { entity: 4, request: Some((usize::MAX, 20)), image_ready: false };
    assert!(batching_fits(&vec![(0, vec![item(1, 0, 10), gone, not_ready])]));
    assert!(!batching_fits(&vec![(0, vec![item(1, usize::MAX - 2, 10)])]));
    assert!(batching_fits(&vec![(0, vec![item(1, usize::MAX - 3, 10)])]));
}

#[test]
fn hdr_views_tone_map_later() {
    let plain = |hdr, tonemap_in_shader, method, deband_dither| SpriteShading { hdr, tonemap_in_shader, method, deband_dither };
    assert_eq!(view_sprite_shading(true, Some(TonemapMethod::AgX), true), plain(true, false, TonemapMethod::Plain, false));
    assert_eq!(view_sprite_shading(false, Some(TonemapMethod::AgX), true), plain(false, true, TonemapMethod::AgX, true));
    assert_eq!(view_sprite_shading(false, None, true), plain(false, false, TonemapMethod::Plain, true));
}

#[test]
fn changed_images_drop_their_bind_group() {
    assert!(!drops_bind_group(ImageEventKind::Added));
    assert!(!drops_bind_group(ImageEventKind::LoadedWithDependencies));
    assert!(drops_bind_group(ImageEventKind::Unused));
    assert!(drops_bind_group(ImageEventKind::Modified));
    assert!(drops_bind_group(ImageEventKind::Removed));
}
