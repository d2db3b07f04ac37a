use portals::camera::pool::{
    free_pooled_cameras, init_camera_pool, update_pooled_dirty_images, update_primary_camera, CameraPool,
};
use portals::camera::spawn_camera;
use portals::math::UVec2;

fn pool_with(cameras: &[u64]) -> CameraPool<&'static str> {
    let mut pool = init_camera_pool();
    for &e in cameras {
        assert_eq!(pool.obtain(), None);
        pool.register(e, "image");
    }
    pool
}

#[test]
fn new_pool_is_empty() {
    let pool: CameraPool<u32> = init_camera_pool();
    assert!(!pool.needs_resize());
    assert!(pool.images().is_empty());
    assert!(pool.in_use().is_empty());
    assert!(pool.free_cameras().is_empty());
    assert_eq!(pool.dirty_image(), 0);
}

#[test]
fn obtain_without_free_cameras_asks_for_a_new_one() {
    let mut pool: CameraPool<u32> = init_camera_pool();
    assert_eq!(pool.obtain(), None);
    pool.register(7, 70);
    assert_eq!(pool.in_use(), &vec![7]);
    assert_eq!(pool.images(), &vec![70]);
}

#[test]
fn freeing_moves_every_camera_in_use_to_free() {
    let mut pool = pool_with(&[1, 2, 3]);
    let freed = free_pooled_cameras(&mut pool);
    assert_eq!(freed, vec![1, 2, 3]);
    assert!(pool.in_use().is_empty());
    assert_eq!(pool.free_cameras(), &vec![1, 2, 3]);
    assert_eq!(pool.images().len(), 3);
}

#[test]
fn obtain_after_free_reuses_last_freed_first() {
    let mut pool = pool_with(&[1, 2, 3]);
    free_pooled_cameras(&mut pool);
    assert_eq!(pool.obtain(), Some(3));
    assert_eq!(pool.obtain(), Some(2));
    assert_eq!(pool.obtain(), Some(1));
    assert_eq!(pool.obtain(), None);
    assert_eq!(pool.in_use(), &vec![3, 2, 1]);
    assert_eq!(pool.images().len(), 3);
}

#[test]
fn free_appends_after_cameras_already_free() {
    let mut pool = pool_with(&[1, 2]);
    free_pooled_cameras(&mut pool);
    assert_eq!(pool.obtain(), Some(2));
    let freed = free_pooled_cameras(&mut pool);
    assert_eq!(freed, vec![2]);
    assert_eq!(pool.free_cameras(), &vec![1, 2]);
}

#[test]
fn dirty_images_are_the_new_ones() {
    let mut pool = pool_with(&[1, 2]);
    let size = Some(UVec2 { x: 640, y: 480 });
    assert_eq!(update_pooled_dirty_images(&mut pool, size), Some((0, 2)));
    assert_eq!(update_pooled_dirty_images(&mut pool, size), Some((2, 2)));
    assert_eq!(pool.obtain(), None);
    pool.register(3, "image");
    assert_eq!(update_pooled_dirty_images(&mut pool, size), Some((2, 3)));
}

#[test]
fn no_target_leaves_images_alone() {
    let mut pool = pool_with(&[1]);
    assert_eq!(update_pooled_dirty_images(&mut pool, None), None);
    assert_eq!(pool.dirty_image(), 0);
}

#[test]
fn resize_rebuilds_every_image() {
    let mut pool = pool_with(&[1, 2]);
    let mut last = UVec2 { x: 640, y: 480 };
    assert_eq!(update_pooled_dirty_images(&mut pool, Some(last)), Some((0, 2)));
    update_primary_camera(&mut pool, &mut last, Some(UVec2 { x: 640, y: 480 }));
    assert!(!pool.needs_resize());
    update_primary_camera(&mut pool, &mut last, Some(UVec2 { x: 800, y: 600 }));
    assert!(pool.needs_resize());
    assert_eq!(last, UVec2 { x: 800, y: 600 });
    assert_eq!(update_pooled_dirty_images(&mut pool, Some(last)), Some((0, 2)));
    assert!(!pool.needs_resize());
    assert_eq!(pool.dirty_image(), 2);
}

#[test]
fn missing_target_size_is_ignored() {
    let mut pool = pool_with(&[1]);
    let mut last = UVec2 { x: 1, y: 1 };
    update_primary_camera(&mut pool, &mut last, None);
    assert!(!pool.needs_resize());
    assert_eq!(last, UVec2 { x: 1, y: 1 });
}

#[test]
fn a_pending_resize_survives_a_frame_without_target() {
    let mut pool = pool_with(&[1]);
    let mut last = UVec2 { x: 1, y: 1 };
    update_primary_camera(&mut pool, &mut last, Some(UVec2 { x: 2, y: 2 }));
    assert_eq!(update_pooled_dirty_images(&mut pool, None), None);
    assert!(pool.needs_resize());
}

#[test]
fn primary_camera_sees_scene_and_first_portal_layer() {
    assert_eq!(spawn_camera(), [0, 8]);
}
