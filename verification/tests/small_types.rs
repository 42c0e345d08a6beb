use jlh_maps::map_view::{atlas_viewport, viewport_needs_update, AtlasViewport, MapTextureAtlasSlot};
use jlh_maps::entity_spawner::{entity_sync_plan, EntitySyncPlan};
use jlh_maps::lighting::{CelestialDirectionalLight, CelestialDirectionalLightKind};
use jlh_maps::osm_element::{element_key, OsmType};

#[test]
fn lights_pick_their_own_body() {
    let sun = CelestialDirectionalLight { kind: CelestialDirectionalLightKind::Sun };
    let moon = CelestialDirectionalLight { kind: CelestialDirectionalLightKind::Moon };
    assert_eq!(sun.kind.select("warm", "cold"), "warm");
    assert_eq!(moon.kind.select(1.0, 0.2), 0.2);
}

#[test]
fn element_keys_use_one_letter_prefixes() {
    assert_eq!(OsmType::Node.prefix(), "N");
    assert_eq!(OsmType::Way.prefix(), "W");
    assert_eq!(OsmType::Relation.prefix(), "R");
    assert_eq!(element_key(OsmType::Way, 42), ("W".to_string(), 42));
}

#[test]
fn entity_spawner_reuses_spawns_and_despawns_by_position() {
    assert_eq!(
        entity_sync_plan(2, 5),
        EntitySyncPlan { update: 2, spawn_from: 2, spawn_to: 5, despawn_from: 2, despawn_to: 2 }
    );
    assert_eq!(
        entity_sync_plan(4, 1),
        EntitySyncPlan { update: 1, spawn_from: 4, spawn_to: 4, despawn_from: 1, despawn_to: 4 }
    );
    assert_eq!(
        entity_sync_plan(3, 3),
        EntitySyncPlan { update: 3, spawn_from: 3, spawn_to: 3, despawn_from: 3, despawn_to: 3 }
    );
}

#[test]
fn atlas_slots_take_their_column() {
    assert_eq!(MapTextureAtlasSlot::Terrain.index(), 0);
    assert_eq!(MapTextureAtlasSlot::Overlay.index(), 1);
    assert_eq!(
        atlas_viewport(1920, 1080, MapTextureAtlasSlot::Overlay),
        Some(AtlasViewport { x: 960, y: 0, width: 960, height: 1080 })
    );
    assert_eq!(
        atlas_viewport(1921, 1080, MapTextureAtlasSlot::Terrain),
        Some(AtlasViewport { x: 0, y: 0, width: 960, height: 1080 })
    );
    assert_eq!(atlas_viewport(1, 1080, MapTextureAtlasSlot::Terrain), None);
    assert_eq!(atlas_viewport(800, 0, MapTextureAtlasSlot::Terrain), None);
}

#[test]
fn viewports_update_only_when_they_change() {
    let v = AtlasViewport { x: 0, y: 0, width: 10, height: 20 };
    assert!(viewport_needs_update(None, v));
    assert!(!viewport_needs_update(Some(v), v));
    assert!(viewport_needs_update(Some(AtlasViewport { width: 11, ..v }), v));
}
