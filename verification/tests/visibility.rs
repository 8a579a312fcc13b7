use render_groups::{
    CameraView, Entity, RenderGroups, RenderLayer, RenderLayers, TextNodeFlags,
};

#[test]
fn affiliation_dominates_layer_overlap() {
    let camera = Entity(7);
    let view = CameraView::empty();
    let groups = RenderGroups::new_with_camera(camera);
    assert!(
        view.entity_is_visible(camera, &groups),
        "affiliation wins even with both layer sets empty"
    );
}

#[test]
fn foreign_or_absent_affiliation_falls_back_to_layers() {
    let camera = Entity(1);
    let other_camera = Entity(2);
    let mut view = CameraView::empty();
    view.add(RenderLayer(3));

    let mut foreign = RenderGroups::new_with_camera(other_camera);
    foreign.add(RenderLayer(3));
    assert!(view.entity_is_visible(camera, &foreign));
    let foreign_no_overlap = RenderGroups::new_with_camera(other_camera);
    assert!(!view.entity_is_visible(camera, &foreign_no_overlap));

    let mut unaffiliated = RenderGroups::empty();
    unaffiliated.add(RenderLayer(3));
    assert!(view.entity_is_visible(camera, &unaffiliated));
    unaffiliated.remove(RenderLayer(3));
    assert!(!view.entity_is_visible(camera, &unaffiliated));
}

#[test]
fn absent_groups_default_against_default_viewer() {
    let viewer = RenderGroups::default();
    assert!(
        viewer.intersects_extracted(None),
        "absent groups are treated as the default groups"
    );
    let empty_viewer = RenderGroups::empty();
    assert!(!empty_viewer.intersects_extracted(None));
    let object = RenderGroups::default();
    assert!(viewer.intersects_extracted(Some(&object)));
}

#[test]
fn scenario_filter_zero_sees_a_and_c_not_b() {
    let camera = Entity(42);
    let view = CameraView::from_layer(RenderLayer(0));
    let object_a = RenderGroups::from_layer(RenderLayer(0));
    let object_b = RenderGroups::from_layer(RenderLayer(1));
    let object_c = RenderGroups::new_with_camera(camera);
    assert!(view.entity_is_visible(camera, &object_a));
    assert!(!view.entity_is_visible(camera, &object_b));
    assert!(view.entity_is_visible(camera, &object_c));
}

#[test]
fn groups_intersects_checks_affiliation_then_layers() {
    let camera = Entity(3);
    let a = RenderGroups::new_with_camera(camera);
    let b = RenderGroups::new_with_camera(camera);
    assert!(a.intersects(&b), "equal affiliations match with no layers");

    let c = RenderGroups::new_with_camera(Entity(4));
    assert!(!a.intersects(&c), "differing affiliations do not match");

    let d = RenderGroups::from_layer(RenderLayer(5));
    assert!(!a.intersects(&d), "a lone-sided affiliation never matches");
    let mut e = RenderGroups::new_with_camera(Entity(9));
    e.add(RenderLayer(5));
    assert!(d.intersects(&e), "layer overlap matches despite affiliations");
}

#[test]
fn merge_keeps_own_camera_and_unions_layers() {
    let mut own = RenderGroups::default_with_camera(Entity(1));
    let mut other = RenderGroups::default_with_camera(Entity(2));
    other.add(RenderLayer(8));
    own.merge(&other);
    assert_eq!(own.camera(), Some(Entity(1)), "self's camera wins");
    assert!(own.contains_layer(RenderLayer(0)));
    assert!(own.contains_layer(RenderLayer(8)));

    let mut cameraless = RenderGroups::empty();
    cameraless.merge(&other);
    assert_eq!(
        cameraless.camera(),
        Some(Entity(2)),
        "other's camera is adopted when self has none"
    );
}

#[test]
fn set_and_remove_camera_return_previous() {
    let mut groups = RenderGroups::empty();
    assert_eq!(groups.set_camera(Entity(5)), None);
    assert_eq!(groups.set_camera(Entity(6)), Some(Entity(5)));
    assert_eq!(groups.camera(), Some(Entity(6)));
    assert_eq!(groups.remove_camera(), Some(Entity(6)));
    assert_eq!(groups.remove_camera(), None);
}

#[test]
fn clear_resets_layers_and_camera() {
    let mut groups = RenderGroups::default_with_camera(Entity(1));
    groups.clear();
    assert_eq!(groups.camera(), None);
    assert!(!groups.contains_layer(RenderLayer(0)));
    assert_eq!(groups.iter_layers(), vec![]);
}

#[test]
fn groups_set_from_copies_layers_and_camera() {
    let source = RenderGroups::default_with_camera(Entity(11));
    let mut target = RenderGroups::from_layer(RenderLayer(40));
    target.set_from(&source);
    assert_eq!(target.camera(), Some(Entity(11)));
    assert!(target.contains_layer(RenderLayer(0)));
    assert!(!target.contains_layer(RenderLayer(40)));
}

#[test]
fn get_groups_carries_view_layers_and_camera() {
    let camera = Entity(77);
    let mut view = CameraView::empty();
    view.add(RenderLayer(2));
    view.add(RenderLayer(65));
    let groups = view.get_groups(camera);
    assert_eq!(groups.camera(), Some(camera));
    assert_eq!(groups.iter_layers(), vec![RenderLayer(2), RenderLayer(65)]);
}

#[test]
fn camera_view_layer_management() {
    let mut view = CameraView::default();
    assert!(view.contains_layer(RenderLayer(0)));
    view.add(RenderLayer(12));
    assert_eq!(view.iter_layers(), vec![RenderLayer(0), RenderLayer(12)]);
    view.remove(RenderLayer(0));
    assert!(!view.contains_layer(RenderLayer(0)));
    view.clear();
    assert_eq!(view.iter_layers(), vec![]);
    let cloned = CameraView::from_layer(RenderLayer(3)).clone();
    assert!(cloned.contains_layer(RenderLayer(3)));
}

#[test]
fn default_constructors_carry_default_layer() {
    let groups = RenderGroups::default();
    assert!(groups.contains_layer(RenderLayer(0)));
    assert_eq!(groups.camera(), None);
    let with_camera = RenderGroups::default_with_camera(Entity(8));
    assert!(with_camera.contains_layer(RenderLayer(0)));
    assert_eq!(with_camera.camera(), Some(Entity(8)));
    let bare = RenderGroups::new_with_camera(Entity(8));
    assert!(!bare.contains_layer(RenderLayer(0)));
    let from_mask = RenderGroups::from_mask(RenderLayers::from_layers(&[RenderLayer(6)]));
    assert!(from_mask.contains_layer(RenderLayer(6)));
    assert_eq!(from_mask.camera(), None);
    let cloned = with_camera.clone();
    assert_eq!(cloned.camera(), Some(Entity(8)));
    assert!(cloned.contains_layer(RenderLayer(0)));
}

#[test]
fn fresh_text_node_flags_request_processing() {
    let flags = TextNodeFlags::default();
    assert!(flags.needs_measure_fn);
    assert!(flags.needs_recompute);
}
