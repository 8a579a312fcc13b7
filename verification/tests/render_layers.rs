use render_groups::{RenderLayer, RenderLayers, DEFAULT_RENDER_LAYER};

#[test]
fn rendering_mask_sanity() {
    assert_eq!(
        RenderLayers::default().num_layers(),
        1,
        "default layer contains only one layer"
    );
    assert!(
        RenderLayers::default().contains(RenderLayer(DEFAULT_RENDER_LAYER)),
        "default layer contains default"
    );
    assert_eq!(
        RenderLayers::from_layers(&[RenderLayer(1)]).num_layers(),
        1,
        "from contains 1 layer"
    );
    assert!(
        RenderLayers::from_layers(&[RenderLayer(1)]).contains(RenderLayer(1)),
        "contains is accurate"
    );
    assert!(
        !RenderLayers::from_layers(&[RenderLayer(1)]).contains(RenderLayer(2)),
        "contains fails when expected"
    );

    let mut mask = RenderLayers::from_layers(&[RenderLayer(0)]);
    mask.add(RenderLayer(1));
    assert_eq!(mask.bits()[0], 3, "layer 0 + 1 is mask 3");
    mask.remove(RenderLayer(0));
    assert_eq!(mask.bits()[0], 2, "layer 0 + 1 - 0 is mask 2");

    assert!(
        RenderLayers::from_layers(&[RenderLayer(1)])
            .intersects(&RenderLayers::from_layers(&[RenderLayer(1)])),
        "layers match like layers"
    );
    assert_eq!(
        RenderLayers::from_layers(&[RenderLayer(0)]).bits(),
        &[1u64],
        "a layer of 0 means the mask is just 1 bit"
    );

    let mut zero_and_three = RenderLayers::from_layers(&[RenderLayer(0)]);
    zero_and_three.add(RenderLayer(3));
    assert!(
        zero_and_three.intersects(&RenderLayers::from_layers(&[RenderLayer(3)])),
        "a mask will match another mask containing any similar layers"
    );

    assert!(
        RenderLayers::default().intersects(&RenderLayers::default()),
        "default masks match each other"
    );

    assert!(
        !RenderLayers::from_layers(&[RenderLayer(0)])
            .intersects(&RenderLayers::from_layers(&[RenderLayer(1)])),
        "masks with differing layers do not match"
    );
    assert!(
        !RenderLayers::empty().intersects(&RenderLayers::empty()),
        "empty masks don't match"
    );
    assert_eq!(
        RenderLayers::from_layers(&[
            RenderLayer(0),
            RenderLayer(2),
            RenderLayer(16),
            RenderLayer(30)
        ])
        .iter(),
        vec![
            RenderLayer(0),
            RenderLayer(2),
            RenderLayer(16),
            RenderLayer(30)
        ],
        "from and get_layers should roundtrip"
    );
    assert_eq!(
        format!(
            "{:?}",
            RenderLayers::from_layers(&[
                RenderLayer(0),
                RenderLayer(1),
                RenderLayer(2),
                RenderLayer(3)
            ])
            .iter()
        )
        .as_str(),
        "[RenderLayer(0), RenderLayer(1), RenderLayer(2), RenderLayer(3)]",
        "Debug instance shows layers"
    );

    let from_slice = RenderLayers::from_layers(&[RenderLayer(0), RenderLayer(1), RenderLayer(2)]);
    let mut from_iteration = RenderLayers::empty();
    for layer in vec![RenderLayer(0), RenderLayer(1), RenderLayer(2)] {
        from_iteration.add(layer);
    }
    assert!(
        from_slice == from_iteration,
        "from_layers and from_iter are equivalent"
    );
}

#[test]
fn count_is_number_of_distinct_layers() {
    let mask = RenderLayers::from_layers(&[
        RenderLayer(5),
        RenderLayer(5),
        RenderLayer(70),
        RenderLayer(0),
        RenderLayer(70),
    ]);
    assert_eq!(mask.num_layers(), 3);
    assert_eq!(RenderLayers::empty().num_layers(), 0);
}

#[test]
fn add_then_contains_remove_then_absent() {
    let mut mask = RenderLayers::empty();
    mask.add(RenderLayer(9));
    assert!(mask.contains(RenderLayer(9)));
    mask.remove(RenderLayer(9));
    assert!(!mask.contains(RenderLayer(9)));
}

#[test]
fn intersects_is_symmetric() {
    let a = RenderLayers::from_layers(&[RenderLayer(1), RenderLayer(66)]);
    let b = RenderLayers::from_layers(&[RenderLayer(66)]);
    let c = RenderLayers::from_layers(&[RenderLayer(2)]);
    assert_eq!(a.intersects(&b), b.intersects(&a));
    assert!(a.intersects(&b));
    assert_eq!(a.intersects(&c), c.intersects(&a));
    assert!(!a.intersects(&c));
}

#[test]
fn empty_masks_do_not_intersect_default_masks_do() {
    assert!(!RenderLayers::empty().intersects(&RenderLayers::empty()));
    assert!(RenderLayers::default().intersects(&RenderLayers::default()));
}

#[test]
fn merge_yields_superset_of_both() {
    let mut a = RenderLayers::from_layers(&[RenderLayer(0), RenderLayer(100)]);
    let b = RenderLayers::from_layers(&[RenderLayer(3), RenderLayer(100), RenderLayer(64)]);
    a.merge(&b);
    for layer in [0, 3, 64, 100] {
        assert!(a.contains(RenderLayer(layer)));
    }
    assert_eq!(a.num_layers(), 4);
}

#[test]
fn iter_lists_distinct_layers_ascending() {
    let mask = RenderLayers::from_layers(&[
        RenderLayer(30),
        RenderLayer(2),
        RenderLayer(2),
        RenderLayer(0),
        RenderLayer(16),
    ]);
    assert_eq!(
        mask.iter(),
        vec![
            RenderLayer(0),
            RenderLayer(2),
            RenderLayer(16),
            RenderLayer(30)
        ]
    );
}

#[test]
fn first_word_tracks_low_layer_bits() {
    let mut mask = RenderLayers::from_layers(&[RenderLayer(0)]);
    mask.add(RenderLayer(1));
    assert_eq!(mask.bits()[0], 0b11);
    mask.remove(RenderLayer(0));
    assert_eq!(mask.bits()[0], 0b10);
}

#[test]
fn storage_grows_by_words_and_never_shrinks() {
    let mut mask = RenderLayers::empty();
    assert_eq!(mask.bits().len(), 0);
    mask.add(RenderLayer(63));
    assert_eq!(mask.bits().len(), 1);
    mask.add(RenderLayer(130));
    assert_eq!(mask.bits().len(), 3);
    assert!(mask.contains(RenderLayer(130)));
    mask.remove(RenderLayer(130));
    assert_eq!(mask.bits().len(), 3, "removal never shrinks the backing");
    assert!(!mask.contains(RenderLayer(130)));
    assert!(mask.contains(RenderLayer(63)));
}

#[test]
fn remove_beyond_storage_is_a_no_op() {
    let mut mask = RenderLayers::from_layers(&[RenderLayer(1)]);
    mask.remove(RenderLayer(9999));
    assert_eq!(mask.bits().len(), 1);
    assert!(mask.contains(RenderLayer(1)));
}

#[test]
fn clear_empties_without_error() {
    let mut mask = RenderLayers::from_layers(&[RenderLayer(7), RenderLayer(200)]);
    mask.clear();
    assert_eq!(mask.num_layers(), 0);
    assert!(!mask.contains(RenderLayer(7)));
    assert_eq!(mask.bits().len(), 0);
}

#[test]
fn set_from_copies_content_and_length() {
    let source = RenderLayers::from_layers(&[RenderLayer(2), RenderLayer(90)]);
    let mut target = RenderLayers::from_layers(&[RenderLayer(5)]);
    target.set_from(&source);
    assert_eq!(target.bits(), source.bits());
    assert!(target.contains(RenderLayer(90)));
    assert!(!target.contains(RenderLayer(5)));
}

#[test]
fn clone_copies_and_stays_independent() {
    let mut source = RenderLayers::from_layers(&[RenderLayer(4)]);
    let copy = source.clone();
    source.add(RenderLayer(8));
    assert!(copy.contains(RenderLayer(4)));
    assert!(!copy.contains(RenderLayer(8)));
    assert!(source.contains(RenderLayer(8)));
}

#[test]
fn intersection_stops_at_shorter_mask() {
    let short = RenderLayers::from_layers(&[RenderLayer(1)]);
    let long = RenderLayers::from_layers(&[RenderLayer(100)]);
    assert!(!short.intersects(&long));
    assert!(!long.intersects(&short));
    let both = RenderLayers::from_layers(&[RenderLayer(1), RenderLayer(100)]);
    assert!(both.intersects(&long));
    assert!(long.intersects(&both));
}

#[test]
fn layer_is_default_only_for_index_zero() {
    assert!(RenderLayer(0).is_default());
    assert!(RenderLayer::default().is_default());
    assert!(!RenderLayer(1).is_default());
    assert_eq!(RenderLayer::default(), RenderLayer(DEFAULT_RENDER_LAYER));
}

#[test]
fn equality_goes_by_effective_bit_content() {
    let mut grown = RenderLayers::from_layers(&[RenderLayer(2), RenderLayer(130)]);
    grown.remove(RenderLayer(130));
    let plain = RenderLayers::from_layers(&[RenderLayer(2)]);
    assert_eq!(grown.bits().len(), 3);
    assert_eq!(plain.bits().len(), 1);
    assert!(
        grown == plain,
        "trailing all-zero words take no part in equality"
    );
    assert!(plain == grown);
    assert!(grown != RenderLayers::from_layers(&[RenderLayer(3)]));
    assert!(RenderLayers::empty() == RenderLayers::empty());
    assert!(RenderLayers::empty() != RenderLayers::default());
}

#[test]
fn from_layers_produces_minimal_backing() {
    assert_eq!(RenderLayers::from_layers(&[]).bits().len(), 0);
    assert_eq!(RenderLayers::from_layers(&[RenderLayer(63)]).bits().len(), 1);
    assert_eq!(
        RenderLayers::from_layers(&[RenderLayer(70), RenderLayer(2)])
            .bits()
            .len(),
        2
    );
}
