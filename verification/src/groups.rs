//! Object- and camera-side visibility groups.
//!
//! [`RenderGroups`] sits on a renderable entity and holds the layers it
//! belongs to plus an optional affiliation with one specific camera.
//! [`CameraView`] sits on a camera entity and holds the layers that camera
//! can see. Visibility resolution gives affiliation precedence: an object
//! affiliated with the camera is visible regardless of layer overlap, and
//! otherwise visibility is plain layer-set intersection.

use vstd::prelude::*;

use crate::layer::{RenderLayer, DEFAULT_RENDER_LAYER};
use crate::layers::{sets_intersect, RenderLayers};

verus! {

/// Identifies a camera entity that an object can affiliate with.
///
/// The surrounding scene storage assigns these identifiers; this crate only
/// stores and compares them.
#[derive(Debug, Copy, Clone, Eq, PartialEq, Structural)]
pub struct Entity(pub u64);

/// Component on an entity that controls which cameras can see it.
///
/// There are two kinds of render groups:
/// - [`RenderLayers`]: grouping categories that many cameras can view (see
///   [`CameraView`]).
/// - *Camera entity*: one specific camera the entity is affiliated with,
///   which that camera sees regardless of layers.
///
/// A default-constructed `RenderGroups` includes [`DEFAULT_RENDER_LAYER`]
/// and no affiliation; [`Self::empty`] includes neither.
pub struct RenderGroups {
    layers: RenderLayers,
    camera: Option<Entity>,
}

/// True if two groups match: both affiliate with the same camera, or their
/// layer sets intersect. A one-sided affiliation never matches.
pub open spec fn spec_groups_intersect(a: RenderGroups, b: RenderGroups) -> bool {
    (a.spec_camera() is Some && a.spec_camera() == b.spec_camera()) || sets_intersect(
        a.layer_set(),
        b.layer_set(),
    )
}

impl RenderGroups {
    /// The layer bitmask of the groups.
    pub closed spec fn spec_layers(&self) -> RenderLayers {
        self.layers
    }

    /// The camera affiliation of the groups, if any.
    pub closed spec fn spec_camera(&self) -> Option<Entity> {
        self.camera
    }

    /// The set of all layers the groups hold.
    pub open spec fn layer_set(&self) -> Set<nat> {
        self.spec_layers().layer_set()
    }

    pub open spec fn wf(&self) -> bool {
        self.spec_layers().wf()
    }

    /// Makes a new `RenderGroups` with no layers and no affiliation.
    pub fn empty() -> (r: Self)
        ensures
            r.wf(),
            r.layer_set() == Set::<nat>::empty(),
            r.spec_camera() == Option::<Entity>::None,
    {
        RenderGroups { layers: RenderLayers::empty(), camera: None }
    }

    /// Makes a new `RenderGroups` with just a camera affiliation.
    pub fn new_with_camera(camera: Entity) -> (r: Self)
        ensures
            r.wf(),
            r.layer_set() == Set::<nat>::empty(),
            r.spec_camera() == Some(camera),
    {
        RenderGroups { layers: RenderLayers::empty(), camera: Some(camera) }
    }

    /// Makes a new `RenderGroups` with a camera affiliation and the
    /// [`DEFAULT_RENDER_LAYER`].
    pub fn default_with_camera(camera: Entity) -> (r: Self)
        ensures
            r.wf(),
            r.layer_set() == Set::<nat>::empty().insert(DEFAULT_RENDER_LAYER as nat),
            r.spec_camera() == Some(camera),
    {
        RenderGroups { layers: RenderLayers::default(), camera: Some(camera) }
    }

    /// Makes a new `RenderGroups` holding exactly one layer, with no
    /// affiliation.
    pub fn from_layer(layer: RenderLayer) -> (r: Self)
        ensures
            r.wf(),
            r.layer_set() == Set::<nat>::empty().insert(layer.0 as nat),
            r.spec_camera() == Option::<Entity>::None,
    {
        let mut layers = RenderLayers::empty();
        layers.add(layer);
        RenderGroups { layers, camera: None }
    }

    /// Makes a new `RenderGroups` from a layer bitmask, with no affiliation.
    pub fn from_mask(layers: RenderLayers) -> (r: Self)
        ensures
            r.spec_layers() == layers,
            r.spec_camera() == Option::<Entity>::None,
    {
        RenderGroups { layers, camera: None }
    }

    /// Adds a [`RenderLayer`]. The affiliation is unchanged.
    pub fn add(&mut self, layer: RenderLayer)
        requires
            old(self).wf(),
        ensures
            final(self).wf(),
            final(self).layer_set() == old(self).layer_set().insert(layer.0 as nat),
            final(self).spec_camera() == old(self).spec_camera(),
    {
        self.layers.add(layer);
    }

    /// Removes a [`RenderLayer`]. The affiliation is unchanged.
    pub fn remove(&mut self, layer: RenderLayer)
        ensures
            final(self).layer_set() == old(self).layer_set().remove(layer.0 as nat),
            final(self).spec_camera() == old(self).spec_camera(),
            final(self).wf() == old(self).wf(),
    {
        self.layers.remove(layer);
    }

    /// Clears all stored render layers without deallocating, and unsets the
    /// camera affiliation.
    pub fn clear(&mut self)
        ensures
            final(self).wf(),
            final(self).layer_set() == Set::<nat>::empty(),
            final(self).spec_camera() == Option::<Entity>::None,
    {
        self.layers.clear();
        self.camera = None;
    }

    /// Merges `other` into `self`.
    ///
    /// After merging, `self` includes all layers from `other` and `self`. If
    /// both have a camera affiliation, `self`'s is kept; otherwise `other`'s
    /// (which may also be absent) is adopted.
    pub fn merge(&mut self, other: &Self)
        requires
            old(self).wf(),
            other.wf(),
        ensures
            final(self).wf(),
            final(self).layer_set() == old(self).layer_set().union(other.layer_set()),
            forall|l: nat|
                old(self).layer_set().contains(l) || other.layer_set().contains(l)
                    ==> final(self).layer_set().contains(l),
            final(self).spec_camera() == (if old(self).spec_camera() is Some {
                old(self).spec_camera()
            } else {
                other.spec_camera()
            }),
    {
        self.layers.merge(&other.layers);
        if self.camera.is_none() {
            self.camera = other.camera;
        }
    }

    /// Copies `other` into `self`: both the layers and the affiliation.
    ///
    /// This is more efficient than cloning `other` when reusing a
    /// `RenderGroups` that is potentially allocated.
    pub fn set_from(&mut self, other: &Self)
        ensures
            final(self).spec_layers().words() == other.spec_layers().words(),
            final(self).layer_set() == other.layer_set(),
            final(self).spec_camera() == other.spec_camera(),
    {
        self.layers.set_from(&other.layers);
        self.camera = other.camera;
    }

    /// Sets the camera affiliation, returning the previous one.
    pub fn set_camera(&mut self, camera: Entity) -> (prev: Option<Entity>)
        ensures
            prev == old(self).spec_camera(),
            final(self).spec_camera() == Some(camera),
            final(self).spec_layers() == old(self).spec_layers(),
    {
        let prev = self.camera;
        self.camera = Some(camera);
        prev
    }

    /// Removes the camera affiliation, returning the removed one.
    pub fn remove_camera(&mut self) -> (prev: Option<Entity>)
        ensures
            prev == old(self).spec_camera(),
            final(self).spec_camera() == Option::<Entity>::None,
            final(self).spec_layers() == old(self).spec_layers(),
    {
        let prev = self.camera;
        self.camera = None;
        prev
    }

    /// Returns the contained layers, in ascending order.
    pub fn iter_layers(&self) -> (r: Vec<RenderLayer>)
        requires
            self.wf(),
        ensures
            forall|i: int, j: int| 0 <= i < j < r@.len() ==> r@[i].0 < r@[j].0,
            forall|i: int| 0 <= i < r@.len() ==> self.layer_set().contains(#[trigger] r@[i].0 as nat),
            forall|l: nat|
                #[trigger] self.layer_set().contains(l) ==> exists|i: int|
                    0 <= i < r@.len() && r@[i].0 as nat == l,
            r@.map_values(|rl: RenderLayer| rl.0 as nat).to_set() == self.layer_set(),
    {
        self.layers.iter()
    }

    /// Returns `true` if the specified render layer is included in this
    /// `RenderGroups`.
    pub fn contains_layer(&self, layer: RenderLayer) -> (r: bool)
        ensures
            r == self.layer_set().contains(layer.0 as nat),
    {
        self.layers.contains(layer)
    }

    /// Returns `true` if `self` intersects with `other`.
    ///
    /// Checks both camera affiliation and layer-set intersection: the
    /// affiliation check short-circuits before the layers are compared.
    pub fn intersects(&self, other: &Self) -> (r: bool)
        ensures
            r == spec_groups_intersect(*self, *other),
    {
        match (self.camera, other.camera) {
            (Some(a), Some(b)) => {
                if a == b {
                    return true;
                }
            },
            _ => {},
        }
        self.layers.intersects(&other.layers)
    }

    /// Returns `true` if `self` intersects with an extracted snapshot of an
    /// object's groups.
    ///
    /// If `extracted` is absent, the object is treated as carrying the
    /// default groups: the default layer and no affiliation. Visibility then
    /// holds exactly when `self` contains the default layer.
    pub fn intersects_extracted(&self, extracted: Option<&RenderGroups>) -> (r: bool)
        ensures
            (match extracted {
                Some(g) => r == spec_groups_intersect(*self, *g),
                None => r == self.layer_set().contains(DEFAULT_RENDER_LAYER as nat),
            }),
    {
        let default_render_groups = RenderGroups::default();
        let groups = match extracted {
            Some(g) => g,
            None => &default_render_groups,
        };
        let r = self.intersects(groups);
        proof {
            if extracted is None {
                let d = DEFAULT_RENDER_LAYER as nat;
                if sets_intersect(self.layer_set(), default_render_groups.layer_set()) {
                    let l = choose|l: nat|
                        self.layer_set().contains(l) && default_render_groups.layer_set().contains(
                            l,
                        );
                    assert(l == d);
                }
                if self.layer_set().contains(d) {
                    assert(default_render_groups.layer_set().contains(d));
                    assert(sets_intersect(self.layer_set(), default_render_groups.layer_set()));
                }
            }
        }
        r
    }

    /// Gets the camera affiliation.
    pub fn camera(&self) -> (r: Option<Entity>)
        ensures
            r == self.spec_camera(),
    {
        self.camera
    }
}

impl Clone for RenderGroups {
    /// An exact copy of the layers and the affiliation.
    fn clone(&self) -> (r: Self)
        ensures
            r.spec_layers().words() == self.spec_layers().words(),
            r.layer_set() == self.layer_set(),
            r.spec_camera() == self.spec_camera(),
    {
        RenderGroups { layers: self.layers.clone(), camera: self.camera }
    }
}

impl Default for RenderGroups {
    /// Groups holding exactly the default layer, with no affiliation.
    fn default() -> (r: Self)
        ensures
            r.wf(),
            r.layer_set() == Set::<nat>::empty().insert(DEFAULT_RENDER_LAYER as nat),
            r.spec_camera() == Option::<Entity>::None,
    {
        RenderGroups { layers: RenderLayers::default(), camera: None }
    }
}

/// Component on camera entities that controls which layers are visible to
/// the camera.
///
/// A camera sees any entity that satisfies either of these conditions:
/// - the entity is in a [`RenderLayer`] visible to the camera;
/// - the entity has a [`RenderGroups`] affiliation equal to the camera.
///
/// A default `CameraView` sees the [`DEFAULT_RENDER_LAYER`].
pub struct CameraView {
    layers: RenderLayers,
}

/// The visibility rule a camera resolves for an object: affiliation with the
/// camera dominates; layer-set intersection is the fallback.
pub open spec fn spec_entity_visible(view: CameraView, camera: Entity, groups: RenderGroups) -> bool {
    groups.spec_camera() == Some(camera) || sets_intersect(view.layer_set(), groups.layer_set())
}

impl CameraView {
    /// The layer bitmask the camera can see.
    pub closed spec fn spec_layers(&self) -> RenderLayers {
        self.layers
    }

    /// The set of all layers the camera can see.
    pub open spec fn layer_set(&self) -> Set<nat> {
        self.spec_layers().layer_set()
    }

    pub open spec fn wf(&self) -> bool {
        self.spec_layers().wf()
    }

    /// Makes a new `CameraView` with no visible layers.
    pub fn empty() -> (r: Self)
        ensures
            r.wf(),
            r.layer_set() == Set::<nat>::empty(),
    {
        CameraView { layers: RenderLayers::empty() }
    }

    /// Makes a new `CameraView` seeing exactly one layer.
    pub fn from_layer(layer: RenderLayer) -> (r: Self)
        ensures
            r.wf(),
            r.layer_set() == Set::<nat>::empty().insert(layer.0 as nat),
    {
        let mut layers = RenderLayers::empty();
        layers.add(layer);
        CameraView { layers }
    }

    /// Adds a [`RenderLayer`] to the visible layers.
    pub fn add(&mut self, layer: RenderLayer)
        requires
            old(self).wf(),
        ensures
            final(self).wf(),
            final(self).layer_set() == old(self).layer_set().insert(layer.0 as nat),
    {
        self.layers.add(layer);
    }

    /// Removes a [`RenderLayer`] from the visible layers.
    pub fn remove(&mut self, layer: RenderLayer)
        ensures
            final(self).layer_set() == old(self).layer_set().remove(layer.0 as nat),
            final(self).wf() == old(self).wf(),
    {
        self.layers.remove(layer);
    }

    /// Clears all visible layers without deallocating.
    pub fn clear(&mut self)
        ensures
            final(self).wf(),
            final(self).layer_set() == Set::<nat>::empty(),
    {
        self.layers.clear();
    }

    /// Returns the visible layers, in ascending order.
    pub fn iter_layers(&self) -> (r: Vec<RenderLayer>)
        requires
            self.wf(),
        ensures
            forall|i: int, j: int| 0 <= i < j < r@.len() ==> r@[i].0 < r@[j].0,
            forall|i: int| 0 <= i < r@.len() ==> self.layer_set().contains(#[trigger] r@[i].0 as nat),
            forall|l: nat|
                #[trigger] self.layer_set().contains(l) ==> exists|i: int|
                    0 <= i < r@.len() && r@[i].0 as nat == l,
            r@.map_values(|rl: RenderLayer| rl.0 as nat).to_set() == self.layer_set(),
    {
        self.layers.iter()
    }

    /// Returns `true` if the specified render layer is visible to this
    /// `CameraView`.
    pub fn contains_layer(&self, layer: RenderLayer) -> (r: bool)
        ensures
            r == self.layer_set().contains(layer.0 as nat),
    {
        self.layers.contains(layer)
    }

    /// Returns `true` if the entity with the specified [`RenderGroups`] is
    /// visible to the `camera` that has this `CameraView`.
    ///
    /// An affiliation equal to `camera` dominates: it makes the entity
    /// visible regardless of layer overlap. Otherwise the result is exactly
    /// the layer-set intersection of the view and the groups.
    pub fn entity_is_visible(&self, camera: Entity, groups: &RenderGroups) -> (r: bool)
        ensures
            r == spec_entity_visible(*self, camera, *groups),
            groups.spec_camera() == Some(camera) ==> r,
            groups.spec_camera() != Some(camera) ==> r == sets_intersect(
                self.layer_set(),
                groups.layer_set(),
            ),
    {
        match groups.camera() {
            Some(c) => {
                if c.0 == camera.0 {
                    return true;
                }
            },
            None => {},
        }
        self.layers.intersects(&groups.layers)
    }

    /// Converts the visible layers into a [`RenderGroups`] affiliated with
    /// the camera that has this `CameraView`.
    pub fn get_groups(&self, camera: Entity) -> (groups: RenderGroups)
        ensures
            groups.spec_layers().words() == self.spec_layers().words(),
            groups.layer_set() == self.layer_set(),
            groups.spec_camera() == Some(camera),
    {
        let mut groups = RenderGroups::from_mask(self.layers.clone());
        groups.set_camera(camera);
        groups
    }
}

impl Clone for CameraView {
    /// An exact copy of the visible layers.
    fn clone(&self) -> (r: Self)
        ensures
            r.spec_layers().words() == self.spec_layers().words(),
            r.layer_set() == self.layer_set(),
    {
        CameraView { layers: self.layers.clone() }
    }
}

impl Default for CameraView {
    /// A view seeing exactly the default layer ([`DEFAULT_RENDER_LAYER`]).
    fn default() -> (r: Self)
        ensures
            r.wf(),
            r.layer_set() == Set::<nat>::empty().insert(DEFAULT_RENDER_LAYER as nat),
    {
        CameraView { layers: RenderLayers::default() }
    }
}

/// Affiliation dominance: an object whose groups affiliate with the camera is
/// visible to it, regardless of layer overlap (both layer sets may be empty).
pub proof fn lemma_affiliation_dominates(view: CameraView, camera: Entity, groups: RenderGroups)
    requires
        groups.spec_camera() == Some(camera),
    ensures
        spec_entity_visible(view, camera, groups),
{
}

/// Non-dominance: when the object's affiliation differs from the camera
/// (including when it is absent), visibility is exactly the layer-set
/// intersection of the camera's view and the object's groups.
pub proof fn lemma_no_affiliation_is_layer_match(
    view: CameraView,
    camera: Entity,
    groups: RenderGroups,
)
    requires
        groups.spec_camera() != Some(camera),
    ensures
        spec_entity_visible(view, camera, groups) == sets_intersect(
            view.layer_set(),
            groups.layer_set(),
        ),
{
}

/// Absence defaulting: a viewer whose groups are the default ones matches the
/// default groups substituted for an object with no stored groups, because
/// both sides carry the default layer.
pub proof fn lemma_absence_defaults_to_visible(viewer: RenderGroups, fallback: RenderGroups)
    requires
        viewer.layer_set() == Set::<nat>::empty().insert(DEFAULT_RENDER_LAYER as nat),
        fallback.layer_set() == Set::<nat>::empty().insert(DEFAULT_RENDER_LAYER as nat),
    ensures
        spec_groups_intersect(viewer, fallback),
{
    let d = DEFAULT_RENDER_LAYER as nat;
    assert(viewer.layer_set().contains(d));
    assert(fallback.layer_set().contains(d));
    assert(sets_intersect(viewer.layer_set(), fallback.layer_set()));
}

} // verus!
