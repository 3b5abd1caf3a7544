//! What happens once per step: the collection of released objects before the
//! engine integrates, and the translation of the engine's proximity
//! transitions into overlap events afterwards.

use crate::area_physics_server::AreaNpServer;
use crate::body::BodyData;
use crate::body::BodyDataView;
use crate::body::BodyView;
use crate::body_storage::BodyStorage;
use crate::body_storage::BodyTable;
use crate::collider::Collider;
use crate::collider_storage::ColliderStorage;
use crate::consistency::lemma_collected;
use crate::conversors::shape_tag_to_store_key;
use crate::conversors::store_key_to_rigid_tag;
use crate::joint_physics_server::JointNpServer;
use crate::objects::GcView;
use crate::objects::OverlapEvent;
use crate::objects::PhysicsAreaTag;
use crate::objects::PhysicsJointTag;
use crate::objects::PhysicsRigidBodyTag;
use crate::objects::PhysicsShapeTag;
use crate::rigid_body_physics_server::RBodyNpServer;
use crate::servers_storage::ServersStorage;
use crate::servers_storage::World;
use crate::servers_storage::gc_keyed;
use crate::shape::ShapeView;
use crate::shape::unregister;
use crate::shape_physics_server::ShapeNpServer;
use crate::shape_physics_server::in_use;
use crate::shape_physics_server::shape_dropped;
use crate::storage::StoreKey;
use crate::utils::ObjectType;
use crate::utils::UserData;
use vstd::prelude::*;

verus! {

/// How close two colliders are.
#[derive(Clone, Copy, Debug, PartialEq, Eq, Structural, Hash)]
pub enum Proximity {
    /// The two colliders overlap.
    Intersecting,
    /// The two colliders are apart, within the margin of the engine.
    WithinMargin,
    /// The two colliders are apart.
    Disjoint,
}

/// A proximity transition of a pair of colliders, as the engine reports it.
#[derive(Clone, Copy, Debug, PartialEq, Eq, Structural, Hash)]
pub struct ProximityEvent {
    pub collider1: StoreKey,
    pub collider2: StoreKey,
    pub prev_status: Proximity,
    pub new_status: Proximity,
}

/// The two kinds of overlap event.
#[derive(Clone, Copy, Debug, PartialEq, Eq, Structural, Hash)]
pub enum Overlap {
    Enter,
    Exit,
}

/// The overlap event that a transition from `prev` to `new` stands for: an
/// entry when the colliders begin to intersect, an exit when they cease to,
/// and none otherwise.
pub open spec fn classify(prev: Proximity, new: Proximity) -> Option<Overlap> {
    if new is Intersecting && !(prev is Intersecting) {
        Some(Overlap::Enter)
    } else if prev is Intersecting && !(new is Intersecting) {
        Some(Overlap::Exit)
    } else {
        None
    }
}

/// Classifies a transition from `prev` to `new`.
pub fn classify_transition(prev: Proximity, new: Proximity) -> (kind: Option<Overlap>)
    ensures
        kind == classify(prev, new),
{
    if prev == new {
        return None;
    }
    match new {
        Proximity::Intersecting => match prev {
            Proximity::Intersecting => None,
            _ => Some(Overlap::Enter),
        },
        _ => match prev {
            Proximity::Intersecting => Some(Overlap::Exit),
            _ => None,
        },
    }
}

/// The overlap event of step `i` of a pair of colliders whose proximity was
/// `statuses[i]` after step `i`: what the transition from the step before
/// stands for.
pub open spec fn classified_at(statuses: Seq<Proximity>, i: int) -> Option<Overlap>
    recommends
        0 < i < statuses.len(),
{
    classify(statuses[i - 1], statuses[i])
}

/// Whether the pair of colliders ceases to intersect at step `k`, if
/// `meets` is true, or begins to intersect, if it is false.
pub open spec fn changes_at(statuses: Seq<Proximity>, k: int, meets: bool) -> bool {
    (statuses[k - 1] is Intersecting) == meets && (statuses[k] is Intersecting) != meets
}

/// Entries and exits alternate. Between two entries of a pair of colliders
/// lies an exit, however often the pair is found intersecting in between;
/// and between two exits lies an entry.
pub proof fn lemma_entries_and_exits_alternate(statuses: Seq<Proximity>, i: int, j: int)
    requires
        0 < i < j < statuses.len(),
        classified_at(statuses, i) is Some,
        classified_at(statuses, i) == classified_at(statuses, j),
    ensures
        exists|k: int|
            i < k < j && #[trigger] classified_at(statuses, k) is Some && classified_at(statuses, k)
                != classified_at(statuses, i),
{
    let entry = classified_at(statuses, i) == Some(Overlap::Enter);
    // After step `i` the pair intersects if and only if the event is an entry;
    // before step `j` it is the other way round.
    assert((statuses[i] is Intersecting) == entry);
    assert((statuses[j - 1] is Intersecting) != entry);
    assert(i < j - 1);
    lemma_change_between(statuses, i, j - 1, entry);
    let k = choose|k: int| i < k <= j - 1 && #[trigger] changes_at(statuses, k, entry);
    assert(classified_at(statuses, k) is Some);
    assert(classified_at(statuses, k) != classified_at(statuses, i));
}

/// A pair of colliders that intersects after step `from` and not after step
/// `to`, or the other way round, changes in between.
proof fn lemma_change_between(statuses: Seq<Proximity>, from: int, to: int, meets: bool)
    requires
        0 <= from < to < statuses.len(),
        (statuses[from] is Intersecting) == meets,
        (statuses[to] is Intersecting) != meets,
    ensures
        exists|k: int| from < k <= to && #[trigger] changes_at(statuses, k, meets),
    decreases to - from,
{
    if (statuses[from + 1] is Intersecting) != meets {
        assert(changes_at(statuses, from + 1, meets));
    } else {
        lemma_change_between(statuses, from + 1, to, meets);
        let k = choose|k: int| from + 1 < k <= to && #[trigger] changes_at(statuses, k, meets);
        assert(from < k <= to && changes_at(statuses, k, meets));
    }
}

/// No transition between equal classifications stands for an event, and a
/// pair of colliders that is found intersecting again stands for none.
pub proof fn lemma_no_event_without_change(prev: Proximity, new: Proximity)
    ensures
        prev == new ==> classify(prev, new) is None,
        prev is Intersecting && new is Intersecting ==> classify(prev, new) is None,
        !(prev is Intersecting) && !(new is Intersecting) ==> classify(prev, new) is None,
        classify(prev, new) == Some(Overlap::Enter) <==> new is Intersecting && !(prev is Intersecting),
        classify(prev, new) == Some(Overlap::Exit) <==> prev is Intersecting && !(new is Intersecting),
{
}

/// The event of kind `kind` that tells of the object that `other` records.
pub open spec fn event_about(kind: Overlap, other: UserData) -> OverlapEvent {
    let tag = PhysicsRigidBodyTag::UsizeU64(other.store_key.index, other.store_key.generation);
    match kind {
        Overlap::Enter => OverlapEvent::Enter(tag, other.entity),
        Overlap::Exit => OverlapEvent::Exit(tag, other.entity),
    }
}

/// Where the transition `e` is to be delivered, and as what event: none
/// when the transition stands for no event, or when one of its colliders
/// does not exist or records no owner. Otherwise the event goes to the
/// owner of the first collider if that is an area, and else to the owner of
/// the second; it tells of the owner of the other collider.
pub open spec fn overlap_of(e: ProximityEvent, colliders: Map<StoreKey, Collider>) -> Option<
    (StoreKey, OverlapEvent),
> {
    if classify(e.prev_status, e.new_status) is Some && colliders.contains_key(e.collider1)
        && colliders.contains_key(e.collider2) && colliders[e.collider1].user_data is Some
        && colliders[e.collider2].user_data is Some {
        let kind = classify(e.prev_status, e.new_status)->0;
        let first = colliders[e.collider1].user_data->0;
        let second = colliders[e.collider2].user_data->0;
        if first.object_type is Area {
            Some((first.store_key, event_about(kind, second)))
        } else {
            Some((second.store_key, event_about(kind, first)))
        }
    } else {
        None
    }
}

impl BodyView {
    /// The body with its overlap events forgotten, if it is an area.
    pub open spec fn events_cleared(self) -> BodyView {
        match self.body_data {
            BodyDataView::Area(_) => BodyView { body_data: BodyDataView::Area(Seq::empty()), ..self },
            BodyDataView::Rigid { .. } => self,
        }
    }

    /// The body with `event` appended to its overlap events, if it is an
    /// area.
    pub open spec fn event_added(self, event: OverlapEvent) -> BodyView {
        match self.body_data {
            BodyDataView::Area(events) => BodyView {
                body_data: BodyDataView::Area(events.push(event)),
                ..self
            },
            BodyDataView::Rigid { .. } => self,
        }
    }
}

/// The bodies with the overlap events of every area forgotten.
pub open spec fn events_cleared(bodies: Map<StoreKey, BodyView>) -> Map<StoreKey, BodyView> {
    bodies.map_values(|b: BodyView| b.events_cleared())
}

/// The bodies after the transition `e` was delivered: the area that it goes
/// to, if it goes to a body that exists, has one more event.
pub open spec fn event_delivered(
    bodies: Map<StoreKey, BodyView>,
    e: ProximityEvent,
    colliders: Map<StoreKey, Collider>,
) -> Map<StoreKey, BodyView> {
    match overlap_of(e, colliders) {
        Some((area, event)) => if bodies.contains_key(area) {
            bodies.insert(area, bodies[area].event_added(event))
        } else {
            bodies
        },
        None => bodies,
    }
}

/// The bodies after the transitions `events` were delivered, one after the
/// other.
pub open spec fn events_delivered(
    bodies: Map<StoreKey, BodyView>,
    events: Seq<ProximityEvent>,
    colliders: Map<StoreKey, Collider>,
) -> Map<StoreKey, BodyView>
    decreases events.len(),
{
    if events.len() == 0 {
        bodies
    } else {
        event_delivered(
            events_delivered(bodies, events.drop_last(), colliders),
            events.last(),
            colliders,
        )
    }
}

/// The keys that the rigid body tags `tags` encode.
pub open spec fn rigid_keys(tags: Seq<PhysicsRigidBodyTag>) -> Seq<StoreKey> {
    tags.map_values(|t: PhysicsRigidBodyTag| t.key())
}

/// The keys that the area tags `tags` encode.
pub open spec fn area_keys(tags: Seq<PhysicsAreaTag>) -> Seq<StoreKey> {
    tags.map_values(|t: PhysicsAreaTag| t.key())
}

/// The keys that the shape tags `tags` encode.
pub open spec fn shape_keys(tags: Seq<PhysicsShapeTag>) -> Seq<StoreKey> {
    tags.map_values(|t: PhysicsShapeTag| t.key())
}

/// The keys that the joint tags `tags` encode.
pub open spec fn joint_keys(tags: Seq<PhysicsJointTag>) -> Seq<StoreKey> {
    tags.map_values(|t: PhysicsJointTag| t.key())
}

/// The shapes after removal was asked for of each of the shapes `asked`: a
/// shape in use stays and is marked for removal; every other shape that was
/// asked for is gone.
pub open spec fn shapes_collected(shapes: Map<StoreKey, ShapeView>, asked: Set<StoreKey>) -> Map<
    StoreKey,
    ShapeView,
> {
    Map::new(
        |k: StoreKey| shapes.contains_key(k) && (asked.contains(k) ==> in_use(shapes, k)),
        |k: StoreKey|
            if asked.contains(k) {
                ShapeView { marked_for_drop: true, ..shapes[k] }
            } else {
                shapes[k]
            },
    )
}

/// The shape tags of `tags` whose shapes are in use among `shapes`, in the
/// same order.
pub open spec fn shapes_retained(tags: Seq<PhysicsShapeTag>, shapes: Map<StoreKey, ShapeView>) -> Seq<
    PhysicsShapeTag,
> {
    tags.filter(|t: PhysicsShapeTag| in_use(shapes, t.key()))
}

/// The shape tags of `tags` whose removal is held up for the first time: the
/// shape is in use among `shapes`, it is not marked for removal yet, and no
/// earlier tag of the list names it.
pub open spec fn newly_blocked(tags: Seq<PhysicsShapeTag>, shapes: Map<StoreKey, ShapeView>) -> Seq<
    PhysicsShapeTag,
>
    decreases tags.len(),
{
    if tags.len() == 0 {
        Seq::empty()
    } else if in_use(shapes, tags.last().key()) && !shapes[tags.last().key()].marked_for_drop
        && !shape_keys(tags.drop_last()).contains(tags.last().key()) {
        newly_blocked(tags.drop_last(), shapes).push(tags.last())
    } else {
        newly_blocked(tags.drop_last(), shapes)
    }
}

impl World {
    /// The world after the bodies under `keys` were dropped, one after the
    /// other (see [`World::body_dropped`]).
    pub open spec fn bodies_dropped(self, keys: Seq<StoreKey>) -> World
        decreases keys.len(),
    {
        if keys.len() == 0 {
            self
        } else {
            self.bodies_dropped(keys.drop_last()).body_dropped(keys.last())
        }
    }

    /// The world after the joints under `keys` were dropped, one after the
    /// other (see [`World::joint_dropped`]).
    pub open spec fn joints_dropped(self, keys: Seq<StoreKey>) -> World
        decreases keys.len(),
    {
        if keys.len() == 0 {
            self
        } else {
            self.joints_dropped(keys.drop_last()).joint_dropped(keys.last())
        }
    }

    /// The world after the released rigid bodies and areas were dropped,
    /// the rigid bodies first.
    pub open spec fn bodies_collected(self) -> World {
        World {
            gc: GcView { bodies: Seq::empty(), areas: Seq::empty(), ..self.gc },
            ..self.bodies_dropped(rigid_keys(self.gc.bodies)).bodies_dropped(
                area_keys(self.gc.areas),
            )
        }
    }

    /// The world after removal of the released shapes was tried: the shapes
    /// in use stay, marked for removal, and their tags stay queued.
    pub open spec fn shapes_tried(self) -> World {
        World {
            gc: GcView { shapes: shapes_retained(self.gc.shapes, self.shapes), ..self.gc },
            shapes: shapes_collected(self.shapes, shape_keys(self.gc.shapes).to_set()),
            ..self
        }
    }

    /// The world after the released joints were dropped.
    pub open spec fn joints_collected(self) -> World {
        World {
            gc: GcView { joints: Seq::empty(), ..self.gc },
            ..self.joints_dropped(joint_keys(self.gc.joints))
        }
    }

    /// The world after a collection: bodies and areas go first, because only
    /// they hold shapes; then the shapes that no body uses any more; then
    /// the joints.
    pub open spec fn collected(self) -> World {
        self.bodies_collected().shapes_tried().joints_collected()
    }
}

/// The keys of a list of tags that grew by one tag: the keys of the list,
/// and the key of the tag.
proof fn lemma_shape_keys_push(tags: Seq<PhysicsShapeTag>, last: PhysicsShapeTag)
    ensures
        shape_keys(tags.push(last)).to_set() == shape_keys(tags).to_set().insert(last.key()),
{
    let keys = shape_keys(tags);
    let grown = shape_keys(tags.push(last));
    assert(grown =~= keys.push(last.key()));
    assert forall|k: StoreKey| #[trigger] grown.to_set().contains(k) <==> keys.to_set().insert(
        last.key(),
    ).contains(k) by {
        if grown.contains(k) {
            let w = choose|w: int| 0 <= w < grown.len() && grown[w] == k;
            if w < keys.len() {
                assert(keys[w] == k);
            }
        }
        if keys.contains(k) {
            let w = choose|w: int| 0 <= w < keys.len() && keys[w] == k;
            assert(grown[w] == k);
        }
        if k == last.key() {
            assert(grown[keys.len() as int] == k);
        }
    }
    assert(grown.to_set() =~= keys.to_set().insert(last.key()));
}

/// Filtering a list of tags that grew by one tag: the tag is kept or not.
proof fn lemma_retained_push(
    tags: Seq<PhysicsShapeTag>,
    last: PhysicsShapeTag,
    shapes: Map<StoreKey, ShapeView>,
)
    ensures
        shapes_retained(tags.push(last), shapes) == (if in_use(shapes, last.key()) {
            shapes_retained(tags, shapes).push(last)
        } else {
            shapes_retained(tags, shapes)
        }),
{
    let grown = tags.push(last);
    assert(grown.drop_last() =~= tags);
    reveal_with_fuel(Seq::filter, 2);
}

/// The server of the world.
pub struct WorldNpServer {}

impl WorldNpServer {
    /// The server. It holds nothing: every operation is handed the tables
    /// that it works on.
    pub fn new() -> (server: WorldNpServer) {
        WorldNpServer {  }
    }

    /// Drops the released rigid bodies, in the order of release.
    fn collect_bodies(storages: &mut ServersStorage)
        requires
            old(storages).wf(),
            old(storages).bodies.generation() + old(storages)@.gc.bodies.len() <= u64::MAX,
            old(storages).colliders.generation() + old(storages)@.gc.bodies.len() <= u64::MAX,
        ensures
            final(storages).wf(),
            final(storages).steps_from(old(storages), old(storages)@.gc.bodies.len()),
            final(storages).shapes.generation() == old(storages).shapes.generation(),
            final(storages).joints == old(storages).joints,
            final(storages)@ == (World {
                gc: GcView { bodies: Seq::empty(), ..old(storages)@.gc },
                ..old(storages)@.bodies_dropped(rigid_keys(old(storages)@.gc.bodies))
            }),
    {
        let ghost keys = rigid_keys(storages@.gc.bodies);
        proof {
            assert(keys.take(0) =~= Seq::<StoreKey>::empty());
        }
        let mut i: usize = 0;
        while i < storages.gc.bodies.len()
            invariant
                i <= storages.gc.bodies.len(),
                storages.gc == old(storages).gc,
                keys == rigid_keys(old(storages)@.gc.bodies),
                old(storages).bodies.generation() + old(storages)@.gc.bodies.len() <= u64::MAX,
                old(storages).colliders.generation() + old(storages)@.gc.bodies.len() <= u64::MAX,
                storages.shapes.generation() == old(storages).shapes.generation(),
                storages.joints == old(storages).joints,
                storages.wf(),
                storages.steps_from(old(storages), i as nat),
                storages@ == old(storages)@.bodies_dropped(keys.take(i as int)),
            decreases storages.gc.bodies.len() - i,
        {
            let rb = storages.gc.bodies[i];
            let ghost before = storages@;
            RBodyNpServer::drop_body(
                rb,
                &mut storages.bodies,
                &mut storages.colliders,
                &mut storages.shapes,
            );
            proof {
                let grown = keys.take(i + 1);
                assert(grown.drop_last() =~= keys.take(i as int));
                assert(grown.last() == rb.key());
                lemma_body_dropped(before, storages@, rb.key());
            }
            i += 1;
        }
        storages.gc.bodies.clear();
        proof {
            assert(keys.take(i as int) =~= keys);
        }
    }

    /// Drops the released areas, in the order of release.
    fn collect_areas(storages: &mut ServersStorage)
        requires
            old(storages).wf(),
            old(storages).bodies.generation() + old(storages)@.gc.areas.len() <= u64::MAX,
            old(storages).colliders.generation() + old(storages)@.gc.areas.len() <= u64::MAX,
        ensures
            final(storages).wf(),
            final(storages).steps_from(old(storages), old(storages)@.gc.areas.len()),
            final(storages).shapes.generation() == old(storages).shapes.generation(),
            final(storages).joints == old(storages).joints,
            final(storages)@ == (World {
                gc: GcView { areas: Seq::empty(), ..old(storages)@.gc },
                ..old(storages)@.bodies_dropped(area_keys(old(storages)@.gc.areas))
            }),
    {
        let ghost keys = area_keys(storages@.gc.areas);
        proof {
            assert(keys.take(0) =~= Seq::<StoreKey>::empty());
        }
        let mut i: usize = 0;
        while i < storages.gc.areas.len()
            invariant
                i <= storages.gc.areas.len(),
                storages.gc == old(storages).gc,
                keys == area_keys(old(storages)@.gc.areas),
                old(storages).bodies.generation() + old(storages)@.gc.areas.len() <= u64::MAX,
                old(storages).colliders.generation() + old(storages)@.gc.areas.len() <= u64::MAX,
                storages.shapes.generation() == old(storages).shapes.generation(),
                storages.joints == old(storages).joints,
                storages.wf(),
                storages.steps_from(old(storages), i as nat),
                storages@ == old(storages)@.bodies_dropped(keys.take(i as int)),
            decreases storages.gc.areas.len() - i,
        {
            let area = storages.gc.areas[i];
            let ghost before = storages@;
            AreaNpServer::drop_area(
                area,
                &mut storages.bodies,
                &mut storages.colliders,
                &mut storages.shapes,
            );
            proof {
                let grown = keys.take(i + 1);
                assert(grown.drop_last() =~= keys.take(i as int));
                assert(grown.last() == area.key());
                lemma_body_dropped(before, storages@, area.key());
            }
            i += 1;
        }
        storages.gc.areas.clear();
        proof {
            assert(keys.take(i as int) =~= keys);
        }
    }

    /// Tries to remove the released shapes. Not every shape can be removed:
    /// one that a body still uses stays, and its tag stays queued for the
    /// next collection. The tags of the shapes that are held up for the first
    /// time are returned.
    fn collect_shapes(storages: &mut ServersStorage) -> (blocked: Vec<PhysicsShapeTag>)
        requires
            old(storages).wf(),
            old(storages).shapes.generation() + old(storages)@.gc.shapes.len() <= u64::MAX,
        ensures
            final(storages).wf(),
            final(storages).steps_from(old(storages), old(storages)@.gc.shapes.len()),
            final(storages).joints == old(storages).joints,
            final(storages)@ == old(storages)@.shapes_tried(),
            blocked@ == newly_blocked(old(storages)@.gc.shapes, old(storages)@.shapes),
    {
        let ghost start = storages@.shapes;
        let ghost tags = storages@.gc.shapes;
        let mut kept: Vec<PhysicsShapeTag> = Vec::new();
        let mut blocked: Vec<PhysicsShapeTag> = Vec::new();
        proof {
            assert(tags.take(0) =~= Seq::<PhysicsShapeTag>::empty());
            reveal_with_fuel(Seq::filter, 1);
            assert(storages@.shapes =~= shapes_collected(start, shape_keys(tags.take(0)).to_set()));
        }
        let mut i: usize = 0;
        while i < storages.gc.shapes.len()
            invariant
                i <= storages.gc.shapes.len(),
                storages.gc == old(storages).gc,
                tags == old(storages)@.gc.shapes,
                start == old(storages)@.shapes,
                old(storages).wf(),
                old(storages).shapes.generation() + tags.len() <= u64::MAX,
                storages.bodies == old(storages).bodies,
                storages.colliders == old(storages).colliders,
                storages.joints == old(storages).joints,
                storages.force_generators == old(storages).force_generators,
                storages.watch_contacts == old(storages).watch_contacts,
                storages.shapes.wf(),
                storages.shapes.generation() <= old(storages).shapes.generation() + i,
                storages.shapes.count() <= old(storages).shapes.count(),
                storages.shapes.follows(&old(storages).shapes),
                storages@.shapes == shapes_collected(start, shape_keys(tags.take(i as int)).to_set()),
                kept@ == shapes_retained(tags.take(i as int), start),
                blocked@ == newly_blocked(tags.take(i as int), start),
            decreases storages.gc.shapes.len() - i,
        {
            let s = storages.gc.shapes[i];
            let ghost before = storages@.shapes;
            let ghost asked = shape_keys(tags.take(i as int)).to_set();
            let unmarked = match storages.shapes.get(shape_tag_to_store_key(s)) {
                Some(shape) => !shape.marked_for_drop,
                None => false,
            };
            let settled = ShapeNpServer::drop_shape(s, &mut storages.shapes);
            proof {
                let grown = tags.take(i + 1);
                assert(grown =~= tags.take(i as int).push(s));
                lemma_retained_push(tags.take(i as int), s, start);
                lemma_shape_keys_push(tags.take(i as int), s);
                assert(in_use(before, s.key()) == in_use(start, s.key()));
                assert(grown.drop_last() =~= tags.take(i as int));
                assert(grown.last() == s);
                assert(shape_keys(tags.take(i as int)).contains(s.key()) == asked.contains(s.key()));
                assert(storages@.shapes =~= shapes_collected(start, asked.insert(s.key())));
            }
            if !settled {
                kept.push(s);
                if unmarked {
                    blocked.push(s);
                }
            }
            i += 1;
        }
        storages.gc.shapes = kept;
        proof {
            assert(tags.take(i as int) =~= tags);
            let kept = storages@.gc.shapes;
            assert forall|j: int| 0 <= j < kept.len() implies (#[trigger] kept[j]).is_key() by {
                let pred = |t: PhysicsShapeTag| in_use(start, t.key());
                tags.lemma_filter_contains_rev(pred, kept[j]);
                let w = choose|w: int| 0 <= w < tags.len() && tags[w] == kept[j];
                assert(tags[w].is_key());
            }
            assert forall|k: StoreKey| #[trigger] storages@.shapes.contains_key(k) implies storages@.shapes[k].self_key
                == Some(k) by {
                assert(start.contains_key(k));
            }
            assert(gc_keyed(old(storages)@.gc));
            assert(storages@.gc.bodies == old(storages)@.gc.bodies);
            assert(storages@.gc.areas == old(storages)@.gc.areas);
            assert(storages@.gc.joints == old(storages)@.gc.joints);
        }
        blocked
    }

    /// Drops the released joints, in the order of release.
    fn collect_joints(storages: &mut ServersStorage)
        requires
            old(storages).wf(),
            old(storages).joints.generation() + old(storages)@.gc.joints.len() <= u64::MAX,
        ensures
            final(storages).wf(),
            final(storages).steps_from(old(storages), old(storages)@.gc.joints.len()),
            final(storages)@ == old(storages)@.joints_collected(),
    {
        let ghost keys = joint_keys(storages@.gc.joints);
        proof {
            assert(keys.take(0) =~= Seq::<StoreKey>::empty());
        }
        let mut i: usize = 0;
        while i < storages.gc.joints.len()
            invariant
                i <= storages.gc.joints.len(),
                storages.gc == old(storages).gc,
                keys == joint_keys(old(storages)@.gc.joints),
                old(storages).joints.generation() + old(storages)@.gc.joints.len() <= u64::MAX,
                storages.wf(),
                storages.steps_from(old(storages), i as nat),
                storages@ == old(storages)@.joints_dropped(keys.take(i as int)),
            decreases storages.gc.joints.len() - i,
        {
            let j_tag = storages.gc.joints[i];
            let ghost before = storages@;
            JointNpServer::drop_joint(j_tag, &mut storages.joints, &mut storages.bodies);
            proof {
                let grown = keys.take(i + 1);
                assert(grown.drop_last() =~= keys.take(i as int));
                assert(grown.last() == j_tag.key());
                assert(storages@.bodies =~= before.joint_dropped(j_tag.key()).bodies);
                assert(storages@ == before.joint_dropped(j_tag.key()));
            }
            i += 1;
        }
        storages.gc.joints.clear();
        proof {
            assert(keys.take(i as int) =~= keys);
        }
    }

    /// Destroys the objects whose tags were released since the last
    /// collection. Rigid bodies and areas go first: each is detached from
    /// its shape, loses its collider and frees its slot. Then each released
    /// shape is removed if no body uses it; one that is in use is marked
    /// for removal and stays queued. Then each released joint wakes its two
    /// bodies and frees its slot. The tags of the shapes whose removal is
    /// held up for the first time are returned, for the caller to warn of.
    pub fn garbage_collect(storages: &mut ServersStorage) -> (blocked: Vec<PhysicsShapeTag>)
        requires
            old(storages).wf(),
            old(storages).room_for_collection(),
        ensures
            final(storages).wf(),
            old(storages)@.consistent() ==> final(storages)@.consistent(),
            final(storages).steps_from(old(storages), old(storages)@.gc.len()),
            final(storages)@ == old(storages)@.collected(),
            blocked@ == newly_blocked(
                old(storages)@.gc.shapes,
                old(storages)@.bodies_collected().shapes,
            ),
    {
        proof {
            if old(storages)@.consistent() {
                lemma_collected(old(storages)@);
            }
            lemma_bodies_dropped_queue(
                old(storages)@,
                rigid_keys(old(storages)@.gc.bodies),
            );
            lemma_bodies_dropped_queue(
                old(storages)@.bodies_dropped(rigid_keys(old(storages)@.gc.bodies)),
                area_keys(old(storages)@.gc.areas),
            );
        }
        Self::collect_bodies(storages);
        Self::collect_areas(storages);
        proof {
            let w = old(storages)@;
            let rigid = w.bodies_dropped(rigid_keys(w.gc.bodies));
            lemma_bodies_dropped_gc(
                rigid,
                GcView { bodies: Seq::empty(), ..w.gc },
                area_keys(w.gc.areas),
            );
            assert(storages@ == w.bodies_collected());
        }
        // This happens after the bodies and the areas, since only they hold shapes.
        let blocked = Self::collect_shapes(storages);
        Self::collect_joints(storages);
        blocked
    }

    /// Translates the proximity transitions of one step into the overlap
    /// events of the areas. The events of the step before are forgotten
    /// first; then each transition that stands for an entry or an exit is
    /// appended to the events of the area that it concerns, in the order of
    /// `events`.
    pub fn fetch_events(
        events: &Vec<ProximityEvent>,
        bodies: &mut BodyStorage,
        colliders: &ColliderStorage,
    )
        requires
            old(bodies).wf(),
            colliders.wf(),
        ensures
            final(bodies).wf(),
            final(bodies).generation() == old(bodies).generation(),
            final(bodies).count() == old(bodies).count(),
            final(bodies).follows(old(bodies)),
            final(bodies)@ == (BodyTable {
                map: events_delivered(events_cleared(old(bodies)@.map), events@, colliders@.map),
                ..old(bodies)@
            }),
    {
        // Clear old events
        let keys = bodies.iter();
        let mut k: usize = 0;
        while k < keys.len()
            invariant
                k <= keys.len(),
                bodies.wf(),
                bodies.generation() == old(bodies).generation(),
                bodies.count() == old(bodies).count(),
                bodies@.removed == old(bodies)@.removed,
                bodies@.map.dom() == old(bodies)@.map.dom(),
                bodies.follows(old(bodies)),
                forall|key: StoreKey| #[trigger] keys@.contains(key) <==> old(bodies)@.map.contains_key(key),
                forall|i: int, j: int| 0 <= i < j < keys.len() ==> keys[i].index < keys[j].index,
                forall|i: int|
                    0 <= i < k ==> bodies@.map[#[trigger] keys[i]] == old(bodies)@.map[keys[i]].events_cleared(),
                forall|i: int|
                    k <= i < keys.len() ==> bodies@.map[#[trigger] keys[i]] == old(bodies)@.map[keys[i]],
            decreases keys.len() - k,
        {
            let key: StoreKey = keys[k];
            let ghost before = bodies@.map;
            proof {
                assert(keys@.contains(key));
            }
            if let Some(b) = bodies.get_body_mut(key) {
                if let BodyData::Area(e) = &mut b.body_data {
                    e.clear();
                }
            }
            proof {
                assert(bodies@.map.dom() =~= before.dom());
                assert forall|i: int| 0 <= i < keys.len() && i != k implies bodies@.map[#[trigger] keys[i]]
                    == before[keys[i]] by {
                    if i < k {
                        assert(keys[i].index < keys[k as int].index);
                    } else {
                        assert(keys[k as int].index < keys[i].index);
                    }
                }
            }
            k += 1;
        }
        let ghost cleared = bodies@.map;
        proof {
            assert forall|key: StoreKey| #[trigger] cleared.contains_key(key) implies cleared[key] == old(bodies)@.map[key].events_cleared() by {
                assert(keys@.contains(key));
                let i = choose|i: int| 0 <= i < keys@.len() && keys@[i] == key;
                assert(cleared[keys[i]] == old(bodies)@.map[keys[i]].events_cleared());
            }
            assert(cleared =~= events_cleared(old(bodies)@.map));
            assert(events@.take(0) =~= Seq::<ProximityEvent>::empty());
        }
        // Fetch new events
        let mut n: usize = 0;
        while n < events.len()
            invariant
                n <= events.len(),
                bodies.wf(),
                colliders.wf(),
                bodies.generation() == old(bodies).generation(),
                bodies.count() == old(bodies).count(),
                bodies@.removed == old(bodies)@.removed,
                bodies.follows(old(bodies)),
                cleared == events_cleared(old(bodies)@.map),
                bodies@.map == events_delivered(cleared, events@.take(n as int), colliders@.map),
            decreases events.len() - n,
        {
            let e: ProximityEvent = events[n];
            let ghost before = bodies@.map;
            proof {
                let grown = events@.take(n + 1);
                assert(grown.drop_last() =~= events@.take(n as int));
                assert(grown.last() == e);
            }
            if let Some(status) = classify_transition(e.prev_status, e.new_status) {
                if let (Some(collider1), Some(collider2)) = (
                    colliders.get_collider(e.collider1),
                    colliders.get_collider(e.collider2),
                ) {
                    if let (Some(body_1_ud), Some(body_2_ud)) = (
                        collider1.user_data(),
                        collider2.user_data(),
                    ) {
                        let (area_key, body_key, body_entity) = match body_1_ud.object_type() {
                            ObjectType::RigidBody => (
                                body_2_ud.store_key(),
                                body_1_ud.store_key(),
                                body_1_ud.entity(),
                            ),
                            ObjectType::Area => (
                                body_1_ud.store_key(),
                                body_2_ud.store_key(),
                                body_2_ud.entity(),
                            ),
                        };
                        if let Some(area) = bodies.get_body_mut(area_key) {
                            if let BodyData::Area(queue) = &mut area.body_data {
                                match status {
                                    Overlap::Enter => {
                                        queue.push(
                                            OverlapEvent::Enter(
                                                store_key_to_rigid_tag(body_key),
                                                body_entity,
                                            ),
                                        );
                                    },
                                    Overlap::Exit => {
                                        queue.push(
                                            OverlapEvent::Exit(
                                                store_key_to_rigid_tag(body_key),
                                                body_entity,
                                            ),
                                        );
                                    },
                                }
                            }
                        }
                    }
                }
            }
            proof {
                assert(bodies@.map =~= event_delivered(before, e, colliders@.map));
            }
            n += 1;
        }
        proof {
            assert(events@.take(n as int) =~= events@);
        }
    }
}

/// A shape that a body uses is not removed when its removal is asked for:
/// it stays, marked for removal, with the same bodies. A shape that no body
/// uses is removed.
pub proof fn lemma_shape_dropped(shapes: Map<StoreKey, ShapeView>, shape: StoreKey)
    ensures
        in_use(shapes, shape) ==> shape_dropped(shapes, shape).contains_key(shape) && shape_dropped(
            shapes,
            shape,
        )[shape] == (ShapeView { marked_for_drop: true, ..shapes[shape] }) && in_use(
            shape_dropped(shapes, shape),
            shape,
        ),
        !in_use(shapes, shape) ==> !shape_dropped(shapes, shape).contains_key(shape),
{
}

/// Dropping bodies leaves the queue of released tags as it is.
proof fn lemma_bodies_dropped_queue(w: World, keys: Seq<StoreKey>)
    ensures
        w.bodies_dropped(keys).gc == w.gc,
    decreases keys.len(),
{
    if keys.len() > 0 {
        lemma_bodies_dropped_queue(w, keys.drop_last());
    }
}

/// Dropping joints leaves the shapes and the queue of released tags as they
/// are.
proof fn lemma_joints_dropped_shapes(w: World, keys: Seq<StoreKey>)
    ensures
        w.joints_dropped(keys).gc == w.gc,
        w.joints_dropped(keys).shapes == w.shapes,
    decreases keys.len(),
{
    if keys.len() > 0 {
        lemma_joints_dropped_shapes(w, keys.drop_last());
    }
}

/// What a collection does to a released shape. Take the world once the
/// released bodies and areas are gone. A shape that a body still uses then
/// is not removed: it stays with the same bodies, marked for removal, and
/// its tag stays queued, so that the next collection tries again. A shape
/// that no body uses then is removed, and its tag leaves the queue, so that
/// no collection removes it a second time.
pub proof fn lemma_collection_of_shape(w: World, i: int)
    requires
        0 <= i < w.gc.shapes.len(),
    ensures
        ({
            let tag = w.gc.shapes[i];
            let mid = w.bodies_collected();
            let after = w.collected();
            if in_use(mid.shapes, tag.key()) {
                &&& after.shapes.contains_key(tag.key())
                &&& after.shapes[tag.key()] == (ShapeView {
                    marked_for_drop: true,
                    ..mid.shapes[tag.key()]
                })
                &&& after.gc.shapes.contains(tag)
            } else {
                &&& !after.shapes.contains_key(tag.key())
                &&& !after.gc.shapes.contains(tag)
            }
        }),
{
    let tag = w.gc.shapes[i];
    let rigid = w.bodies_dropped(rigid_keys(w.gc.bodies));
    lemma_bodies_dropped_queue(w, rigid_keys(w.gc.bodies));
    lemma_bodies_dropped_queue(rigid, area_keys(w.gc.areas));
    let mid = w.bodies_collected();
    assert(mid.gc.shapes == w.gc.shapes);
    let tried = mid.shapes_tried();
    lemma_joints_dropped_shapes(tried, joint_keys(tried.gc.joints));
    let after = w.collected();
    assert(after.shapes == tried.shapes);
    assert(after.gc.shapes == tried.gc.shapes);
    let asked = shape_keys(mid.gc.shapes).to_set();
    assert(shape_keys(mid.gc.shapes)[i] == tag.key());
    assert(asked.contains(tag.key()));
    let pred = |t: PhysicsShapeTag| in_use(mid.shapes, t.key());
    if in_use(mid.shapes, tag.key()) {
        assert(pred(tag));
        mid.gc.shapes.lemma_filter_contains(pred, i);
    } else {
        if tried.gc.shapes.contains(tag) {
            mid.gc.shapes.lemma_filter_contains_rev(pred, tag);
        }
    }
}

/// Dropping bodies removes exactly the bodies that were dropped.
proof fn lemma_bodies_dropped_keys(w: World, keys: Seq<StoreKey>, key: StoreKey)
    ensures
        w.bodies_dropped(keys).bodies.map.contains_key(key) <==> w.bodies.map.contains_key(key)
            && !keys.contains(key),
        w.bodies_dropped(keys).joints == w.joints,
    decreases keys.len(),
{
    if keys.len() > 0 {
        let front = keys.drop_last();
        lemma_bodies_dropped_keys(w, front, key);
        assert(keys =~= front.push(keys.last()));
        if keys.contains(key) && keys.last() != key {
            let i = choose|i: int| 0 <= i < keys.len() && keys[i] == key;
            assert(front[i] == key);
        }
        if front.contains(key) {
            let i = choose|i: int| 0 <= i < front.len() && front[i] == key;
            assert(keys[i] == key);
        }
        assert(keys[keys.len() - 1] == keys.last());
    }
}

/// Dropping joints removes exactly the joints that were dropped, and no
/// body.
proof fn lemma_joints_dropped_keys(w: World, keys: Seq<StoreKey>, key: StoreKey)
    ensures
        w.joints_dropped(keys).joints.map.contains_key(key) <==> w.joints.map.contains_key(key)
            && !keys.contains(key),
        w.joints_dropped(keys).bodies.map.contains_key(key) <==> w.bodies.map.contains_key(key),
    decreases keys.len(),
{
    if keys.len() > 0 {
        let front = keys.drop_last();
        lemma_joints_dropped_keys(w, front, key);
        assert(keys =~= front.push(keys.last()));
        if keys.contains(key) && keys.last() != key {
            let i = choose|i: int| 0 <= i < keys.len() && keys[i] == key;
            assert(front[i] == key);
        }
        if front.contains(key) {
            let i = choose|i: int| 0 <= i < front.len() && front[i] == key;
            assert(keys[i] == key);
        }
        assert(keys[keys.len() - 1] == keys.last());
        let prev = w.joints_dropped(front);
        let last = keys.last();
        if prev.joints.map.contains_key(last) {
            let j = prev.joints.map[last];
            let woken = prev.joint_bodies_activated(last);
            assert(woken.bodies.map.contains_key(key) <==> prev.bodies.map.contains_key(key));
        }
    }
}

/// After a collection no released rigid body, area or joint exists, and no
/// other body or joint is missing.
pub proof fn lemma_collection_of_bodies_and_joints(w: World, key: StoreKey)
    ensures
        w.collected().bodies.map.contains_key(key) <==> w.bodies.map.contains_key(key)
            && !rigid_keys(w.gc.bodies).contains(key) && !area_keys(w.gc.areas).contains(key),
        w.collected().joints.map.contains_key(key) <==> w.joints.map.contains_key(key)
            && !joint_keys(w.gc.joints).contains(key),
        w.collected().gc.bodies.len() == 0,
        w.collected().gc.areas.len() == 0,
        w.collected().gc.joints.len() == 0,
{
    let rigid = w.bodies_dropped(rigid_keys(w.gc.bodies));
    lemma_bodies_dropped_keys(w, rigid_keys(w.gc.bodies), key);
    lemma_bodies_dropped_keys(rigid, area_keys(w.gc.areas), key);
    lemma_bodies_dropped_queue(w, rigid_keys(w.gc.bodies));
    lemma_bodies_dropped_queue(rigid, area_keys(w.gc.areas));
    let mid = w.bodies_collected();
    let tried = mid.shapes_tried();
    assert(tried.gc.joints == w.gc.joints);
    lemma_joints_dropped_keys(tried, joint_keys(tried.gc.joints), key);
    lemma_joints_dropped_shapes(tried, joint_keys(tried.gc.joints));
}

/// A shape that was not released is left alone by a collection, but for the
/// bodies that the collection detaches from it.
pub proof fn lemma_collection_spares_shape(w: World, shape: StoreKey)
    requires
        forall|i: int| 0 <= i < w.gc.shapes.len() ==> (#[trigger] w.gc.shapes[i]).key() != shape,
    ensures
        w.collected().shapes.contains_key(shape) == w.bodies_collected().shapes.contains_key(shape),
        w.collected().shapes.contains_key(shape) ==> w.collected().shapes[shape]
            == w.bodies_collected().shapes[shape],
{
    let rigid = w.bodies_dropped(rigid_keys(w.gc.bodies));
    lemma_bodies_dropped_queue(w, rigid_keys(w.gc.bodies));
    lemma_bodies_dropped_queue(rigid, area_keys(w.gc.areas));
    let mid = w.bodies_collected();
    let tried = mid.shapes_tried();
    lemma_joints_dropped_shapes(tried, joint_keys(tried.gc.joints));
    let asked = shape_keys(mid.gc.shapes);
    if asked.contains(shape) {
        let j = choose|j: int| 0 <= j < asked.len() && asked[j] == shape;
        assert(w.gc.shapes[j].key() == shape);
    }
}

/// Which tags are queued makes no difference to the dropping of bodies.
proof fn lemma_bodies_dropped_gc(w: World, gc: GcView, keys: Seq<StoreKey>)
    ensures
        (World { gc, ..w }).bodies_dropped(keys) == (World { gc, ..w.bodies_dropped(keys) }),
    decreases keys.len(),
{
    if keys.len() > 0 {
        lemma_bodies_dropped_gc(w, gc, keys.drop_last());
    }
}

/// What dropping a body does to the tables is what it does to the world.
proof fn lemma_body_dropped(before: World, after: World, body: StoreKey)
    requires
        before.bodies.keyed(),
        after.gc == before.gc,
        after.joints == before.joints,
        after.watch_contacts == before.watch_contacts,
        after.bodies == before.bodies.dropped(body),
        after.shapes == (if before.bodies.map.contains_key(body) {
            unregister(
                before.shapes,
                before.bodies.map[body].shape_key,
                before.bodies.map[body].self_key,
            )
        } else {
            before.shapes
        }),
        after.colliders == before.colliders.dropped_if(
            if before.bodies.map.contains_key(body) {
                before.bodies.map[body].collider_key
            } else {
                None
            },
        ),
    ensures
        after == before.body_dropped(body),
{
    assert(after.bodies =~= before.body_dropped(body).bodies);
}

} // verus!
