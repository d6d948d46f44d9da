//! The scene-description state machine: which calls are allowed in which block, the stacks
//! that `AttributeBegin`/`AttributeEnd` and `TransformBegin`/`TransformEnd` maintain, which of
//! the transforms are active, the named coordinate systems, and the names of the plug-ins
//! the scene can ask for.
//!
//! The machine is generic in the transform type `T` and the graphics state `G`: the
//! renderer supplies their values and the arithmetic on them.
use vstd::prelude::*;

use crate::text::str_eq;

verus! {

/// MockAPI is an empty receiver of parsed commands, used for testing the parser.
pub struct MockAPI {}

impl Default for MockAPI {
    /// The receiver, which holds nothing.
    fn default() -> (api: MockAPI)
        ensures
            api == (MockAPI {}),
    {
        MockAPI {}
    }
}

/// State machine for the API.
#[derive(Debug, Clone, Copy, PartialEq, Eq, Structural)]
pub enum APIState {
    /// `init` has not been called.
    Uninitialized,
    /// Options may be set.
    OptionsBlock,
    /// The scene is being described.
    WorldBlock,
}

/// The number of transforms kept: one for the start and one for the end of the shutter
/// interval.
pub const MAX_TRANSFORMS: usize = 2;

/// Selects the start transform.
pub const START_TRANSFORM_BITS: usize = 1;

/// Selects the end transform.
pub const END_TRANSFORM_BITS: usize = 2;

/// Selects both transforms.
pub const ALL_TRANSFORMS_BITS: usize = 3;

/// Whether a call may proceed in the current state, and if not, why.
#[derive(Debug, Clone, Copy, PartialEq, Eq, Structural)]
pub enum Verdict {
    /// The call may proceed.
    Allowed,
    /// `init` must be called first.
    NotInitialized,
    /// Options cannot be set inside the world block.
    InsideWorld,
    /// The scene description must be inside the world block.
    OutsideWorld,
}

/// A call that needs `init` to have been called.
#[verifier::allow_in_spec]
pub fn verify_initialized(state: APIState) -> Verdict
    returns
        (if state == APIState::Uninitialized {
            Verdict::NotInitialized
        } else {
            Verdict::Allowed
        }),
{
    if state == APIState::Uninitialized {
        Verdict::NotInitialized
    } else {
        Verdict::Allowed
    }
}

/// A call that sets options: it must come after `init` and outside the world block.
#[verifier::allow_in_spec]
pub fn verify_options(state: APIState) -> Verdict
    returns
        (match state {
            APIState::Uninitialized => Verdict::NotInitialized,
            APIState::WorldBlock => Verdict::InsideWorld,
            APIState::OptionsBlock => Verdict::Allowed,
        }),
{
    match state {
        APIState::Uninitialized => Verdict::NotInitialized,
        APIState::WorldBlock => Verdict::InsideWorld,
        APIState::OptionsBlock => Verdict::Allowed,
    }
}

/// A call that describes the scene: it must come inside the world block.
#[verifier::allow_in_spec]
pub fn verify_world(state: APIState) -> Verdict
    returns
        (match state {
            APIState::Uninitialized => Verdict::NotInitialized,
            APIState::OptionsBlock => Verdict::OutsideWorld,
            APIState::WorldBlock => Verdict::Allowed,
        }),
{
    match state {
        APIState::Uninitialized => Verdict::NotInitialized,
        APIState::OptionsBlock => Verdict::OutsideWorld,
        APIState::WorldBlock => Verdict::Allowed,
    }
}

/// The map recorded by a list of named entries, later entries taking precedence.
pub open spec fn table_map<V>(entries: Seq<(String, V)>) -> Map<Seq<char>, V>
    decreases entries.len(),
{
    if entries.len() == 0 {
        Map::empty()
    } else {
        table_map(entries.drop_last()).insert(entries.last().0@, entries.last().1)
    }
}

/// Values stored under names; storing under a name again replaces the value.
pub struct NamedTable<V> {
    entries: Vec<(String, V)>,
}

impl<V> View for NamedTable<V> {
    type V = Map<Seq<char>, V>;

    closed spec fn view(&self) -> Map<Seq<char>, V> {
        table_map(self.entries@)
    }
}

proof fn lemma_table_map_last<V>(entries: Seq<(String, V)>, k: Seq<char>, i: int)
    requires
        0 <= i < entries.len(),
        entries[i].0@ == k,
        forall|j: int| i < j < entries.len() ==> #[trigger] entries[j].0@ != k,
    ensures
        table_map(entries).contains_key(k),
        table_map(entries)[k] == entries[i].1,
    decreases entries.len(),
{
    if i < entries.len() - 1 {
        let front = entries.drop_last();
        assert forall|j: int| i < j < front.len() implies #[trigger] front[j].0@ != k by {
            assert(front[j] == entries[j]);
        }
        assert(front[i] == entries[i]);
        lemma_table_map_last(front, k, i);
        assert(entries[entries.len() - 1].0@ != k);
    }
}

proof fn lemma_table_map_absent<V>(entries: Seq<(String, V)>, k: Seq<char>)
    requires
        forall|j: int| 0 <= j < entries.len() ==> #[trigger] entries[j].0@ != k,
    ensures
        !table_map(entries).contains_key(k),
    decreases entries.len(),
{
    if entries.len() > 0 {
        let front = entries.drop_last();
        assert forall|j: int| 0 <= j < front.len() implies #[trigger] front[j].0@ != k by {
            assert(front[j] == entries[j]);
        }
        lemma_table_map_absent(front, k);
        assert(entries[entries.len() - 1].0@ != k);
    }
}

impl<V: Copy> NamedTable<V> {
    /// The empty table.
    pub fn new() -> (t: Self)
        ensures
            t@ == Map::<Seq<char>, V>::empty(),
    {
        NamedTable { entries: Vec::new() }
    }

    /// Stores `value` under `name`.
    pub fn insert(&mut self, name: &str, value: V)
        ensures
            final(self)@ == old(self)@.insert(name@, value),
    {
        let ghost before = self.entries@;
        self.entries.push((name.to_owned(), value));
        proof {
            assert(self.entries@.drop_last() =~= before);
        }
    }

    /// The value stored under `name`, if any.
    pub fn get(&self, name: &str) -> (r: Option<V>)
        ensures
            self@.contains_key(name@) ==> r == Some(self@[name@]),
            !self@.contains_key(name@) ==> r is None,
    {
        let mut i = self.entries.len();
        while i > 0
            invariant
                i <= self.entries@.len(),
                forall|j: int| i <= j < self.entries@.len() ==> #[trigger] self.entries@[j].0@ != name@,
            decreases i,
        {
            i = i - 1;
            if str_eq(self.entries[i].0.as_str(), name) {
                proof {
                    lemma_table_map_last(self.entries@, name@, i as int);
                }
                return Some(self.entries[i].1);
            }
        }
        proof {
            lemma_table_map_absent(self.entries@, name@);
        }
        None
    }
}

/// The transforms at the start and the end of the shutter interval.
pub type TransformSet<T> = [T; 2];

/// Whether transform `i` is selected by `bits`.
pub open spec fn selects(bits: usize, i: int) -> bool {
    (i == 0 && bits % 2 == 1) || (i == 1 && (bits / 2) % 2 == 1)
}

/// Which of the transforms the active bits select: bit `i` selects transform `i`.
pub fn active_transforms(bits: usize) -> (r: [bool; 2])
    ensures
        r@[0] == selects(bits, 0),
        r@[1] == selects(bits, 1),
{
    let start = bits & 1 != 0;
    let end = bits & 2 != 0;
    assert((bits & 1 != 0) == (bits % 2 == 1)) by (bit_vector);
    assert((bits & 2 != 0) == ((bits / 2) % 2 == 1)) by (bit_vector);
    [start, end]
}

/// The state of the scene description: the block being described, the current transforms
/// and which of them are active, the graphics state, the saved copies that
/// `AttributeBegin` and `TransformBegin` push, and the named coordinate systems.
pub struct ApiCore<T, G> {
    /// The block being described.
    pub state: APIState,
    /// The current transforms.
    pub current_transform: TransformSet<T>,
    /// Which transforms the transform calls change.
    pub active_transform_bits: usize,
    /// The current graphics state.
    pub graphics_state: G,
    /// Graphics states saved by `AttributeBegin`.
    pub pushed_graphics_states: Vec<G>,
    /// Transforms saved by `AttributeBegin` and `TransformBegin`.
    pub pushed_transforms: Vec<TransformSet<T>>,
    /// Active bits saved by `AttributeBegin` and `TransformBegin`.
    pub pushed_active_transform_bits: Vec<usize>,
    /// Transforms saved under names.
    pub named_coordinate_systems: NamedTable<TransformSet<T>>,
}

impl<T: Copy, G> ApiCore<T, G> {
    /// A machine before `init`: both transforms are `identity`, all are active, nothing is
    /// saved.
    pub fn new(identity: T, graphics_state: G) -> (a: Self)
        ensures
            a.state == APIState::Uninitialized,
            a.current_transform@ == seq![identity, identity],
            a.active_transform_bits == ALL_TRANSFORMS_BITS,
            a.graphics_state == graphics_state,
            a.pushed_graphics_states@.len() == 0,
            a.pushed_transforms@.len() == 0,
            a.pushed_active_transform_bits@.len() == 0,
            a.named_coordinate_systems@ == Map::<Seq<char>, TransformSet<T>>::empty(),
    {
        ApiCore {
            state: APIState::Uninitialized,
            current_transform: [identity, identity],
            active_transform_bits: ALL_TRANSFORMS_BITS,
            graphics_state,
            pushed_graphics_states: Vec::new(),
            pushed_transforms: Vec::new(),
            pushed_active_transform_bits: Vec::new(),
            named_coordinate_systems: NamedTable::new(),
        }
    }

    /// Enters the options block; returns whether `init` had already been called.
    pub fn init(&mut self) -> (already: bool)
        ensures
            already == (old(self).state != APIState::Uninitialized),
            *final(self) == (ApiCore { state: APIState::OptionsBlock, ..*old(self) }),
    {
        let already = self.state != APIState::Uninitialized;
        self.state = APIState::OptionsBlock;
        already
    }

    /// Returns to the state before `init`; the verdict says whether the call was made
    /// before `init` or inside the world block.
    pub fn cleanup(&mut self) -> (v: Verdict)
        ensures
            v == (match old(self).state {
                APIState::Uninitialized => Verdict::NotInitialized,
                APIState::WorldBlock => Verdict::InsideWorld,
                APIState::OptionsBlock => Verdict::Allowed,
            }),
            *final(self) == (ApiCore { state: APIState::Uninitialized, ..*old(self) }),
    {
        let v = verify_options(self.state);
        self.state = APIState::Uninitialized;
        v
    }

    /// `WorldBegin`: allowed in the options block; resets both transforms to `identity`,
    /// makes all of them active and names the result `world`.
    pub fn world_begin(&mut self, identity: T) -> (v: Verdict)
        ensures
            v == verify_options(old(self).state),
            v == Verdict::Allowed ==> {
                &&& *final(self) == (ApiCore {
                    state: APIState::WorldBlock,
                    current_transform: final(self).current_transform,
                    active_transform_bits: ALL_TRANSFORMS_BITS,
                    named_coordinate_systems: final(self).named_coordinate_systems,
                    ..*old(self)
                })
                &&& final(self).current_transform@ == seq![identity, identity]
                &&& final(self).named_coordinate_systems@ == old(
                    self,
                ).named_coordinate_systems@.insert("world"@, [identity, identity])
            },
            v != Verdict::Allowed ==> *final(self) == *old(self),
    {
        let v = verify_options(self.state);
        if v != Verdict::Allowed {
            return v;
        }
        self.state = APIState::WorldBlock;
        self.current_transform = [identity, identity];
        self.active_transform_bits = ALL_TRANSFORMS_BITS;
        self.named_coordinate_systems.insert("world", self.current_transform);
        v
    }

    /// `WorldEnd`: allowed in the world block; returns to the options block.
    pub fn world_end(&mut self) -> (v: Verdict)
        ensures
            v == verify_world(old(self).state),
            v == Verdict::Allowed ==> *final(self) == (ApiCore {
                state: APIState::OptionsBlock,
                ..*old(self)
            }),
            v != Verdict::Allowed ==> *final(self) == *old(self),
    {
        let v = verify_world(self.state);
        if v != Verdict::Allowed {
            return v;
        }
        self.state = APIState::OptionsBlock;
        v
    }

    /// `AttributeBegin`: allowed in the world block; saves `saved`, a copy of the graphics
    /// state, with the transforms and the active bits.
    pub fn attribute_begin(&mut self, saved: G) -> (v: Verdict)
        ensures
            v == verify_world(old(self).state),
            v == Verdict::Allowed ==> {
                &&& final(self).pushed_graphics_states@ == old(self).pushed_graphics_states@.push(
                    saved,
                )
                &&& final(self).pushed_transforms@ == old(self).pushed_transforms@.push(
                    old(self).current_transform,
                )
                &&& final(self).pushed_active_transform_bits@ == old(
                    self,
                ).pushed_active_transform_bits@.push(old(self).active_transform_bits)
                &&& final(self).state == old(self).state
                &&& final(self).current_transform == old(self).current_transform
                &&& final(self).active_transform_bits == old(self).active_transform_bits
                &&& final(self).graphics_state == old(self).graphics_state
                &&& final(self).named_coordinate_systems@ == old(self).named_coordinate_systems@
            },
            v != Verdict::Allowed ==> *final(self) == *old(self),
    {
        let v = verify_world(self.state);
        if v != Verdict::Allowed {
            return v;
        }
        self.pushed_graphics_states.push(saved);
        self.pushed_transforms.push(self.current_transform);
        self.pushed_active_transform_bits.push(self.active_transform_bits);
        v
    }

    /// `AttributeEnd`: allowed in the world block; restores what the matching
    /// `AttributeBegin` saved.  Returns `false` (changing nothing) when nothing was saved.
    pub fn attribute_end(&mut self) -> (r: (Verdict, bool))
        ensures
            r.0 == verify_world(old(self).state),
            r.1 == (r.0 == Verdict::Allowed && old(self).pushed_graphics_states@.len() > 0
                && old(self).pushed_transforms@.len() > 0
                && old(self).pushed_active_transform_bits@.len() > 0),
            r.1 ==> {
                &&& final(self).graphics_state == old(self).pushed_graphics_states@.last()
                &&& final(self).current_transform == old(self).pushed_transforms@.last()
                &&& final(self).active_transform_bits == old(
                    self,
                ).pushed_active_transform_bits@.last()
                &&& final(self).pushed_graphics_states@ == old(
                    self,
                ).pushed_graphics_states@.drop_last()
                &&& final(self).pushed_transforms@ == old(self).pushed_transforms@.drop_last()
                &&& final(self).pushed_active_transform_bits@ == old(
                    self,
                ).pushed_active_transform_bits@.drop_last()
                &&& final(self).state == old(self).state
                &&& final(self).named_coordinate_systems@ == old(self).named_coordinate_systems@
            },
            !r.1 ==> *final(self) == *old(self),
    {
        let v = verify_world(self.state);
        if v != Verdict::Allowed {
            return (v, false);
        }
        if self.pushed_graphics_states.len() == 0 || self.pushed_transforms.len() == 0
            || self.pushed_active_transform_bits.len() == 0 {
            return (v, false);
        }
        match (
            self.pushed_graphics_states.pop(),
            self.pushed_transforms.pop(),
            self.pushed_active_transform_bits.pop(),
        ) {
            (Some(g), Some(t), Some(b)) => {
                self.graphics_state = g;
                self.current_transform = t;
                self.active_transform_bits = b;
            },
            _ => {},
        }
        (v, true)
    }

    /// `TransformBegin`: allowed in the world block; saves the transforms and the active
    /// bits.
    pub fn transform_begin(&mut self) -> (v: Verdict)
        ensures
            v == verify_world(old(self).state),
            v == Verdict::Allowed ==> {
                &&& final(self).pushed_transforms@ == old(self).pushed_transforms@.push(
                    old(self).current_transform,
                )
                &&& final(self).pushed_active_transform_bits@ == old(
                    self,
                ).pushed_active_transform_bits@.push(old(self).active_transform_bits)
                &&& final(self).pushed_graphics_states@ == old(self).pushed_graphics_states@
                &&& final(self).state == old(self).state
                &&& final(self).current_transform == old(self).current_transform
                &&& final(self).active_transform_bits == old(self).active_transform_bits
                &&& final(self).graphics_state == old(self).graphics_state
                &&& final(self).named_coordinate_systems@ == old(self).named_coordinate_systems@
            },
            v != Verdict::Allowed ==> *final(self) == *old(self),
    {
        let v = verify_world(self.state);
        if v != Verdict::Allowed {
            return v;
        }
        self.pushed_transforms.push(self.current_transform);
        self.pushed_active_transform_bits.push(self.active_transform_bits);
        v
    }

    /// `TransformEnd`: allowed in the world block; restores what the matching
    /// `TransformBegin` saved.  Returns `false` (changing nothing) when nothing was saved.
    pub fn transform_end(&mut self) -> (r: (Verdict, bool))
        ensures
            r.0 == verify_world(old(self).state),
            r.1 == (r.0 == Verdict::Allowed && old(self).pushed_transforms@.len() > 0
                && old(self).pushed_active_transform_bits@.len() > 0),
            r.1 ==> {
                &&& final(self).current_transform == old(self).pushed_transforms@.last()
                &&& final(self).active_transform_bits == old(
                    self,
                ).pushed_active_transform_bits@.last()
                &&& final(self).pushed_transforms@ == old(self).pushed_transforms@.drop_last()
                &&& final(self).pushed_active_transform_bits@ == old(
                    self,
                ).pushed_active_transform_bits@.drop_last()
                &&& final(self).pushed_graphics_states@ == old(self).pushed_graphics_states@
                &&& final(self).graphics_state == old(self).graphics_state
                &&& final(self).state == old(self).state
                &&& final(self).named_coordinate_systems@ == old(self).named_coordinate_systems@
            },
            !r.1 ==> *final(self) == *old(self),
    {
        let v = verify_world(self.state);
        if v != Verdict::Allowed {
            return (v, false);
        }
        if self.pushed_transforms.len() == 0 || self.pushed_active_transform_bits.len() == 0 {
            return (v, false);
        }
        match (self.pushed_transforms.pop(), self.pushed_active_transform_bits.pop()) {
            (Some(t), Some(b)) => {
                self.current_transform = t;
                self.active_transform_bits = b;
            },
            _ => {},
        }
        (v, true)
    }

    /// Makes both transforms active.
    pub fn active_transform_all(&mut self)
        ensures
            *final(self) == (ApiCore { active_transform_bits: ALL_TRANSFORMS_BITS, ..*old(self) }),
    {
        self.active_transform_bits = ALL_TRANSFORMS_BITS;
    }

    /// Makes only the end transform active.
    pub fn active_transform_end_time(&mut self)
        ensures
            *final(self) == (ApiCore { active_transform_bits: END_TRANSFORM_BITS, ..*old(self) }),
    {
        self.active_transform_bits = END_TRANSFORM_BITS;
    }

    /// Makes only the start transform active.
    pub fn active_transform_start_time(&mut self)
        ensures
            *final(self) == (ApiCore { active_transform_bits: START_TRANSFORM_BITS, ..*old(self) }),
    {
        self.active_transform_bits = START_TRANSFORM_BITS;
    }

    /// Replaces each active transform `t` by `f(t)` as given in `replacement`; inactive
    /// ones are kept.
    pub fn set_active_transforms(&mut self, replacement: TransformSet<T>)
        ensures
            final(self).current_transform@[0] == (if selects(old(self).active_transform_bits, 0) {
                replacement@[0]
            } else {
                old(self).current_transform@[0]
            }),
            final(self).current_transform@[1] == (if selects(old(self).active_transform_bits, 1) {
                replacement@[1]
            } else {
                old(self).current_transform@[1]
            }),
            *final(self) == (ApiCore { current_transform: final(self).current_transform, ..*old(self) }),
    {
        let active = active_transforms(self.active_transform_bits);
        let first = if active[0] {
            replacement[0]
        } else {
            self.current_transform[0]
        };
        let second = if active[1] {
            replacement[1]
        } else {
            self.current_transform[1]
        };
        self.current_transform = [first, second];
    }

    /// `CoordinateSystem`: names the current transforms.
    pub fn coordinate_system(&mut self, name: &str) -> (v: Verdict)
        ensures
            v == verify_initialized(old(self).state),
            v == Verdict::Allowed ==> final(self).named_coordinate_systems@ == old(
                self,
            ).named_coordinate_systems@.insert(name@, old(self).current_transform),
            v == Verdict::Allowed ==> *final(self) == (ApiCore {
                named_coordinate_systems: final(self).named_coordinate_systems,
                ..*old(self)
            }),
            v != Verdict::Allowed ==> *final(self) == *old(self),
    {
        let v = verify_initialized(self.state);
        if v != Verdict::Allowed {
            return v;
        }
        self.named_coordinate_systems.insert(name, self.current_transform);
        v
    }

    /// `CoordSysTransform`: makes the transforms named `name` current; returns `false`
    /// (changing nothing) when no transforms have that name.
    pub fn coordinate_system_transform(&mut self, name: &str) -> (r: (Verdict, bool))
        ensures
            r.0 == verify_initialized(old(self).state),
            r.1 == (r.0 == Verdict::Allowed && old(self).named_coordinate_systems@.contains_key(
                name@,
            )),
            r.1 ==> final(self).current_transform == old(self).named_coordinate_systems@[name@],
            r.1 ==> *final(self) == (ApiCore {
                current_transform: final(self).current_transform,
                ..*old(self)
            }),
            !r.1 ==> *final(self) == *old(self),
    {
        let v = verify_initialized(self.state);
        if v != Verdict::Allowed {
            return (v, false);
        }
        match self.named_coordinate_systems.get(name) {
            Some(t) => {
                self.current_transform = t;
                (v, true)
            },
            None => (v, false),
        }
    }
}

/// Law: `AttributeEnd` undoes `AttributeBegin`.  Whatever happens to the transforms, the
/// active bits and the graphics state in between (as long as the saved copies are left
/// alone), they are back to what they were (the graphics state to the copy that was saved),
/// and so are the saved copies.
pub proof fn law_attribute_end_undoes_begin<T, G>(
    before: ApiCore<T, G>,
    saved: G,
    begun: ApiCore<T, G>,
    changed: ApiCore<T, G>,
    ended: ApiCore<T, G>,
)
    requires
        before.state == APIState::WorldBlock,
        begun.pushed_graphics_states@ == before.pushed_graphics_states@.push(saved),
        begun.pushed_transforms@ == before.pushed_transforms@.push(before.current_transform),
        begun.pushed_active_transform_bits@ == before.pushed_active_transform_bits@.push(
            before.active_transform_bits,
        ),
        changed.pushed_graphics_states@ == begun.pushed_graphics_states@,
        changed.pushed_transforms@ == begun.pushed_transforms@,
        changed.pushed_active_transform_bits@ == begun.pushed_active_transform_bits@,
        ended.graphics_state == changed.pushed_graphics_states@.last(),
        ended.current_transform == changed.pushed_transforms@.last(),
        ended.active_transform_bits == changed.pushed_active_transform_bits@.last(),
        ended.pushed_graphics_states@ == changed.pushed_graphics_states@.drop_last(),
        ended.pushed_transforms@ == changed.pushed_transforms@.drop_last(),
        ended.pushed_active_transform_bits@ == changed.pushed_active_transform_bits@.drop_last(),
    ensures
        ended.graphics_state == saved,
        ended.current_transform == before.current_transform,
        ended.active_transform_bits == before.active_transform_bits,
        ended.pushed_graphics_states@ == before.pushed_graphics_states@,
        ended.pushed_transforms@ == before.pushed_transforms@,
        ended.pushed_active_transform_bits@ == before.pushed_active_transform_bits@,
{
    assert(before.pushed_graphics_states@.push(saved).drop_last() =~= before.pushed_graphics_states@);
    assert(before.pushed_transforms@.push(before.current_transform).drop_last()
        =~= before.pushed_transforms@);
    assert(before.pushed_active_transform_bits@.push(before.active_transform_bits).drop_last()
        =~= before.pushed_active_transform_bits@);
}

/// Law: `TransformEnd` undoes `TransformBegin`.  Whatever happens to the transforms and the
/// active bits in between (as long as the saved copies are left alone), they are back to
/// what they were, and so are the saved copies.
pub proof fn law_transform_end_undoes_begin<T, G>(
    before: ApiCore<T, G>,
    begun: ApiCore<T, G>,
    changed: ApiCore<T, G>,
    ended: ApiCore<T, G>,
)
    requires
        begun.pushed_transforms@ == before.pushed_transforms@.push(before.current_transform),
        begun.pushed_active_transform_bits@ == before.pushed_active_transform_bits@.push(
            before.active_transform_bits,
        ),
        changed.pushed_transforms@ == begun.pushed_transforms@,
        changed.pushed_active_transform_bits@ == begun.pushed_active_transform_bits@,
        ended.current_transform == changed.pushed_transforms@.last(),
        ended.active_transform_bits == changed.pushed_active_transform_bits@.last(),
        ended.pushed_transforms@ == changed.pushed_transforms@.drop_last(),
        ended.pushed_active_transform_bits@ == changed.pushed_active_transform_bits@.drop_last(),
    ensures
        ended.current_transform == before.current_transform,
        ended.active_transform_bits == before.active_transform_bits,
        ended.pushed_transforms@ == before.pushed_transforms@,
        ended.pushed_active_transform_bits@ == before.pushed_active_transform_bits@,
{
    assert(before.pushed_transforms@.push(before.current_transform).drop_last()
        =~= before.pushed_transforms@);
    assert(before.pushed_active_transform_bits@.push(before.active_transform_bits).drop_last()
        =~= before.pushed_active_transform_bits@);
}

/// Law: `CoordSysTransform` gives back what `CoordinateSystem` saved.  Once the current
/// transforms are named `name`, any steps that leave the named transforms alone may follow
/// (the transform steps change only the current transforms); the name is then known, and
/// making it current restores the transforms that were saved under it.
pub proof fn law_coordinate_system_round_trip<T, G>(
    before: ApiCore<T, G>,
    named: ApiCore<T, G>,
    changed: ApiCore<T, G>,
    restored: ApiCore<T, G>,
    name: Seq<char>,
)
    requires
        named.named_coordinate_systems@ == before.named_coordinate_systems@.insert(
            name,
            before.current_transform,
        ),
        changed.named_coordinate_systems@ == named.named_coordinate_systems@,
        restored.current_transform == changed.named_coordinate_systems@[name],
    ensures
        changed.named_coordinate_systems@.contains_key(name),
        restored.current_transform == before.current_transform,
{
}

/// The kinds of texture a `Texture` statement can define.
#[derive(Debug, Clone, Copy, PartialEq, Eq, Structural)]
pub enum TextureKind {
    /// `float`
    Float,
    /// `color` or `spectrum`
    Spectrum,
    /// Anything else.
    Unknown,
}

/// The kind of texture named `kind`.
pub fn texture_kind(kind: &str) -> (r: TextureKind)
    ensures
        r == (if kind@ == "float"@ {
            TextureKind::Float
        } else if kind@ == "color"@ || kind@ == "spectrum"@ {
            TextureKind::Spectrum
        } else {
            TextureKind::Unknown
        }),
{
    if str_eq(kind, "float") {
        TextureKind::Float
    } else if str_eq(kind, "color") || str_eq(kind, "spectrum") {
        TextureKind::Spectrum
    } else {
        TextureKind::Unknown
    }
}

/// How a plug-in name is handled.
#[derive(Debug, Clone, Copy, PartialEq, Eq, Structural)]
pub enum PluginSupport {
    /// Implemented.
    Implemented,
    /// A known name that is not implemented yet.
    NotImplemented,
    /// An unknown name.
    Unknown,
}

/// The texture algorithms that are known but not implemented.
pub open spec fn unhandled_texture(name: Seq<char>) -> bool {
    ||| name == "scale"@
    ||| name == "mix"@
    ||| name == "bilerp"@
    ||| name == "imagemap"@
    ||| name == "uv"@
    ||| name == "checkerboard"@
    ||| name == "dots"@
    ||| name == "fbm"@
    ||| name == "wrinkled"@
    ||| name == "marble"@
    ||| name == "windy"@
}

/// How the texture algorithm `name` is handled: only `constant` is implemented.
pub fn texture_support(name: &str) -> (r: PluginSupport)
    ensures
        r == (if name@ == "constant"@ {
            PluginSupport::Implemented
        } else if unhandled_texture(name@) {
            PluginSupport::NotImplemented
        } else {
            PluginSupport::Unknown
        }),
{
    if str_eq(name, "constant") {
        PluginSupport::Implemented
    } else if str_eq(name, "scale") || str_eq(name, "mix") || str_eq(name, "bilerp") || str_eq(
        name,
        "imagemap",
    ) || str_eq(name, "uv") || str_eq(name, "checkerboard") || str_eq(name, "dots") || str_eq(
        name,
        "fbm",
    ) || str_eq(name, "wrinkled") || str_eq(name, "marble") || str_eq(name, "windy") {
        PluginSupport::NotImplemented
    } else {
        PluginSupport::Unknown
    }
}

/// How the light `name` is handled: only `infinite` (also spelled `exinfinite`) is
/// implemented.
pub fn light_support(name: &str) -> (r: PluginSupport)
    ensures
        r == (if name@ == "infinite"@ || name@ == "exinfinite"@ {
            PluginSupport::Implemented
        } else if name@ == "point"@ || name@ == "spot"@ || name@ == "goniometric"@ || name@
            == "projection"@ || name@ == "distant"@ {
            PluginSupport::NotImplemented
        } else {
            PluginSupport::Unknown
        }),
{
    if str_eq(name, "infinite") || str_eq(name, "exinfinite") {
        PluginSupport::Implemented
    } else if str_eq(name, "point") || str_eq(name, "spot") || str_eq(name, "goniometric")
        || str_eq(name, "projection") || str_eq(name, "distant") {
        PluginSupport::NotImplemented
    } else {
        PluginSupport::Unknown
    }
}

/// How the pixel filter `name` is handled: only `box` is implemented.
pub fn filter_support(name: &str) -> (r: PluginSupport)
    ensures
        r == (if name@ == "box"@ {
            PluginSupport::Implemented
        } else if name@ == "gaussian"@ || name@ == "mitchell"@ || name@ == "sinc"@ || name@
            == "triangle"@ {
            PluginSupport::NotImplemented
        } else {
            PluginSupport::Unknown
        }),
{
    if str_eq(name, "box") {
        PluginSupport::Implemented
    } else if str_eq(name, "gaussian") || str_eq(name, "mitchell") || str_eq(name, "sinc")
        || str_eq(name, "triangle") {
        PluginSupport::NotImplemented
    } else {
        PluginSupport::Unknown
    }
}

} // verus!
