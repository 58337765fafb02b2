//! The particle store: a fixed number of slots that fill from the front and
//! are never given back.

use crate::scalar::{Scalar, Vec2, ONE_BITS, ZERO_BITS};
use vstd::prelude::*;

verus! {

/// Bit pattern of `0.5`, the default downward pull per step.
pub const DEFAULT_GRAVITY_BITS: u32 = 0x3F00_0000;

/// Bit pattern of `0.01`, the default drag per axis.
pub const DEFAULT_DRAG_BITS: u32 = 0x3C23_D70A;

/// Bit pattern of `0.9`, the default restitution.
pub const DEFAULT_RESTITUTION_BITS: u32 = 0x3F66_6666;

/// Bit pattern of `-100.0`, the coordinate at which retired particles rest.
pub const PARKED_BITS: u32 = 0xC2C8_0000;

/// Half the side of the square that a particle occupies when it meets a wall.
pub const PARTICLE_RADIUS: i16 = 4;

/// Bit pattern of `6.0`, the strength of the attractor that follows the pointer.
pub const POINTER_STRENGTH_BITS: u32 = 0x40C0_0000;

/// Radius of the attractor that follows the pointer.
pub const POINTER_RADIUS: u8 = 50;

/// The constants of the force field. They can change between two steps and
/// hold from the next step on.
#[derive(Clone, Copy, Debug, PartialEq, Eq)]
pub struct SimParams {
    /// Acceleration that every particle undergoes.
    pub gravity: Vec2,
    /// A force that does not depend on the mass.
    pub wind: Vec2,
    /// Acceleration that a tilt or touch sensor gives.
    pub acceleration: Vec2,
    /// Drag per axis: the force is minus this times the velocity.
    pub global_drag: Vec2,
    /// Share of the speed that survives a bounce, where `damped_bounce` is set.
    pub restitution: Scalar,
    /// Length of one step.
    pub dt: Scalar,
    /// What a step takes from every lifetime.
    pub lifetime_decay: Scalar,
    /// Whether a bounce scales the reflected speed by `restitution`. Unset, a
    /// bounce only flips the sign.
    pub damped_bounce: bool,
}

/// A point that pulls the particles within its radius.
#[derive(Clone, Copy, Debug, PartialEq, Eq)]
pub struct Attractor {
    pub position: Vec2,
    /// Scale of the pull.
    pub strength: Scalar,
    /// Distance at which the pull has fallen to nothing.
    pub radius: u8,
}

/// What the surroundings tell the store between two steps.
#[derive(Clone, Copy, Debug, PartialEq, Eq)]
pub enum Input {
    /// The pointer is at `at`, in pixels.
    PointerMoved { at: Vec2 },
    /// The pointer has left the box.
    PointerLeft,
    /// A touch or a tilt, as an offset from the middle that is `1.0` at the edge.
    Tilted { offset: Vec2 },
}

impl Attractor {
    /// The attractor that follows the pointer: at the pointer, of strength
    /// `6.0` and radius `50`.
    pub open spec fn at_pointer(at: Vec2) -> Attractor {
        Attractor {
            position: at,
            strength: Scalar { bits: POINTER_STRENGTH_BITS },
            radius: POINTER_RADIUS,
        }
    }
}

/// What one slot holds.
#[derive(Clone, Copy, Debug, PartialEq, Eq)]
pub struct Particle {
    /// Pixels from the top-left corner, x to the right and y down.
    pub position: Vec2,
    /// Pixels per step.
    pub velocity: Vec2,
    /// The force that the last step summed up.
    pub force: Vec2,
    pub mass: Scalar,
    pub lifetime: Scalar,
}

/// Where one step of the integration has taken a particle.
#[derive(Clone, Copy, Debug, PartialEq, Eq)]
pub struct Motion {
    pub position: Vec2,
    pub velocity: Vec2,
    /// The force that the step summed up.
    pub force: Vec2,
    /// The lifetime after the step's decay.
    pub lifetime: Scalar,
}

impl Vec2 {
    /// Both components `0.0`.
    pub open spec fn zero() -> Vec2 {
        Vec2 { x: Scalar { bits: ZERO_BITS }, y: Scalar { bits: ZERO_BITS } }
    }

    /// The place off screen where retired particles rest: `(-100, -100)`.
    pub open spec fn parked() -> Vec2 {
        Vec2 { x: Scalar { bits: PARKED_BITS }, y: Scalar { bits: PARKED_BITS } }
    }
}

impl SimParams {
    /// Gravity `(0, 0.5)`, drag `0.01` per axis, no wind, no sensor input,
    /// restitution `0.9`, a step of `1.0`, no decay, undamped bounces.
    pub open spec fn initial() -> SimParams {
        SimParams {
            gravity: Vec2 { x: Scalar { bits: ZERO_BITS }, y: Scalar { bits: DEFAULT_GRAVITY_BITS } },
            wind: Vec2::zero(),
            acceleration: Vec2::zero(),
            global_drag: Vec2 {
                x: Scalar { bits: DEFAULT_DRAG_BITS },
                y: Scalar { bits: DEFAULT_DRAG_BITS },
            },
            restitution: Scalar { bits: DEFAULT_RESTITUTION_BITS },
            dt: Scalar { bits: ONE_BITS },
            lifetime_decay: Scalar { bits: ZERO_BITS },
            damped_bounce: false,
        }
    }
}

impl Particle {
    /// A slot that was never filled: at the origin, at rest, of mass and
    /// lifetime `1.0`.
    pub open spec fn blank() -> Particle {
        Particle {
            position: Vec2::zero(),
            velocity: Vec2::zero(),
            force: Vec2::zero(),
            mass: Scalar { bits: ONE_BITS },
            lifetime: Scalar { bits: ONE_BITS },
        }
    }

    /// Retired: the lifetime is zero and the particle rests off screen, at
    /// `(-100, -100)` with no velocity.
    pub open spec fn parked(self) -> bool {
        &&& self.lifetime.zero()
        &&& self.position == Vec2::parked()
        &&& self.velocity.x.zero()
        &&& self.velocity.y.zero()
    }

    /// What a slot holds after a step has taken its particle to `motion`.
    /// A retired particle stays as it is, whatever the motion. A particle whose
    /// lifetime has fallen below zero is retired: its lifetime becomes `0.0`, it
    /// comes to rest, and it moves off screen. The mass stays.
    pub open spec fn advanced(self, motion: Motion) -> Particle {
        if self.parked() {
            self
        } else if motion.lifetime.below_zero() {
            Particle {
                position: Vec2::parked(),
                velocity: Vec2::zero(),
                force: motion.force,
                mass: self.mass,
                lifetime: Scalar { bits: ZERO_BITS },
            }
        } else {
            Particle {
                position: motion.position,
                velocity: motion.velocity,
                force: motion.force,
                mass: self.mass,
                lifetime: motion.lifetime,
            }
        }
    }
}

impl Particle {
    /// Whether the particle is retired.
    pub fn is_parked(&self) -> (r: bool)
        ensures
            r == self.parked(),
    {
        self.lifetime.is_zero() && self.position.x.bits == PARKED_BITS && self.position.y.bits
            == PARKED_BITS && self.velocity.x.is_zero() && self.velocity.y.is_zero()
    }
}

/// What a slot holds after the steps of `motions`, taken in order.
pub open spec fn advanced_through(p: Particle, motions: Seq<Motion>) -> Particle
    decreases motions.len(),
{
    if motions.len() == 0 {
        p
    } else {
        advanced_through(p, motions.drop_last()).advanced(motions.last())
    }
}

/// A step retires the particle whose lifetime it finds below zero, unless the
/// particle is retired already.
pub proof fn lemma_step_retires(p: Particle, motion: Motion)
    requires
        motion.lifetime.below_zero(),
    ensures
        p.advanced(motion).parked(),
{
}

/// A retired particle stays retired: no run of steps, whatever their motions,
/// changes its position off screen, its rest or its lifetime of zero.
pub proof fn lemma_parked_stays(p: Particle, motions: Seq<Motion>)
    requires
        p.parked(),
    ensures
        advanced_through(p, motions) == p,
    decreases motions.len(),
{
    if motions.len() > 0 {
        lemma_parked_stays(p, motions.drop_last());
    }
}

/// The slots and the number in use after one request to add a particle to
/// `slots`, of which `len` are in use. A full store drops the request. The new
/// particle takes the first free slot and leaves that slot's force as it was.
pub open spec fn spawn_into(
    slots: Seq<Particle>,
    len: nat,
    position: Vec2,
    velocity: Vec2,
    mass: Scalar,
    lifetime: Scalar,
) -> (Seq<Particle>, nat) {
    if len < slots.len() {
        (
            slots.update(
                len as int,
                Particle { position, velocity, force: slots[len as int].force, mass, lifetime },
            ),
            len + 1,
        )
    } else {
        (slots, len)
    }
}

/// The slots after a step that has taken the particle of slot `i` to
/// `motions[i]`, for each of the `len` slots in use. The other slots stay.
pub open spec fn advance_all(slots: Seq<Particle>, len: nat, motions: Seq<Motion>) -> Seq<Particle> {
    Seq::new(
        slots.len(),
        |i: int|
            if i < len {
                slots[i].advanced(motions[i])
            } else {
                slots[i]
            },
    )
}

/// The slots and the number in use after the requests of `requests`, made in
/// order on `slots` with `len` in use. Of each request only the position, the
/// velocity, the mass and the lifetime count.
pub open spec fn spawn_each(slots: Seq<Particle>, len: nat, requests: Seq<Particle>) -> (
    Seq<Particle>,
    nat,
)
    decreases requests.len(),
{
    if requests.len() == 0 {
        (slots, len)
    } else {
        let before = spawn_each(slots, len, requests.drop_last());
        let p = requests.last();
        spawn_into(before.0, before.1, p.position, p.velocity, p.mass, p.lifetime)
    }
}

/// A run of requests fills the free slots one by one and stops at the last:
/// the number in use grows by the number of requests, but not beyond the
/// number of slots, which stays.
pub proof fn lemma_spawn_each_count(slots: Seq<Particle>, len: nat, requests: Seq<Particle>)
    requires
        len <= slots.len(),
    ensures
        spawn_each(slots, len, requests).0.len() == slots.len(),
        spawn_each(slots, len, requests).1 == if len + requests.len() <= slots.len() {
            len + requests.len()
        } else {
            slots.len()
        },
    decreases requests.len(),
{
    if requests.len() > 0 {
        lemma_spawn_each_count(slots, len, requests.drop_last());
    }
}

/// Saturation: once as many requests were made on an empty store as it has
/// slots, every slot is in use, and one request more changes neither the
/// number in use nor any slot.
pub proof fn lemma_spawn_saturates(slots: Seq<Particle>, requests: Seq<Particle>, extra: Particle)
    requires
        requests.len() >= slots.len(),
    ensures
        spawn_each(slots, 0, requests).1 == slots.len(),
        spawn_each(slots, 0, requests.push(extra)) == spawn_each(slots, 0, requests),
{
    lemma_spawn_each_count(slots, 0, requests);
    assert(requests.push(extra).drop_last() =~= requests);
}

/// A fixed number of particle slots, of which the first `count` are in use.
/// A slot that is in use stays in use: a retired particle keeps its slot.
pub struct ParticleSystem {
    width: usize,
    height: usize,
    position: Vec<Vec2>,
    velocity: Vec<Vec2>,
    forces: Vec<Vec2>,
    mass: Vec<Scalar>,
    lifetime: Vec<Scalar>,
    count: usize,
    capacity: usize,
    radius: i16,
    simulation: SimParams,
    attractor: Option<Attractor>,
}

impl ParticleSystem {
    #[verifier::type_invariant]
    spec fn well_formed(self) -> bool {
        &&& self.position@.len() == self.capacity
        &&& self.velocity@.len() == self.capacity
        &&& self.forces@.len() == self.capacity
        &&& self.mass@.len() == self.capacity
        &&& self.lifetime@.len() == self.capacity
        &&& self.count <= self.capacity
        &&& forall|i: int| 0 <= i < self.count ==> (#[trigger] self.mass@[i]).above_zero()
    }

    /// All the slots, those in use first.
    pub closed spec fn slots(&self) -> Seq<Particle> {
        Seq::new(
            self.capacity as nat,
            |i: int|
                Particle {
                    position: self.position@[i],
                    velocity: self.velocity@[i],
                    force: self.forces@[i],
                    mass: self.mass@[i],
                    lifetime: self.lifetime@[i],
                },
        )
    }

    /// How many slots are in use.
    pub closed spec fn spec_count(&self) -> usize {
        self.count
    }

    /// How many slots there are.
    pub closed spec fn spec_capacity(&self) -> usize {
        self.capacity
    }

    /// Width of the box that holds the particles, in pixels.
    pub closed spec fn spec_width(&self) -> usize {
        self.width
    }

    /// Height of the box that holds the particles, in pixels.
    pub closed spec fn spec_height(&self) -> usize {
        self.height
    }

    /// Half the side of the square that a particle occupies at a wall.
    pub closed spec fn spec_radius(&self) -> i16 {
        self.radius
    }

    /// The force field's constants.
    pub closed spec fn spec_simulation(&self) -> SimParams {
        self.simulation
    }

    /// The attractor, if one is set.
    pub closed spec fn spec_attractor(&self) -> Option<Attractor> {
        self.attractor
    }

    /// Whether everything but the slots and the number in use is as in `other`.
    pub open spec fn same_setting(&self, other: &Self) -> bool {
        &&& self.capacity() == other.capacity()
        &&& self.width() == other.width()
        &&& self.height() == other.height()
        &&& self.radius() == other.radius()
        &&& self.simulation() == other.simulation()
        &&& self.attractor() == other.attractor()
    }

    /// A store of `max_particles` blank slots, none of them in use, for a box of
    /// `width` by `height` pixels, with the initial force field and no attractor.
    pub fn new(max_particles: usize, width: usize, height: usize) -> (r: Self)
        ensures
            r.count() == 0,
            r.capacity() == max_particles,
            r.slots() == Seq::new(max_particles as nat, |i: int| Particle::blank()),
            r.width() == width,
            r.height() == height,
            r.simulation() == SimParams::initial(),
            r.attractor() is None,
            r.radius() == PARTICLE_RADIUS,
    {
        let zero = Vec2 { x: Scalar { bits: ZERO_BITS }, y: Scalar { bits: ZERO_BITS } };
        let one = Scalar { bits: ONE_BITS };
        let r = Self {
            width,
            height,
            position: vec![zero; max_particles],
            velocity: vec![zero; max_particles],
            forces: vec![zero; max_particles],
            mass: vec![one; max_particles],
            lifetime: vec![one; max_particles],
            count: 0,
            capacity: max_particles,
            radius: PARTICLE_RADIUS,
            simulation: SimParams {
                gravity: Vec2 {
                    x: Scalar { bits: ZERO_BITS },
                    y: Scalar { bits: DEFAULT_GRAVITY_BITS },
                },
                wind: zero,
                acceleration: zero,
                global_drag: Vec2 {
                    x: Scalar { bits: DEFAULT_DRAG_BITS },
                    y: Scalar { bits: DEFAULT_DRAG_BITS },
                },
                restitution: Scalar { bits: DEFAULT_RESTITUTION_BITS },
                dt: one,
                lifetime_decay: Scalar { bits: ZERO_BITS },
                damped_bounce: false,
            },
            attractor: None,
        };
        assert(r.slots() =~= Seq::new(max_particles as nat, |i: int| Particle::blank()));
        r
    }

    /// Adds a particle in the first free slot; its mass must be above zero. A
    /// full store drops the request, whatever it asks for, and stays as it is.
    pub fn spawn(&mut self, pos: [Scalar; 2], vel: [Scalar; 2], mass: Scalar, lifetime: Scalar)
        requires
            old(self).count() < old(self).capacity() ==> mass.above_zero(),
        ensures
            (final(self).slots(), final(self).count() as nat) == spawn_into(
                old(self).slots(),
                old(self).count() as nat,
                Vec2 { x: pos[0], y: pos[1] },
                Vec2 { x: vel[0], y: vel[1] },
                mass,
                lifetime,
            ),
            old(self).count() == old(self).capacity() ==> final(self).slots() == old(self).slots()
                && final(self).count() == old(self).count(),
            old(self).slots().len() == old(self).capacity(),
            final(self).same_setting(old(self)),
    {
        proof {
            use_type_invariant(&*self);
        }
        if self.count < self.capacity {
            let at: usize = self.count;
            self.position[at] = Vec2 { x: pos[0], y: pos[1] };
            self.velocity[at] = Vec2 { x: vel[0], y: vel[1] };
            self.mass[at] = mass;
            self.lifetime[at] = lifetime;
            self.count = at + 1;
            assert(self.slots() =~= spawn_into(
                old(self).slots(),
                old(self).count() as nat,
                Vec2 { x: pos[0], y: pos[1] },
                Vec2 { x: vel[0], y: vel[1] },
                mass,
                lifetime,
            ).0);
        }
    }

    /// Ends a step: the particle of each slot in use goes where `motions` says,
    /// or retires if its lifetime has fallen below zero. A retired particle
    /// keeps its slot, so the number of slots in use stays, and no later step
    /// moves it, whatever its motion.
    pub fn update(&mut self, motions: &[Motion])
        requires
            motions@.len() == old(self).count(),
        ensures
            final(self).slots() == advance_all(
                old(self).slots(),
                old(self).count() as nat,
                motions@,
            ),
            final(self).count() == old(self).count(),
            final(self).same_setting(old(self)),
    {
        proof {
            use_type_invariant(&*self);
        }
        let n: usize = self.count;
        let mut i: usize = 0;
        while i < n
            invariant
                i <= n,
                n == self.count,
                n == motions@.len(),
                self.count == old(self).count,
                self.capacity == old(self).capacity,
                self.width == old(self).width,
                self.height == old(self).height,
                self.radius == old(self).radius,
                self.simulation == old(self).simulation,
                self.attractor == old(self).attractor,
                self.mass == old(self).mass,
                self.count <= self.capacity,
                self.position@.len() == self.capacity,
                self.velocity@.len() == self.capacity,
                self.forces@.len() == self.capacity,
                self.lifetime@.len() == self.capacity,
                self.mass@.len() == self.capacity,
                forall|j: int|
                    0 <= j < i ==> (#[trigger] self.slots()[j]) == old(self).slots()[j].advanced(
                        motions@[j],
                    ),
                forall|j: int|
                    i <= j < self.capacity ==> (#[trigger] self.slots()[j]) == old(self).slots()[j],
            decreases n - i,
        {
            proof {
                use_type_invariant(&*self);
            }
            let ghost before = self.slots();
            let motion: Motion = motions[i];
            let parked: bool = self.lifetime[i].is_zero() && self.position[i].x.bits == PARKED_BITS
                && self.position[i].y.bits == PARKED_BITS && self.velocity[i].x.is_zero()
                && self.velocity[i].y.is_zero();
            assert(before[i as int] == old(self).slots()[i as int]);
            assert(parked == before[i as int].parked());
            if parked {
            } else if motion.lifetime.is_below_zero() {
                self.forces[i] = motion.force;
                self.lifetime[i] = Scalar { bits: ZERO_BITS };
                self.velocity[i] = Vec2 {
                    x: Scalar { bits: ZERO_BITS },
                    y: Scalar { bits: ZERO_BITS },
                };
                self.position[i] = Vec2 {
                    x: Scalar { bits: PARKED_BITS },
                    y: Scalar { bits: PARKED_BITS },
                };
            } else {
                self.forces[i] = motion.force;
                self.velocity[i] = motion.velocity;
                self.position[i] = motion.position;
                self.lifetime[i] = motion.lifetime;
            }
            assert(self.slots() =~= before.update(
                i as int,
                old(self).slots()[i as int].advanced(motion),
            ));
            i += 1;
        }
        assert(self.slots() =~= advance_all(old(self).slots(), old(self).count() as nat, motions@));
    }

    /// How many slots are in use.
    #[verifier::when_used_as_spec(spec_count)]
    pub fn count(&self) -> (r: usize)
        ensures
            r == self.count(),
            r == self@.len(),
            r <= self.capacity(),
            self.capacity() == self.slots().len(),
    {
        proof {
            use_type_invariant(self);
        }
        self.count
    }

    /// How many slots there are.
    #[verifier::when_used_as_spec(spec_capacity)]
    pub fn capacity(&self) -> (r: usize)
        ensures
            r == self.capacity(),
    {
        self.capacity
    }

    /// The particle of slot `i`, which is in use. Its mass is above zero, as
    /// is that of every particle in the store.
    pub fn slot(&self, i: usize) -> (r: Particle)
        requires
            i < self.count(),
        ensures
            r == self@[i as int],
            r.mass.above_zero(),
    {
        proof {
            use_type_invariant(self);
        }
        Particle {
            position: self.position[i],
            velocity: self.velocity[i],
            force: self.forces[i],
            mass: self.mass[i],
            lifetime: self.lifetime[i],
        }
    }

    /// The particle of slot `i`, if that slot is in use. Its mass is above zero.
    pub fn particle(&self, i: usize) -> (r: Option<Particle>)
        ensures
            r == (if i < self.count() {
                Some(self@[i as int])
            } else {
                None
            }),
            r matches Some(p) ==> p.mass.above_zero(),
    {
        proof {
            use_type_invariant(self);
        }
        if i < self.count {
            Some(
                Particle {
                    position: self.position[i],
                    velocity: self.velocity[i],
                    force: self.forces[i],
                    mass: self.mass[i],
                    lifetime: self.lifetime[i],
                },
            )
        } else {
            None
        }
    }

    /// Width of the box that holds the particles, in pixels.
    #[verifier::when_used_as_spec(spec_width)]
    pub fn width(&self) -> (r: usize)
        ensures
            r == self.width(),
    {
        self.width
    }

    /// Height of the box that holds the particles, in pixels.
    #[verifier::when_used_as_spec(spec_height)]
    pub fn height(&self) -> (r: usize)
        ensures
            r == self.height(),
    {
        self.height
    }

    /// Half the side of the square that a particle occupies at a wall.
    #[verifier::when_used_as_spec(spec_radius)]
    pub fn radius(&self) -> (r: i16)
        ensures
            r == self.radius(),
    {
        self.radius
    }

    /// The force field's constants.
    #[verifier::when_used_as_spec(spec_simulation)]
    pub fn simulation(&self) -> (r: SimParams)
        ensures
            r == self.simulation(),
    {
        self.simulation
    }

    /// Replaces the force field's constants. They hold from the next step on.
    pub fn set_simulation(&mut self, simulation: SimParams)
        ensures
            final(self).simulation() == simulation,
            final(self).slots() == old(self).slots(),
            final(self).count() == old(self).count(),
            final(self).capacity() == old(self).capacity(),
            final(self).width() == old(self).width(),
            final(self).height() == old(self).height(),
            final(self).radius() == old(self).radius(),
            final(self).attractor() == old(self).attractor(),
    {
        proof {
            use_type_invariant(&*self);
        }
        self.simulation = simulation;
    }

    /// The attractor, if one is set.
    #[verifier::when_used_as_spec(spec_attractor)]
    pub fn attractor(&self) -> (r: Option<Attractor>)
        ensures
            r == self.attractor(),
    {
        self.attractor
    }

    /// Sets, replaces or, with `None`, removes the attractor.
    pub fn set_attractor(&mut self, attractor: Option<Attractor>)
        ensures
            final(self).attractor() == attractor,
            final(self).slots() == old(self).slots(),
            final(self).count() == old(self).count(),
            final(self).capacity() == old(self).capacity(),
            final(self).width() == old(self).width(),
            final(self).height() == old(self).height(),
            final(self).radius() == old(self).radius(),
            final(self).simulation() == old(self).simulation(),
    {
        proof {
            use_type_invariant(&*self);
        }
        self.attractor = attractor;
    }

    /// Takes in what the surroundings tell: a pointer that moves sets or
    /// replaces the attractor, a pointer that leaves removes it, and a tilt is
    /// the sensor's acceleration from the next step on. The particles stay.
    pub fn handle_input(&mut self, input: Input)
        ensures
            final(self).attractor() == (match input {
                Input::PointerMoved { at } => Some(Attractor::at_pointer(at)),
                Input::PointerLeft => None,
                Input::Tilted { offset } => old(self).attractor(),
            }),
            final(self).simulation() == (match input {
                Input::Tilted { offset } => (SimParams {
                    acceleration: offset,
                    ..old(self).simulation()
                }),
                _ => old(self).simulation(),
            }),
            final(self).slots() == old(self).slots(),
            final(self).count() == old(self).count(),
            final(self).capacity() == old(self).capacity(),
            final(self).width() == old(self).width(),
            final(self).height() == old(self).height(),
            final(self).radius() == old(self).radius(),
    {
        proof {
            use_type_invariant(&*self);
        }
        match input {
            Input::PointerMoved { at } => {
                self.attractor = Some(
                    Attractor {
                        position: at,
                        strength: Scalar { bits: POINTER_STRENGTH_BITS },
                        radius: POINTER_RADIUS,
                    },
                );
            },
            Input::PointerLeft => {
                self.attractor = None;
            },
            Input::Tilted { offset } => {
                self.simulation.acceleration = offset;
            },
        }
    }
}

impl View for ParticleSystem {
    type V = Seq<Particle>;

    /// The particles of the slots in use, in the order in which they came.
    open spec fn view(&self) -> Seq<Particle> {
        self.slots().take(self.count() as int)
    }
}

} // verus!
