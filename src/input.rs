use vstd::prelude::*;

use crate::particle::acc_sum;
use crate::simulation::{
    attracted, attraction, counter_gravity, spawned, Simulation, ADD_PARTICLE_NUM,
};
use crate::vector::Vec3;

verus! {

/// The keys the simulator reacts to; every other key is `Other`.
#[derive(Clone, Copy, Debug, PartialEq, Eq, Structural)]
pub enum Key {
    W,
    A,
    S,
    D,
    E,
    Q,
    P,
    G,
    T,
    ArrowLeft,
    ArrowRight,
    ArrowUp,
    ArrowDown,
    Other,
}

/// Which camera motions are held down.
#[derive(Clone, Copy, Debug, PartialEq, Eq, Structural)]
pub struct CameraState {
    pub moving_forward: bool,
    pub moving_backward: bool,
    pub moving_left: bool,
    pub moving_right: bool,
    pub moving_up: bool,
    pub moving_down: bool,
    pub rotating_left: bool,
    pub rotating_right: bool,
    pub rotating_up: bool,
    pub rotating_down: bool,
}

/// The net camera motion of one frame: each field is -1, 0 or 1 steps.
#[derive(Clone, Copy, Debug, PartialEq, Eq, Structural)]
pub struct CameraMotion {
    pub forward: i8,
    pub right: i8,
    pub up: i8,
    pub yaw: i8,
    pub pitch: i8,
}

pub open spec fn net(plus: bool, minus: bool) -> i8 {
    if plus && !minus {
        1i8
    } else if minus && !plus {
        -1i8
    } else {
        0i8
    }
}

fn net_step(plus: bool, minus: bool) -> (r: i8)
    ensures
        r == net(plus, minus),
{
    if plus && !minus {
        1
    } else if minus && !plus {
        -1
    } else {
        0
    }
}

impl CameraState {
    /// Nothing held.
    pub fn new() -> (r: CameraState)
        ensures
            r == (CameraState {
                moving_forward: false,
                moving_backward: false,
                moving_left: false,
                moving_right: false,
                moving_up: false,
                moving_down: false,
                rotating_left: false,
                rotating_right: false,
                rotating_up: false,
                rotating_down: false,
            }),
    {
        CameraState {
            moving_forward: false,
            moving_backward: false,
            moving_left: false,
            moving_right: false,
            moving_up: false,
            moving_down: false,
            rotating_left: false,
            rotating_right: false,
            rotating_up: false,
            rotating_down: false,
        }
    }

    /// Records a press (`pressed`) or release of a camera key: W/S move
    /// forward/back, D/A right/left, E/Q up/down, the arrows rotate.
    pub fn handle_key(&mut self, key: Key, pressed: bool)
        ensures
            *final(self) == (match key {
                Key::W => CameraState { moving_forward: pressed, ..*old(self) },
                Key::S => CameraState { moving_backward: pressed, ..*old(self) },
                Key::D => CameraState { moving_right: pressed, ..*old(self) },
                Key::A => CameraState { moving_left: pressed, ..*old(self) },
                Key::E => CameraState { moving_up: pressed, ..*old(self) },
                Key::Q => CameraState { moving_down: pressed, ..*old(self) },
                Key::ArrowLeft => CameraState { rotating_left: pressed, ..*old(self) },
                Key::ArrowRight => CameraState { rotating_right: pressed, ..*old(self) },
                Key::ArrowUp => CameraState { rotating_up: pressed, ..*old(self) },
                Key::ArrowDown => CameraState { rotating_down: pressed, ..*old(self) },
                _ => *old(self),
            }),
    {
        match key {
            Key::W => self.moving_forward = pressed,
            Key::S => self.moving_backward = pressed,
            Key::D => self.moving_right = pressed,
            Key::A => self.moving_left = pressed,
            Key::E => self.moving_up = pressed,
            Key::Q => self.moving_down = pressed,
            Key::ArrowLeft => self.rotating_left = pressed,
            Key::ArrowRight => self.rotating_right = pressed,
            Key::ArrowUp => self.rotating_up = pressed,
            Key::ArrowDown => self.rotating_down = pressed,
            _ => {},
        }
    }

    /// The motion the held keys ask for; opposite keys cancel.
    pub fn motion(&self) -> (r: CameraMotion)
        ensures
            r == (CameraMotion {
                forward: net(self.moving_forward, self.moving_backward),
                right: net(self.moving_right, self.moving_left),
                up: net(self.moving_up, self.moving_down),
                yaw: net(self.rotating_left, self.rotating_right),
                pitch: net(self.rotating_up, self.rotating_down),
            }),
    {
        CameraMotion {
            forward: net_step(self.moving_forward, self.moving_backward),
            right: net_step(self.moving_right, self.moving_left),
            up: net_step(self.moving_up, self.moving_down),
            yaw: net_step(self.rotating_left, self.rotating_right),
            pitch: net_step(self.rotating_up, self.rotating_down),
        }
    }
}

/// The simulation toggles driven by the keyboard.
#[derive(Clone, Copy, Debug, PartialEq, Eq, Structural)]
pub struct KeyState {
    pub add_particles: bool,
    pub pause_simulation: bool,
    pub attract_particles: bool,
}

/// Range of the cube in which random spheres appear (9 world units).
pub const SPAWN_RANGE: i64 = 9_000_000;

/// Strength of the pull toward the origin (10 world units per second squared).
pub const ATTRACTION_STRENGTH: i64 = 10_000_000;

impl KeyState {
    pub fn new() -> (r: KeyState)
        ensures
            r == (KeyState { add_particles: false, pause_simulation: false, attract_particles: false }),
    {
        KeyState { add_particles: false, pause_simulation: false, attract_particles: false }
    }

    /// A press of P toggles the pause; G spawns while held, T attracts while held.
    pub fn handle_key(&mut self, key: Key, pressed: bool)
        ensures
            *final(self) == (match key {
                Key::P => KeyState {
                    pause_simulation: if pressed {
                        !old(self).pause_simulation
                    } else {
                        old(self).pause_simulation
                    },
                    ..*old(self)
                },
                Key::G => KeyState { add_particles: pressed, ..*old(self) },
                Key::T => KeyState { attract_particles: pressed, ..*old(self) },
                _ => *old(self),
            }),
    {
        match key {
            Key::P => {
                if pressed {
                    self.pause_simulation = !self.pause_simulation;
                }
            },
            Key::G => self.add_particles = pressed,
            Key::T => self.attract_particles = pressed,
            _ => {},
        }
    }
}

/// Acts on the held simulation keys: spawns random spheres while G is held
/// and pulls everything toward the origin while T is held.
pub fn process_key_events(key_state: &KeyState, sim: &mut Simulation)
    requires
        old(sim).wf(),
        old(sim).spheres@.len() + ADD_PARTICLE_NUM < usize::MAX,
    ensures
        final(sim).wf(),
        final(sim).spheres@.len() == old(sim).spheres@.len() + if key_state.add_particles {
            ADD_PARTICLE_NUM as int
        } else {
            0
        },
        forall|i: int|
            0 <= i < old(sim).spheres@.len() ==> #[trigger] final(sim).spheres@[i] == if key_state.attract_particles {
                attracted(old(sim).spheres@[i], ATTRACTION_STRENGTH as int)
            } else {
                old(sim).spheres@[i]
            },
        key_state.add_particles ==> forall|i: int|
            old(sim).spheres@.len() <= i < final(sim).spheres@.len() ==> {
                let s = #[trigger] final(sim).spheres@[i];
                &&& spawned(s, i, SPAWN_RANGE as int)
                &&& s.particle.acceleration == if key_state.attract_particles {
                    acc_sum(
                        acc_sum(Vec3 { x: 0, y: 0, z: 0 }, counter_gravity()),
                        attraction(s.particle.position, ATTRACTION_STRENGTH as int),
                    )
                } else {
                    Vec3 { x: 0, y: 0, z: 0 }
                }
            },
        final(sim).containers == old(sim).containers,
        final(sim).molecules == old(sim).molecules,
{
    let ghost start = sim.spheres@;
    if key_state.add_particles {
        sim.generate_random_particles(SPAWN_RANGE);
        proof {
            assert forall|i: int| 0 <= i < start.len() implies #[trigger] sim.spheres@[i] == start[i] by {
                assert(sim.spheres@.subrange(0, start.len() as int)[i] == sim.spheres@[i]);
            }
        }
    }
    let ghost spawned_state = sim.spheres@;
    if key_state.attract_particles {
        sim.attract_particles_to_origin(ATTRACTION_STRENGTH);
        proof {
            assert forall|i: int| 0 <= i < start.len() implies #[trigger] sim.spheres@[i] == attracted(
                start[i],
                ATTRACTION_STRENGTH as int,
            ) by {
                assert(sim.spheres@[i] == attracted(spawned_state[i], ATTRACTION_STRENGTH as int));
            }
            assert forall|i: int| start.len() <= i < sim.spheres@.len() implies #[trigger] sim.spheres@[i]
                == attracted(spawned_state[i], ATTRACTION_STRENGTH as int) by {}
        }
    }
}

/// Where an asset file lies: one directory up in a debug build (run from the
/// build directory), beside the program otherwise.
pub fn get_path(file_name: &str, debug_build: bool) -> (r: String)
    ensures
        r@ == if debug_build {
            "../"@ + file_name@
        } else {
            file_name@
        },
{
    if debug_build {
        String::from_str("../").concat(file_name)
    } else {
        String::from_str(file_name)
    }
}

} // verus!
