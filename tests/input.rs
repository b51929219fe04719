use particle_simulator::input::{get_path, process_key_events, CameraMotion, CameraState, Key, KeyState};
use particle_simulator::simulation::{Simulation, ADD_PARTICLE_NUM};
use particle_simulator::vector::Vec3;

#[test]
fn camera_state_starts_idle() {
    let c = CameraState::new();
    assert_eq!(c.motion(), CameraMotion { forward: 0, right: 0, up: 0, yaw: 0, pitch: 0 });
    assert!(!c.moving_forward && !c.rotating_down);
}

#[test]
fn camera_keys_set_and_cancel() {
    let mut c = CameraState::new();
    c.handle_key(Key::W, true);
    c.handle_key(Key::A, true);
    c.handle_key(Key::ArrowUp, true);
    c.handle_key(Key::G, true);
    assert_eq!(c.motion(), CameraMotion { forward: 1, right: -1, up: 0, yaw: 0, pitch: 1 });
    c.handle_key(Key::S, true);
    c.handle_key(Key::ArrowUp, false);
    c.handle_key(Key::E, true);
    assert_eq!(c.motion(), CameraMotion { forward: 0, right: -1, up: 1, yaw: 0, pitch: 0 });
}

#[test]
fn pause_toggles_on_press_only() {
    let mut k = KeyState::new();
    assert!(!k.pause_simulation && !k.add_particles && !k.attract_particles);
    k.handle_key(Key::P, true);
    assert!(k.pause_simulation);
    k.handle_key(Key::P, false);
    assert!(k.pause_simulation);
    k.handle_key(Key::P, true);
    assert!(!k.pause_simulation);
    k.handle_key(Key::G, true);
    k.handle_key(Key::T, true);
    assert!(k.add_particles && k.attract_particles);
    k.handle_key(Key::T, false);
    assert!(!k.attract_particles);
}

#[test]
fn held_keys_drive_the_simulation() {
    let mut sim = Simulation::new();
    let mut k = KeyState::new();
    process_key_events(&k, &mut sim);
    assert_eq!(sim.get_num_particles(), 0);
    k.handle_key(Key::G, true);
    process_key_events(&k, &mut sim);
    assert_eq!(sim.get_num_particles(), ADD_PARTICLE_NUM);
    k.handle_key(Key::G, false);
    k.handle_key(Key::T, true);
    let before: Vec<Vec3> = sim.spheres.iter().map(|s| s.particle.acceleration).collect();
    process_key_events(&k, &mut sim);
    assert_eq!(sim.get_num_particles(), ADD_PARTICLE_NUM);
    assert!(sim.spheres.iter().zip(before.iter()).all(|(s, b)| s.particle.acceleration.y >= b.y));
    assert!(sim
        .spheres
        .iter()
        .all(|s| s.particle.position.x <= 0 || s.particle.acceleration.x <= 0));
}

#[test]
fn spawn_and_attract_together() {
    let mut sim = Simulation::new();
    sim.create_sphere(Vec3::new(3_000_000, 4_000_000, 0), 150_000, Vec3::new(0, 0, 0), Vec3::new(0, 0, 0), false);
    let mut k = KeyState::new();
    k.handle_key(Key::G, true);
    k.handle_key(Key::T, true);
    process_key_events(&k, &mut sim);
    assert_eq!(sim.get_num_particles(), 1 + ADD_PARTICLE_NUM);
    assert_eq!(sim.spheres[0].particle.acceleration, Vec3::new(-48_000_000, 16_000_000, 0));
    for s in &sim.spheres[1..] {
        let p = s.particle.position;
        assert!([p.x, p.y, p.z].iter().all(|c| -4_500_000 <= *c && *c < 4_500_000));
        assert!(s.particle.acceleration.y >= 0);
        assert!(p.x <= 0 || s.particle.acceleration.x <= 0);
        assert!(p.x >= 0 || s.particle.acceleration.x >= 0);
    }
}

#[test]
fn asset_paths() {
    assert_eq!(get_path("models/cube.obj", true), "../models/cube.obj");
    assert_eq!(get_path("models/cube.obj", false), "models/cube.obj");
}
