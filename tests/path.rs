use raytracer::path::{PathEvent, PathState, MAX_DEPTH};

#[test]
fn escaping_camera_ray_shows_the_background() {
    let s = PathState::start();
    assert_eq!(s, PathState::Casting { depth: 0 });
    let s = s.advance(PathEvent::Miss);
    assert_eq!(s, PathState::Background);
    assert!(s.is_done());
}

#[test]
fn absorbed_ray_is_black() {
    let s = PathState::start().advance(PathEvent::Hit);
    assert_eq!(s, PathState::Scattering { depth: 0 });
    assert!(!s.is_done());
    let s = s.advance(PathEvent::Absorbed);
    assert_eq!(s, PathState::Black);
}

#[test]
fn scattered_ray_goes_one_bounce_deeper() {
    let s = PathState::start()
        .advance(PathEvent::Hit)
        .advance(PathEvent::Scattered);
    assert_eq!(s, PathState::Casting { depth: 1 });
    assert_eq!(s.advance(PathEvent::Miss), PathState::Background);
}

#[test]
fn mirror_corridor_is_cut_off_black() {
    let mut s = PathState::start();
    let mut bounces: u32 = 0;
    while !s.is_done() {
        s = s.advance(PathEvent::Hit);
        if !s.is_done() {
            s = s.advance(PathEvent::Scattered);
            bounces += 1;
        }
        assert!(bounces <= MAX_DEPTH);
    }
    assert_eq!(s, PathState::Black);
    assert_eq!(bounces, 50);
}

#[test]
fn hit_at_the_cap_is_black() {
    let s = PathState::Casting { depth: MAX_DEPTH };
    assert_eq!(s.advance(PathEvent::Hit), PathState::Black);
    let s = PathState::Casting { depth: MAX_DEPTH - 1 };
    assert_eq!(
        s.advance(PathEvent::Hit),
        PathState::Scattering { depth: MAX_DEPTH - 1 }
    );
}

#[test]
fn ended_paths_ignore_further_events() {
    for e in [
        PathEvent::Miss,
        PathEvent::Hit,
        PathEvent::Scattered,
        PathEvent::Absorbed,
    ] {
        assert_eq!(PathState::Black.advance(e), PathState::Black);
        assert_eq!(PathState::Background.advance(e), PathState::Background);
    }
}

#[test]
fn unrelated_event_keeps_the_state() {
    let s = PathState::Casting { depth: 3 };
    assert_eq!(s.advance(PathEvent::Scattered), s);
    let s = PathState::Scattering { depth: 3 };
    assert_eq!(s.advance(PathEvent::Miss), s);
}
