use vitrum::geometry::Size;
use vitrum::output_id::{OutputId, OutputIdCounter};
use vitrum::session_lock::{
    get_lock_surfaces, is_session_locked, lock_surface_target, should_render_lock_surfaces_only, request_lock, request_unlock, resolve_lock_surface_target, LockSurfaceInfo, SessionLockManager,
};
use vitrum::state::State;

#[test]
fn test_session_lock_basic() {
    assert_eq!(std::mem::size_of::<LockSurfaceInfo>() > 0, true);
}

#[test]
fn test_resolve_lock_surface_target_prefers_primary() {
    let mut ids = OutputIdCounter::new();
    let primary = Some((OutputId(10), Size::new(2560, 1440)));
    let current = Some((OutputId(20), Size::new(1920, 1080)));

    let (id, size) = resolve_lock_surface_target(primary, current, &mut ids);

    assert_eq!(id, OutputId(10));
    assert_eq!(size, Size::new(2560, 1440));
}

#[test]
fn test_resolve_lock_surface_target_uses_current_when_no_primary() {
    let mut ids = OutputIdCounter::new();
    let primary = None;
    let current = Some((OutputId(20), Size::new(1920, 1080)));

    let (id, size) = resolve_lock_surface_target(primary, current, &mut ids);

    assert_eq!(id, OutputId(20));
    assert_eq!(size, Size::new(1920, 1080));
}

#[test]
fn test_resolve_lock_surface_target_falls_back_to_default() {
    let mut ids = OutputIdCounter::new();
    let (id, size) = resolve_lock_surface_target(None, None, &mut ids);

    assert!(id.0 > 0);
    assert_eq!(size, Size::new(1920, 1080));
}

#[test]
fn requested_output_wins_and_takes_no_fresh_id() {
    let mut ids = OutputIdCounter::new();
    let r = lock_surface_target(Some((OutputId(3), Size::new(800, 600))), None, None, &mut ids);
    assert_eq!(r, (OutputId(3), Size::new(800, 600)));
    assert_eq!(OutputId::next(&mut ids), OutputId(1));
}

#[test]
fn lock_then_second_lock_is_refused() {
    let mut locks = SessionLockManager::new();
    assert!(locks.lock());
    assert!(locks.is_locked());
    assert!(!locks.lock());
}

#[test]
fn only_lock_surfaces_render_while_locked_with_one() {
    let mut locks = SessionLockManager::new();
    assert!(!locks.should_render_only_lock_surfaces());
    locks.lock();
    assert!(!locks.should_render_only_lock_surfaces());
    let configure = locks.add_lock_surface(77, OutputId(1), Size::new(1920, 1080));
    assert_eq!(configure.size, (1920, 1080));
    assert!(!configure.confirm_lock);
    assert!(locks.should_render_only_lock_surfaces());
    assert!(locks.is_lock_surface(77));
    locks.remove_lock_surface(77);
    assert!(!locks.is_lock_surface(77));
    assert!(!locks.should_render_only_lock_surfaces());
}

#[test]
fn unlock_forgets_lock_surfaces() {
    let mut locks = SessionLockManager::new();
    locks.lock();
    locks.add_lock_surface(5, OutputId(1), Size::new(100, 100));
    locks.unlock();
    assert!(!locks.is_locked());
    assert!(locks.lock_surfaces().is_empty());
}

#[test]
fn lock_requests_redraw_the_state() {
    let mut state = State::new(OutputId(1));
    state.take_redraw_request();
    let mut locks = SessionLockManager::new();
    assert!(request_lock(&mut locks, &mut state));
    assert!(state.take_redraw_request());
    assert!(!request_lock(&mut locks, &mut state));
    assert!(!state.take_redraw_request());
    request_unlock(&mut locks, &mut state);
    assert!(!locks.is_locked());
    assert!(state.take_redraw_request());
}

#[test]
fn lock_surface_added_then_removed_gives_back_records() {
    let mut m = SessionLockManager::new();
    m.lock();
    m.add_lock_surface(10, OutputId(1), Size { w: 800, h: 600 });
    let before: Vec<LockSurfaceInfo> = m.lock_surfaces().to_vec();
    assert!(!m.is_lock_surface(11));
    m.add_lock_surface(11, OutputId(2), Size { w: 1024, h: 768 });
    assert!(m.is_lock_surface(11));
    m.remove_lock_surface(11);
    assert!(!m.is_lock_surface(11));
    assert_eq!(m.lock_surfaces().to_vec(), before);
}

#[test]
fn lock_surfaces_listed_in_order() {
    let mut m = SessionLockManager::new();
    assert!(get_lock_surfaces(&m).is_empty());
    m.lock();
    m.add_lock_surface(5, OutputId(1), Size { w: 10, h: 10 });
    m.add_lock_surface(3, OutputId(2), Size { w: 10, h: 10 });
    assert_eq!(get_lock_surfaces(&m), vec![5, 3]);
}

#[test]
fn lock_queries_follow_the_manager() {
    let mut m = SessionLockManager::new();
    assert!(!is_session_locked(&m));
    m.lock();
    assert!(is_session_locked(&m));
    assert!(!should_render_lock_surfaces_only(&m));
    m.add_lock_surface(5, OutputId(1), Size { w: 10, h: 10 });
    assert!(should_render_lock_surfaces_only(&m));
    m.unlock();
    assert!(!is_session_locked(&m));
    assert!(!should_render_lock_surfaces_only(&m));
}
