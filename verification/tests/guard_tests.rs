use gdip_snapshot::guard::{Resource, ScopeStack};

#[test]
fn new_stack_holds_nothing() {
    let mut stack = ScopeStack::new();
    assert_eq!(stack.depth(), 0);
    assert_eq!(stack.top(), None);
    assert_eq!(stack.release(), None);
    assert!(!stack.holds(Resource::Session));
}

#[test]
fn releases_come_in_reverse_order() {
    let mut stack = ScopeStack::new();
    stack.acquire(Resource::ScreenSurface);
    stack.acquire(Resource::MemorySurface);
    stack.acquire(Resource::PixelBuffer);
    stack.acquire(Resource::Binding);
    assert_eq!(stack.depth(), 4);
    assert_eq!(stack.top(), Some(Resource::Binding));
    assert_eq!(stack.release(), Some(Resource::Binding));
    assert_eq!(stack.release(), Some(Resource::PixelBuffer));
    assert_eq!(stack.top(), Some(Resource::MemorySurface));
    assert_eq!(stack.release(), Some(Resource::MemorySurface));
    assert_eq!(stack.release(), Some(Resource::ScreenSurface));
    assert_eq!(stack.release(), None);
    assert_eq!(stack.depth(), 0);
}

#[test]
fn disarmed_resource_is_never_released() {
    let mut stack = ScopeStack::new();
    stack.acquire(Resource::ScreenSurface);
    stack.acquire(Resource::MemorySurface);
    stack.acquire(Resource::PixelBuffer);
    stack.acquire(Resource::Binding);
    assert!(stack.holds(Resource::PixelBuffer));
    assert!(stack.disarm(Resource::PixelBuffer));
    assert!(!stack.holds(Resource::PixelBuffer));
    assert_eq!(stack.depth(), 3);
    assert_eq!(stack.release(), Some(Resource::Binding));
    assert_eq!(stack.release(), Some(Resource::MemorySurface));
    assert_eq!(stack.release(), Some(Resource::ScreenSurface));
    assert_eq!(stack.release(), None);
}

#[test]
fn disarm_of_something_not_held_changes_nothing() {
    let mut stack = ScopeStack::new();
    assert!(!stack.disarm(Resource::Image));
    stack.acquire(Resource::Session);
    assert!(!stack.disarm(Resource::Image));
    assert_eq!(stack.depth(), 1);
    assert_eq!(stack.top(), Some(Resource::Session));
}

#[test]
fn disarm_takes_the_latest_entry() {
    let mut stack = ScopeStack::new();
    stack.acquire(Resource::Image);
    stack.acquire(Resource::Session);
    stack.acquire(Resource::Image);
    stack.acquire(Resource::EncoderList);
    assert!(stack.disarm(Resource::Image));
    assert_eq!(stack.release(), Some(Resource::EncoderList));
    assert_eq!(stack.release(), Some(Resource::Session));
    assert_eq!(stack.release(), Some(Resource::Image));
    assert_eq!(stack.release(), None);
}

#[test]
fn disarm_of_the_top_and_of_the_bottom() {
    let mut stack = ScopeStack::new();
    stack.acquire(Resource::Session);
    stack.acquire(Resource::PixelBuffer);
    assert!(stack.disarm(Resource::PixelBuffer));
    assert_eq!(stack.top(), Some(Resource::Session));
    stack.acquire(Resource::Image);
    assert!(stack.disarm(Resource::Session));
    assert_eq!(stack.depth(), 1);
    assert_eq!(stack.release(), Some(Resource::Image));
}
