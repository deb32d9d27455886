use lightyear_shared::tick::{increment_tick, TickManaged, TickManager};

#[test]
fn tick_moves_on_by_one_and_wraps() {
    let mut manager = TickManager::new();
    assert_eq!(manager.current_tick(), 0);
    increment_tick(&mut manager);
    assert_eq!(manager.current_tick(), 1);
    manager.increment_tick();
    assert_eq!(manager.current_tick(), 2);
    for _ in 2..65536u32 {
        increment_tick(&mut manager);
    }
    assert_eq!(manager.current_tick(), 0);
}
