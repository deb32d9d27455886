use lightyear_shared::interpolation::{ComponentSyncMode, PhysicsComponent};

#[test]
fn what_varies_is_synced_fully_and_mass_once() {
    assert_eq!(PhysicsComponent::Position.mode(), ComponentSyncMode::Full);
    assert_eq!(PhysicsComponent::Rotation.mode(), ComponentSyncMode::Full);
    assert_eq!(PhysicsComponent::LinearVelocity.mode(), ComponentSyncMode::Full);
    assert_eq!(PhysicsComponent::AngularVelocity.mode(), ComponentSyncMode::Full);
    assert_eq!(PhysicsComponent::Mass.mode(), ComponentSyncMode::Once);
}
