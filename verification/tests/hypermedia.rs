//! Tests of the hypermedia vocabulary and the cache-control core.

use mattak::cachecontrol::CacheControlLayer;
use mattak::hypermedia::{ActionType, ResourceType};

#[test]
fn action_labels() {
    assert_eq!(ActionType::View.label(), "ViewAction".to_string());
    assert_eq!(ActionType::Create.label(), "CreateAction".to_string());
    assert_eq!(ActionType::Login.label(), "LoginAction".to_string());
    assert_eq!(ActionType::default().label(), "ViewAction".to_string());
}

#[test]
fn resource_type_defaults() {
    assert_eq!(ResourceType::default().name, "Resource");
}

#[test]
fn cache_control_layer_carries_max_age() {
    let layer = CacheControlLayer::new(3600);
    assert_eq!(layer.after, 3600);
    let wrapped = layer.layer("service");
    assert_eq!(wrapped.after, 3600);
    assert_eq!(wrapped.inner, "service");
}
