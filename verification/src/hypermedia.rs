//! Plain hypermedia vocabulary: the action types a route can advertise
//! and the default resource type tag. The HTTP-facing response shapes
//! around them live with the surrounding application.

use vstd::prelude::*;

verus! {

/// The action vocabulary advertised for a route's operations.
#[derive(Debug, Clone, Copy, PartialEq, Eq, Structural, Default)]
pub enum ActionType {
    #[default]
    View,
    Create,
    Update,
    Find,
    Add,
    Login,
    Logout,
}

/// The vocabulary label of an action type.
pub open spec fn action_label(a: ActionType) -> Seq<char> {
    match a {
        ActionType::View => "ViewAction"@,
        ActionType::Create => "CreateAction"@,
        ActionType::Update => "UpdateAction"@,
        ActionType::Find => "FindAction"@,
        ActionType::Add => "AddAction"@,
        ActionType::Login => "LoginAction"@,
        ActionType::Logout => "LogoutAction"@,
    }
}

impl ActionType {
    /// The vocabulary label, e.g. `ViewAction`.
    pub fn label(&self) -> (r: String)
        ensures
            r@ == action_label(*self),
    {
        match self {
            ActionType::View => "ViewAction".to_owned(),
            ActionType::Create => "CreateAction".to_owned(),
            ActionType::Update => "UpdateAction".to_owned(),
            ActionType::Find => "FindAction".to_owned(),
            ActionType::Add => "AddAction".to_owned(),
            ActionType::Login => "LoginAction".to_owned(),
            ActionType::Logout => "LogoutAction".to_owned(),
        }
    }
}

/// The type tag attached to every serialized resource.
#[derive(Debug, Clone)]
pub struct ResourceType {
    pub name: &'static str,
}

impl Default for ResourceType {
    /// The default resource type tag.
    fn default() -> (r: Self)
        ensures
            r.name@ == "Resource"@,
    {
        ResourceType { name: "Resource" }
    }
}

} // verus!
