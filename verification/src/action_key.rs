//! Keys of actions.
use vstd::prelude::*;
use vstd::string::*;

use crate::text;

verus! {

/// Whose actions these are: a target, a BXL function or an anonymous target, by name.
#[derive(Debug)]
pub enum BaseDeferredKey {
    TargetLabel(String),
    AnonTarget(String),
    BxlLabel(String),
}

/// The name of an owner.
pub open spec fn owner_text(k: BaseDeferredKey) -> Seq<char> {
    match k {
        BaseDeferredKey::TargetLabel(s) => s@,
        BaseDeferredKey::AnonTarget(s) => s@,
        BaseDeferredKey::BxlLabel(s) => s@,
    }
}

/// Two owners are the same: of one sort, with one name.
pub open spec fn same_owner(a: BaseDeferredKey, b: BaseDeferredKey) -> bool {
    match (a, b) {
        (BaseDeferredKey::TargetLabel(x), BaseDeferredKey::TargetLabel(y)) => x@ == y@,
        (BaseDeferredKey::AnonTarget(x), BaseDeferredKey::AnonTarget(y)) => x@ == y@,
        (BaseDeferredKey::BxlLabel(x), BaseDeferredKey::BxlLabel(y)) => x@ == y@,
        _ => false,
    }
}

impl BaseDeferredKey {
    pub fn same_as(&self, other: &Self) -> (r: bool)
        ensures
            r == same_owner(*self, *other),
    {
        match (self, other) {
            (BaseDeferredKey::TargetLabel(x), BaseDeferredKey::TargetLabel(y)) => text::str_eq(
                x.as_str(),
                y.as_str(),
            ),
            (BaseDeferredKey::AnonTarget(x), BaseDeferredKey::AnonTarget(y)) => text::str_eq(
                x.as_str(),
                y.as_str(),
            ),
            (BaseDeferredKey::BxlLabel(x), BaseDeferredKey::BxlLabel(y)) => text::str_eq(
                x.as_str(),
                y.as_str(),
            ),
            _ => false,
        }
    }

    /// Another handle on the same owner.
    pub fn dupe(&self) -> (r: Self)
        ensures
            r == *self,
    {
        match self {
            BaseDeferredKey::TargetLabel(s) => BaseDeferredKey::TargetLabel(s.clone()),
            BaseDeferredKey::AnonTarget(s) => BaseDeferredKey::AnonTarget(s.clone()),
            BaseDeferredKey::BxlLabel(s) => BaseDeferredKey::BxlLabel(s.clone()),
        }
    }

    /// The name of the owner.
    pub fn display(&self) -> (r: &str)
        ensures
            r@ == owner_text(*self),
    {
        match self {
            BaseDeferredKey::TargetLabel(s) => s.as_str(),
            BaseDeferredKey::AnonTarget(s) => s.as_str(),
            BaseDeferredKey::BxlLabel(s) => s.as_str(),
        }
    }
}

/// What holds actions: the analysis of an owner, or a dynamic action of it.
#[derive(Debug)]
pub enum DeferredHolderKey {
    Base(BaseDeferredKey),
    /// A dynamic action of the owner, by its own key.
    DynamicLambda(BaseDeferredKey, String),
}

/// The owner of what is held.
pub open spec fn holder_owner(k: DeferredHolderKey) -> BaseDeferredKey {
    match k {
        DeferredHolderKey::Base(owner) => owner,
        DeferredHolderKey::DynamicLambda(owner, _) => owner,
    }
}

/// How a holder is shown.
pub open spec fn holder_text(k: DeferredHolderKey) -> Seq<char> {
    match k {
        DeferredHolderKey::Base(owner) => owner_text(owner),
        DeferredHolderKey::DynamicLambda(owner, lambda) => owner_text(owner) + "_"@ + lambda@,
    }
}

/// The text that tells the action with number `id` from others of the same owner.
pub open spec fn holder_action_key(k: DeferredHolderKey, id: u32) -> Seq<char> {
    match k {
        DeferredHolderKey::Base(_) => text::decimal_chars(id as nat),
        DeferredHolderKey::DynamicLambda(_, lambda) => lambda@ + "_"@ + text::decimal_chars(
            id as nat,
        ),
    }
}

impl DeferredHolderKey {
    pub fn owner(&self) -> (r: &BaseDeferredKey)
        ensures
            *r == holder_owner(*self),
    {
        match self {
            DeferredHolderKey::Base(owner) => owner,
            DeferredHolderKey::DynamicLambda(owner, _) => owner,
        }
    }

    pub fn action_key(&self, id: u32) -> (r: String)
        ensures
            r@ == holder_action_key(*self, id),
    {
        let n = text::decimal(id as u64);
        match self {
            DeferredHolderKey::Base(_) => n,
            DeferredHolderKey::DynamicLambda(_, lambda) => text::concat3(
                lambda.as_str(),
                "_",
                n.as_str(),
            ),
        }
    }

    pub fn display(&self) -> (r: String)
        ensures
            r@ == holder_text(*self),
    {
        match self {
            DeferredHolderKey::Base(owner) => owner.display().to_owned(),
            DeferredHolderKey::DynamicLambda(owner, lambda) => text::concat3(
                owner.display(),
                "_",
                lambda.as_str(),
            ),
        }
    }
}

/// An unique identifier for different actions with the same parent.
#[derive(Clone, Copy, Debug, PartialEq, Eq, Structural)]
pub struct ActionIndex(pub u32);

impl ActionIndex {
    pub fn new(v: u32) -> (r: ActionIndex)
        ensures
            r.0 == v,
    {
        ActionIndex(v)
    }
}

/// An action as it stands in messages to others.
#[derive(Debug)]
pub struct ActionKeyProto {
    pub id: usize,
    pub owner: BaseDeferredKey,
    pub key: String,
}

/// A key to look up an action.
#[derive(Debug)]
pub struct ActionKey {
    pub parent: DeferredHolderKey,
    pub id: ActionIndex,
}

impl ActionKey {
    pub fn unchecked_new(parent: DeferredHolderKey, id: ActionIndex) -> (r: ActionKey)
        ensures
            r == (ActionKey { parent, id }),
    {
        ActionKey { parent, id }
    }

    pub fn new(parent: DeferredHolderKey, id: ActionIndex) -> (r: ActionKey)
        ensures
            r == (ActionKey { parent, id }),
    {
        ActionKey { parent, id }
    }

    pub fn holder_key(&self) -> (r: &DeferredHolderKey)
        ensures
            *r == self.parent,
    {
        &self.parent
    }

    pub fn action_index(&self) -> (r: ActionIndex)
        ensures
            r == self.id,
    {
        self.id
    }

    pub fn owner(&self) -> (r: &BaseDeferredKey)
        ensures
            *r == holder_owner(self.parent),
    {
        self.parent.owner()
    }

    pub fn action_key(&self) -> (r: String)
        ensures
            r@ == holder_action_key(self.parent, self.id.0),
    {
        self.parent.action_key(self.action_index().0)
    }

    /// The key as it stands in messages to others.
    pub fn as_proto(&self) -> (r: ActionKeyProto)
        ensures
            r.id == self.id.0,
            r.owner == holder_owner(self.parent),
            r.key@ == holder_action_key(self.parent, self.id.0),
    {
        ActionKeyProto {
            id: self.id.0 as usize,
            owner: self.parent.owner().dupe(),
            key: self.action_key(),
        }
    }

    /// The key as shown in messages.
    pub fn display(&self) -> (r: String)
        ensures
            r@ == "(target: `"@ + holder_text(self.parent) + "`, id: `"@ + text::decimal_chars(
                self.id.0 as nat,
            ) + "`)"@,
    {
        let parent = self.parent.display();
        let id = text::decimal(self.id.0 as u64);
        text::concat5("(target: `", parent.as_str(), "`, id: `", id.as_str(), "`)")
    }
}

/// Owners are told apart by what they are and by what they are called.
pub proof fn law_owners_are_told_apart(x: String, y: String)
    ensures
        same_owner(BaseDeferredKey::TargetLabel(x), BaseDeferredKey::TargetLabel(y)) <==> x@ == y@,
        same_owner(BaseDeferredKey::AnonTarget(x), BaseDeferredKey::AnonTarget(y)) <==> x@ == y@,
        same_owner(BaseDeferredKey::BxlLabel(x), BaseDeferredKey::BxlLabel(y)) <==> x@ == y@,
        !same_owner(BaseDeferredKey::TargetLabel(x), BaseDeferredKey::AnonTarget(y)),
        !same_owner(BaseDeferredKey::TargetLabel(x), BaseDeferredKey::BxlLabel(y)),
        !same_owner(BaseDeferredKey::AnonTarget(x), BaseDeferredKey::TargetLabel(y)),
        !same_owner(BaseDeferredKey::AnonTarget(x), BaseDeferredKey::BxlLabel(y)),
        !same_owner(BaseDeferredKey::BxlLabel(x), BaseDeferredKey::TargetLabel(y)),
        !same_owner(BaseDeferredKey::BxlLabel(x), BaseDeferredKey::AnonTarget(y)),
{
}

/// An owner is shown as what it is called.
pub proof fn law_owners_are_shown_by_name(x: String)
    ensures
        owner_text(BaseDeferredKey::TargetLabel(x)) == x@,
        owner_text(BaseDeferredKey::AnonTarget(x)) == x@,
        owner_text(BaseDeferredKey::BxlLabel(x)) == x@,
{
}

/// The actions of a dynamic lambda belong to its owner and are shown with the lambda; those of one
/// lambda are told apart by their numbers.
pub proof fn law_actions_of_a_lambda(owner: BaseDeferredKey, lambda: String, id: u32)
    ensures
        holder_owner(DeferredHolderKey::Base(owner)) == owner,
        holder_owner(DeferredHolderKey::DynamicLambda(owner, lambda)) == owner,
        holder_text(DeferredHolderKey::Base(owner)) == owner_text(owner),
        holder_text(DeferredHolderKey::DynamicLambda(owner, lambda)) == owner_text(owner) + seq![
            '_',
        ] + lambda@,
        holder_action_key(DeferredHolderKey::Base(owner), id) == text::decimal_chars(id as nat),
        holder_action_key(DeferredHolderKey::DynamicLambda(owner, lambda), id) == lambda@ + seq![
            '_',
        ] + text::decimal_chars(id as nat),
{
    reveal_strlit("_");
    assert("_"@ =~= seq!['_']);
}

} // verus!
