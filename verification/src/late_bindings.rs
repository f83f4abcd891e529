//! Functions that are bound to their names late, so that the parts of the program need not know
//! each other.
use vstd::prelude::*;

verus! {

/// What is bound for actions.
#[derive(Clone, Copy, Debug, PartialEq, Eq, Structural)]
pub enum LateBinding {
    AuditDepFiles,
    FlushDepFiles,
    AnalysisActionMethodsActions,
    DynamicRegistryNew,
    ActionImplGlobals,
}

/// Everything that is bound for actions, in order.
pub open spec fn all_bindings() -> Seq<LateBinding> {
    seq![
        LateBinding::AuditDepFiles,
        LateBinding::FlushDepFiles,
        LateBinding::AnalysisActionMethodsActions,
        LateBinding::DynamicRegistryNew,
        LateBinding::ActionImplGlobals,
    ]
}

/// Whether everything was bound already.
#[derive(Clone, Copy, Debug, PartialEq, Eq, Structural)]
pub struct LateBindings {
    pub bound: bool,
}

/// What is to be bound now: everything the first time, and nothing ever after.
pub fn init_late_bindings(once: &mut LateBindings) -> (r: Vec<LateBinding>)
    ensures
        final(once).bound,
        r@ == (if old(once).bound {
            Seq::empty()
        } else {
            all_bindings()
        }),
{
    let mut v: Vec<LateBinding> = Vec::new();
    if !once.bound {
        once.bound = true;
        v.push(LateBinding::AuditDepFiles);
        v.push(LateBinding::FlushDepFiles);
        v.push(LateBinding::AnalysisActionMethodsActions);
        v.push(LateBinding::DynamicRegistryNew);
        v.push(LateBinding::ActionImplGlobals);
    }
    v
}

/// Every binding is made, and none twice.
pub proof fn law_every_binding_is_made_once(b: LateBinding, i: int, j: int)
    ensures
        all_bindings().contains(b),
        0 <= i < j < all_bindings().len() ==> all_bindings()[i] != all_bindings()[j],
{
    let all = all_bindings();
    match b {
        LateBinding::AuditDepFiles => assert(all[0] == b),
        LateBinding::FlushDepFiles => assert(all[1] == b),
        LateBinding::AnalysisActionMethodsActions => assert(all[2] == b),
        LateBinding::DynamicRegistryNew => assert(all[3] == b),
        LateBinding::ActionImplGlobals => assert(all[4] == b),
    }
}

} // verus!
