//! The messages that the components exchange.

use vstd::prelude::*;

use crate::components::{ktree, lei, patchsets};

verus! {

/// How an attempt to apply a patch ended.
#[derive(Debug, Clone, PartialEq, Eq)]
pub enum KtreeStatus {
    Success(String),
    Failed(String),
    Aborted,
}

/// An event or a request passed between the components.
#[derive(Debug, Clone, PartialEq, Eq)]
pub enum Action {
    Tick,
    Render,
    Resize(u16, u16),
    Suspend,
    Resume,
    Quit,
    ClearScreen,
    Error(String),
    Help,
    LeiSetMode(lei::LocalMode),
    LeiFetchPatchsets,
    PatchsetsList(String),
    PatchsetsAddIndex,
    PatchsetsSubIndex,
    PatchsetsThread,
    PatchsetsSetMode(patchsets::LocalMode),
    KtreeApply(String),
    KtreeSetMode(ktree::LocalMode),
    KtreeAbort,
    KtreeResult(KtreeStatus),
}

} // verus!
