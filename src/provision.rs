//! Create-or-load provisioning of a named wallet: load it, create it where
//! loading finds no such wallet, and accept a wallet that already exists.
use vstd::prelude::*;

verus! {

/// Error code of a node for a wallet that it cannot find.
pub const WALLET_NOT_FOUND_CODE: i32 = -18;

/// Error code of a node for a wallet that is loaded already.
pub const WALLET_ALREADY_LOADED_CODE: i32 = -35;

/// How a node answered a request to load a wallet.
#[derive(Debug, Clone, Copy, PartialEq, Eq, Structural)]
pub enum LoadReply {
    Loaded,
    AlreadyLoaded,
    NotFound,
    Failed,
}

/// How a node answered a request to create a wallet.
#[derive(Debug, Clone, Copy, PartialEq, Eq, Structural)]
pub enum CreateReply {
    Created,
    AlreadyExists,
    Failed,
}

#[derive(Debug, Clone, Copy, PartialEq, Eq, Structural)]
pub enum ProvisionError {
    /// Loading failed for a reason other than a missing wallet.
    LoadFailed,
    /// Creating failed for a reason other than an existing wallet.
    CreateFailed,
}

/// Where provisioning stands after a reply.
#[derive(Debug, Clone, Copy, PartialEq, Eq, Structural)]
pub enum ProvisionPhase {
    /// The wallet must be created next.
    Creating,
    /// The wallet is loaded.
    Ready,
    Failed(ProvisionError),
}

pub open spec fn phase_after_load(reply: LoadReply) -> ProvisionPhase {
    match reply {
        LoadReply::Loaded => ProvisionPhase::Ready,
        LoadReply::AlreadyLoaded => ProvisionPhase::Ready,
        LoadReply::NotFound => ProvisionPhase::Creating,
        LoadReply::Failed => ProvisionPhase::Failed(ProvisionError::LoadFailed),
    }
}

pub open spec fn phase_after_create(reply: CreateReply) -> ProvisionPhase {
    match reply {
        CreateReply::Created => ProvisionPhase::Ready,
        CreateReply::AlreadyExists => ProvisionPhase::Ready,
        CreateReply::Failed => ProvisionPhase::Failed(ProvisionError::CreateFailed),
    }
}

/// The phase that follows the node's answer to loading the wallet.
pub fn after_load(reply: LoadReply) -> (r: ProvisionPhase)
    ensures
        r == phase_after_load(reply),
{
    match reply {
        LoadReply::Loaded | LoadReply::AlreadyLoaded => ProvisionPhase::Ready,
        LoadReply::NotFound => ProvisionPhase::Creating,
        LoadReply::Failed => ProvisionPhase::Failed(ProvisionError::LoadFailed),
    }
}

/// The phase that follows the node's answer to creating the wallet.
pub fn after_create(reply: CreateReply) -> (r: ProvisionPhase)
    ensures
        r == phase_after_create(reply),
{
    match reply {
        CreateReply::Created | CreateReply::AlreadyExists => ProvisionPhase::Ready,
        CreateReply::Failed => ProvisionPhase::Failed(ProvisionError::CreateFailed),
    }
}

/// Reads the error code with which a node refused to load a wallet.
pub fn load_reply_from_code(code: i32) -> (r: LoadReply)
    ensures
        r == (if code == WALLET_NOT_FOUND_CODE {
            LoadReply::NotFound
        } else if code == WALLET_ALREADY_LOADED_CODE {
            LoadReply::AlreadyLoaded
        } else {
            LoadReply::Failed
        }),
{
    if code == WALLET_NOT_FOUND_CODE {
        LoadReply::NotFound
    } else if code == WALLET_ALREADY_LOADED_CODE {
        LoadReply::AlreadyLoaded
    } else {
        LoadReply::Failed
    }
}

pub open spec fn contains_text(hay: Seq<char>, needle: Seq<char>) -> bool {
    exists|i: int| 0 <= i <= hay.len() - needle.len() && #[trigger] hay.subrange(i, i + needle.len()) == needle
}

/// Whether `needle` occurs in `hay`.
pub fn contains(hay: &str, needle: &str) -> (r: bool)
    ensures
        r == contains_text(hay@, needle@),
{
    let n = hay.unicode_len();
    let m = needle.unicode_len();
    if m > n {
        return false;
    }
    let target = needle.to_owned();
    let mut i: usize = 0;
    loop
        invariant
            n == hay@.len(),
            m == needle@.len(),
            m <= n,
            target@ == needle@,
            i <= n - m,
            forall|j: int| 0 <= j < i ==> #[trigger] hay@.subrange(j, j + m) != needle@,
        decreases n - m - i,
    {
        let piece = hay.substring_char(i, i + m).to_owned();
        if piece == target {
            return true;
        }
        if i == n - m {
            return false;
        }
        i = i + 1;
    }
}

/// Reads the message with which a node refused to create a wallet: a wallet
/// that "already exists" counts as provisioned.
pub fn create_reply_from_message(message: &str) -> (r: CreateReply)
    ensures
        r == (if contains_text(message@, "already exists"@) {
            CreateReply::AlreadyExists
        } else {
            CreateReply::Failed
        }),
{
    if contains(message, "already exists") {
        CreateReply::AlreadyExists
    } else {
        CreateReply::Failed
    }
}

/// A node's record of one wallet name: whether the wallet exists, and
/// whether it is loaded (a loaded wallet exists).
pub struct WalletState {
    pub exists: bool,
    pub loaded: bool,
}

pub open spec fn wallet_state_ok(w: WalletState) -> bool {
    w.loaded ==> w.exists
}

/// How a node that raises no transport error answers a load request.
pub open spec fn node_load_reply(w: WalletState) -> LoadReply {
    if w.loaded {
        LoadReply::AlreadyLoaded
    } else if w.exists {
        LoadReply::Loaded
    } else {
        LoadReply::NotFound
    }
}

pub open spec fn node_after_load(w: WalletState) -> WalletState {
    WalletState { exists: w.exists, loaded: w.exists }
}

/// How a node that raises no transport error answers a create request.
pub open spec fn node_create_reply(w: WalletState) -> CreateReply {
    if w.exists {
        CreateReply::AlreadyExists
    } else {
        CreateReply::Created
    }
}

pub open spec fn node_after_create(w: WalletState) -> WalletState {
    WalletState { exists: true, loaded: true }
}

/// One provisioning run against such a node: load, then create where the
/// phase asks for it. Gives the node's new state and the final phase.
pub open spec fn provision_run(w: WalletState) -> (WalletState, ProvisionPhase) {
    let w1 = node_after_load(w);
    let p1 = phase_after_load(node_load_reply(w));
    if p1 == ProvisionPhase::Creating {
        let w2 = node_after_create(w1);
        (w2, phase_after_create(node_create_reply(w1)))
    } else {
        (w1, p1)
    }
}

/// Provisioning is idempotent: against a node that raises no transport
/// error, a run ends with the wallet loaded whatever state it started in, and
/// a second run ends the same way and changes nothing.
pub proof fn provision_is_idempotent(w: WalletState)
    requires
        wallet_state_ok(w),
    ensures
        provision_run(w).1 == ProvisionPhase::Ready,
        provision_run(w).0.loaded,
        provision_run(provision_run(w).0).1 == ProvisionPhase::Ready,
        provision_run(provision_run(w).0).0 == provision_run(w).0,
{
}

} // verus!
