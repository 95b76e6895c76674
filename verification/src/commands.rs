use vstd::prelude::*;

use crate::vault::{Unlocked, Vault};
use crate::wipe::wipe_string;

verus! {

/// What the host shows about one vault on disk: its file name and its
/// position in the listing.
pub struct VaultSurfaceData {
    pub name: String,
    pub id: u32,
}

/// Outcome surfaced for a host command: whether it succeeded, and a
/// message for the user when it did not.
pub struct VaultResult {
    pub success: bool,
    pub message: Option<String>,
}

impl VaultResult {
    /// A successful outcome.
    pub fn ok() -> (r: VaultResult)
        ensures
            r.success,
            r.message is None,
    {
        VaultResult { success: true, message: None }
    }

    /// A failed outcome carrying a message.
    pub fn failure(message: String) -> (r: VaultResult)
        ensures
            !r.success,
            r.message is Some,
            r.message->0@ == message@,
    {
        VaultResult { success: false, message: Some(message) }
    }
}

/// The one open vault, together with the name of its file.
pub struct OpenVault {
    pub vault: Vault<Unlocked>,
    pub name: String,
}

/// The host-facing collection: the vaults found on disk and at most one
/// open vault.
pub struct VaultCollection {
    pub vaults: Vec<VaultSurfaceData>,
    pub open_vault: Option<OpenVault>,
}

impl Default for VaultCollection {
    fn default() -> (r: VaultCollection)
        ensures
            r.vaults@.len() == 0,
            r.open_vault is None,
    {
        VaultCollection { vaults: Vec::new(), open_vault: None }
    }
}

impl VaultCollection {
    /// Closes the open vault, if one is open: every secret byte it holds,
    /// and its name, are overwritten before the slot is emptied.
    pub fn clean(&mut self)
        ensures
            final(self).open_vault is None,
            final(self).vaults == old(self).vaults,
    {
        let mut slot: Option<OpenVault> = None;
        core::mem::swap(&mut self.open_vault, &mut slot);
        if let Some(mut open) = slot {
            wipe_string(&mut open.name);
            let _ = open.vault.lock();
        }
    }

    /// Records the vault names found on disk, in order, with ascending
    /// ids.
    pub fn set_vaults(&mut self, names: Vec<String>)
        requires
            names@.len() <= u32::MAX,
        ensures
            final(self).vaults@.len() == names@.len(),
            forall|i: int|
                0 <= i < names@.len() ==> final(self).vaults@[i].name@ == names@[i]@ && final(self).vaults@[i].id == i,
            final(self).open_vault == old(self).open_vault,
    {
        let mut vaults: Vec<VaultSurfaceData> = Vec::new();
        let mut i: usize = 0;
        while i < names.len()
            invariant
                i <= names@.len(),
                names@.len() <= u32::MAX,
                vaults@.len() == i,
                forall|j: int|
                    0 <= j < i ==> vaults@[j].name@ == names@[j]@ && vaults@[j].id == j,
            decreases names@.len() - i,
        {
            vaults.push(VaultSurfaceData { name: names[i].clone(), id: i as u32 });
            i = i + 1;
        }
        self.vaults = vaults;
    }

    /// The name recorded under `id`, if the listing holds it.
    pub fn find_vault_name(&self, id: u32) -> (r: Option<String>)
        ensures
            r is Some <==> (exists|i: int|
                0 <= i < self.vaults@.len() && #[trigger] self.vaults@[i].id == id),
            r is Some ==> (exists|i: int|
                0 <= i < self.vaults@.len() && #[trigger] self.vaults@[i].id == id && r->0@
                    == self.vaults@[i].name@),
    {
        let mut i: usize = 0;
        while i < self.vaults.len()
            invariant
                i <= self.vaults@.len(),
                forall|j: int| 0 <= j < i ==> #[trigger] self.vaults@[j].id != id,
            decreases self.vaults@.len() - i,
        {
            if self.vaults[i].id == id {
                return Some(self.vaults[i].name.clone());
            }
            i = i + 1;
        }
        None
    }
}

} // verus!
