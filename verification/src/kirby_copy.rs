//! Copy abilities for more than eight costumes of Kirby.
//!
//! The game has room for the copy abilities of eight costumes per fighter. Further ones are kept in
//! slots of a table of our own: it holds, for each slot in use, where the game supposes the data to be.

use vstd::prelude::*;

verus! {

/// The number of slots.
pub const SLOT_COUNT: usize = 0x18;

/// The number of costumes that the game has room for.
pub const GAME_COSTUMES: u64 = 8;

/// The size in bytes of the data of one costume.
pub const COSTUME_INFO_SIZE: u64 = 0x2e8;

/// Where the data of one costume holds the index of the package with body motions.
pub const BODYMOTION_OFFSET: u64 = 0x2d8;

/// Where the data of one costume holds the index of the package with sounds.
pub const SOUND_OFFSET: u64 = 0x2e0;

/// The value of a package index that is not set.
pub const NO_PACKAGE: u32 = 0xFF_FFFF;

/// A slot of the table. It is free if no module owns it.
#[derive(Copy, Clone, Debug, PartialEq, Eq, Structural)]
pub struct CustomCopyInfo {
    pub copy_module_ptr: u64,
    /// Where the game supposes the data of the costume to be.
    pub assumed_ptr: u64,
    pub fighter: u32,
    pub slot: u32,
}

impl CustomCopyInfo {
    /// Is this the slot of a fighter's costume?
    pub open spec fn is_of(self, copy_module_ptr: u64, fighter: u32, slot: u32) -> bool {
        self.copy_module_ptr == copy_module_ptr && self.fighter == fighter && self.slot == slot
    }
}

/// Where the game supposes the data of a costume to be, if it keeps those of the fighter at `entry`.
pub open spec fn assumed_address(entry: int, costume: int) -> int {
    entry + 8 + 0x2e8 * costume
}

/// Address of the fighter's entry for which the data of the costume lies at `address`.
pub open spec fn entry_address(address: int, costume: int) -> int {
    address - (0x2e8 * costume + 8)
}

/// The entry of a fighter is found from where the data of a costume is supposed to be. The data of the first
/// costume lies behind the first 8 bytes of the entry, and that of each costume behind that of the one before.
pub proof fn law_entry_address(entry: int, costume: int)
    ensures
        assumed_address(entry, 0) == entry + 8,
        assumed_address(entry, costume + 1) == assumed_address(entry, costume) + COSTUME_INFO_SIZE,
        COSTUME_INFO_SIZE == 0x2e8,
        entry_address(assumed_address(entry, costume), costume) == entry,
{
}

/// Address of the entry that the game is to be given, so that it finds the costume's data at `address`.
/// `None` if there is no such address.
pub fn entry_for(address: u64, slot: u32) -> (r: Option<u64>)
    ensures
        r is Some <==> entry_address(address as int, slot as int) >= 0,
        r matches Some(entry) ==> entry == entry_address(address as int, slot as int),
{
    let distance: u64 = COSTUME_INFO_SIZE * slot as u64 + 8;
    if distance <= address {
        Some(address - distance)
    } else {
        None
    }
}

/// Moves an address within the data that the game supposes at `assumed` to the data at `address`.
/// `None` if it does not lie there, or if it would lie behind the end of memory.
pub fn moved_address(at: u64, assumed: u64, address: u64) -> (r: Option<u64>)
    ensures
        r is Some <==> assumed <= at < assumed + 0x2e8 && address + (at - assumed) <= u64::MAX,
        r matches Some(to) ==> to - address == at - assumed,
{
    if at < assumed || at - assumed >= COSTUME_INFO_SIZE {
        return None;
    }
    address.checked_add(at - assumed)
}

/// What became of a costume that the game prepares copy abilities for.
#[derive(Copy, Clone, Debug, PartialEq, Eq, Structural)]
pub enum Claim {
    /// The game has room for it.
    NotNeeded,
    /// It has a slot already.
    Known,
    /// It was given this slot, whose data is to be reset.
    Claimed(usize),
    /// All slots are in use.
    Full,
}

/// The table of slots.
pub struct CopySlots {
    slots: Vec<CustomCopyInfo>,
}

impl View for CopySlots {
    type V = Seq<CustomCopyInfo>;

    closed spec fn view(&self) -> Seq<CustomCopyInfo> {
        self.slots@
    }
}

/// Does slot `i` come before all others of the fighter's costume?
pub open spec fn is_first(
    slots: Seq<CustomCopyInfo>,
    i: int,
    copy_module_ptr: u64,
    fighter: u32,
    slot: u32,
) -> bool {
    &&& 0 <= i < slots.len()
    &&& slots[i].is_of(copy_module_ptr, fighter, slot)
    &&& forall|j: int| 0 <= j < i ==> !(#[trigger] slots[j]).is_of(copy_module_ptr, fighter, slot)
}

impl CopySlots {
    pub open spec fn wf(&self) -> bool {
        self@.len() == 0x18
    }

    /// The table with all slots free.
    pub fn new() -> (r: CopySlots)
        ensures
            r.wf(),
            forall|i: int|
                0 <= i < 0x18 ==> #[trigger] r@[i] == (CustomCopyInfo {
                    copy_module_ptr: 0,
                    assumed_ptr: 0,
                    fighter: 0,
                    slot: 0,
                }),
    {
        let empty = CustomCopyInfo { copy_module_ptr: 0, assumed_ptr: 0, fighter: 0, slot: 0 };
        let mut slots: Vec<CustomCopyInfo> = Vec::new();
        for i in 0..SLOT_COUNT
            invariant
                slots@.len() == i,
                empty == (CustomCopyInfo { copy_module_ptr: 0, assumed_ptr: 0, fighter: 0, slot: 0 }),
                forall|j: int| 0 <= j < i ==> #[trigger] slots@[j] == empty,
        {
            slots.push(empty);
        }
        CopySlots { slots }
    }

    /// The slot with this index.
    pub fn get(&self, i: usize) -> (r: CustomCopyInfo)
        requires
            self.wf(),
            i < SLOT_COUNT,
        ensures
            r == self@[i as int],
    {
        self.slots[i]
    }

    /// The first slot of a fighter's costume.
    pub fn find(&self, copy_module_ptr: u64, fighter: u32, slot: u32) -> (r: Option<usize>)
        ensures
            match r {
                Some(i) => is_first(self@, i as int, copy_module_ptr, fighter, slot),
                None => forall|j: int|
                    0 <= j < self@.len() ==> !(#[trigger] self@[j]).is_of(copy_module_ptr, fighter, slot),
            },
    {
        for i in 0..self.slots.len()
            invariant
                forall|j: int|
                    0 <= j < i ==> !(#[trigger] self@[j]).is_of(copy_module_ptr, fighter, slot),
        {
            let info = &self.slots[i];
            proof {
                assert(*info == self@[i as int]);
            }
            if info.copy_module_ptr == copy_module_ptr && info.fighter == fighter && info.slot == slot {
                return Some(i);
            }
        }
        None
    }

    /// Gives a costume that the game has no room for the first free slot. `entry` is the address of
    /// the fighter's entry.
    pub fn claim(&mut self, copy_module_ptr: u64, entry: u64, fighter: u32, costume: u64) -> (r: Claim)
        requires
            old(self).wf(),
            costume >= 8 ==> assumed_address(entry as int, costume as int) <= u64::MAX,
        ensures
            final(self).wf(),
            ({
                let info = CustomCopyInfo {
                    copy_module_ptr,
                    assumed_ptr: assumed_address(entry as int, costume as int) as u64,
                    fighter,
                    slot: (costume % 0x1_0000_0000) as u32,
                };
                match r {
                    Claim::NotNeeded => costume < 8 && final(self)@ == old(self)@,
                    Claim::Known => costume >= 8 && old(self)@.contains(info) && final(self)@
                        == old(self)@,
                    Claim::Claimed(i) => {
                        &&& costume >= 8
                        &&& !old(self)@.contains(info)
                        &&& i < 0x18
                        &&& old(self)@[i as int].copy_module_ptr == 0
                        &&& forall|j: int| 0 <= j < i ==> (#[trigger] old(self)@[j]).copy_module_ptr != 0
                        &&& final(self)@ == old(self)@.update(i as int, info)
                    },
                    Claim::Full => {
                        &&& costume >= 8
                        &&& !old(self)@.contains(info)
                        &&& forall|j: int|
                            0 <= j < 0x18 ==> (#[trigger] old(self)@[j]).copy_module_ptr != 0
                        &&& final(self)@ == old(self)@
                    },
                }
            }),
    {
        if costume < GAME_COSTUMES {
            return Claim::NotNeeded;
        }
        let assumed_ptr: u64 = entry + 8 + COSTUME_INFO_SIZE * costume;
        let slot: u32 = (costume % 0x1_0000_0000) as u32;
        let info = CustomCopyInfo { copy_module_ptr, assumed_ptr, fighter, slot };
        let mut free: usize = SLOT_COUNT;
        for i in 0..SLOT_COUNT
            invariant
                costume >= 8,
                assumed_ptr == assumed_address(entry as int, costume as int),
                slot == costume % 0x1_0000_0000,
                info == (CustomCopyInfo { copy_module_ptr, assumed_ptr, fighter, slot }),
                self@ == old(self)@,
                self.wf(),
                free <= SLOT_COUNT,
                forall|j: int| 0 <= j < i ==> #[trigger] self@[j] != info,
                free == SLOT_COUNT ==> forall|j: int|
                    0 <= j < i ==> (#[trigger] self@[j]).copy_module_ptr != 0,
                free < SLOT_COUNT ==> free < i && self@[free as int].copy_module_ptr == 0 && forall|
                    j: int,
                |
                    0 <= j < free ==> (#[trigger] self@[j]).copy_module_ptr != 0,
        {
            let other = self.slots[i];
            proof {
                assert(other == self@[i as int]);
            }
            if other == info {
                return Claim::Known;
            }
            if free == SLOT_COUNT && other.copy_module_ptr == 0 {
                free = i;
            }
        }
        if free == SLOT_COUNT {
            return Claim::Full;
        }
        self.slots.set(free, info);
        Claim::Claimed(free)
    }

    /// The slot whose data the game takes for a fighter's entry at `target`, and the address of the
    /// entry. `addresses` says where the data of each slot is. `None` if there is none.
    pub fn owner_of(&self, target: u64, addresses: &Vec<u64>) -> (r: Option<(usize, Option<u64>)>)
        requires
            self.wf(),
            addresses@.len() == 0x18,
        ensures
            match r {
                Some((i, entry)) => {
                    &&& i < 0x18
                    &&& addresses@[i as int] == target + 8
                    &&& forall|j: int| 0 <= j < i ==> #[trigger] addresses@[j] != target + 8
                    &&& entry is Some <==> entry_address(
                        self@[i as int].assumed_ptr as int,
                        self@[i as int].slot as int,
                    ) >= 0
                    &&& entry matches Some(e) ==> e == entry_address(
                        self@[i as int].assumed_ptr as int,
                        self@[i as int].slot as int,
                    )
                },
                None => forall|j: int| 0 <= j < 0x18 ==> #[trigger] addresses@[j] != target + 8,
            },
    {
        for i in 0..SLOT_COUNT
            invariant
                self.wf(),
                addresses@.len() == 0x18,
                forall|j: int| 0 <= j < i ==> #[trigger] addresses@[j] != target + 8,
        {
            if addresses[i] >= 8 && addresses[i] - 8 == target {
                let info = &self.slots[i];
                proof {
                    assert(*info == self@[i as int]);
                }
                return Some((i, entry_for(info.assumed_ptr, info.slot)));
            }
        }
        None
    }

    /// Frees a slot if its data has no more than one user. Returns whether it did, so that the data is
    /// to be reset.
    pub fn release(&mut self, i: usize, users: u32) -> (r: bool)
        requires
            old(self).wf(),
            i < SLOT_COUNT,
        ensures
            final(self).wf(),
            r == (users == 1),
            final(self)@ == if r {
                old(self)@.update(
                    i as int,
                    CustomCopyInfo {
                        copy_module_ptr: 0,
                        fighter: 0,
                        slot: 0,
                        ..old(self)@[i as int]
                    },
                )
            } else {
                old(self)@
            },
    {
        if users != 1 {
            return false;
        }
        let mut info = self.slots[i];
        info.copy_module_ptr = 0;
        info.fighter = 0;
        info.slot = 0;
        self.slots.set(i, info);
        true
    }
}

/// No costume has two slots.
pub open spec fn no_duplicates(slots: Seq<CustomCopyInfo>) -> bool {
    forall|i: int, j: int|
        0 <= i < slots.len() && 0 <= j < slots.len() && slots[i].copy_module_ptr != 0 && i != j
            ==> #[trigger] slots[i] != #[trigger] slots[j]
}

/// Claiming a slot for a costume that has none keeps the slots of costumes apart, and the costume is
/// found afterwards. Freeing a slot keeps them apart too.
pub proof fn law_slots(slots: Seq<CustomCopyInfo>, i: int, info: CustomCopyInfo)
    requires
        0 <= i < slots.len(),
        no_duplicates(slots),
    ensures
        !slots.contains(info) && info.copy_module_ptr != 0 ==> no_duplicates(slots.update(i, info))
            && slots.update(i, info)[i].is_of(info.copy_module_ptr, info.fighter, info.slot),
        info.copy_module_ptr == 0 ==> no_duplicates(slots.update(i, info)),
{
}

} // verus!
