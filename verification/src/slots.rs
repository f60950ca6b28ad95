//! Which save slot a command works on.
use vstd::prelude::*;

verus! {

/// The slot of the standalone SuperOptions record.
pub const OPTIONS_SLOT: u8 = 3;

/// The slot a command targets: slot 3 when creating a SuperOptions save,
/// which no other slot may be asked for (nothing then); otherwise the slot
/// asked for, or slot 0.
pub fn target_slot(creating_options: bool, slot: Option<u8>) -> (res: Option<u8>)
    ensures
        res == if creating_options {
            match slot {
                Some(s) => if s == OPTIONS_SLOT { Some(OPTIONS_SLOT) } else { None },
                None => Some(OPTIONS_SLOT),
            }
        } else {
            match slot {
                Some(s) => Some(s),
                None => Some(0u8),
            }
        },
{
    if creating_options {
        match slot {
            Some(s) => if s == OPTIONS_SLOT { Some(OPTIONS_SLOT) } else { None },
            None => Some(OPTIONS_SLOT),
        }
    } else {
        match slot {
            Some(s) => Some(s),
            None => Some(0),
        }
    }
}

} // verus!
