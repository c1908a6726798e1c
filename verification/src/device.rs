//! What the Lua `buttplug.Device` userdata carries, and the integer argument
//! handling of its methods.
//!
//! The userdata holds only the device index and a cached display name; every
//! command looks the live device up again by index.

use vstd::prelude::*;
use vstd::string::*;

use crate::text::{decimal, push_decimal};

verus! {

/// A device as Lua sees it: its stable index and its display name.
pub struct DeviceHandle {
    pub index: u32,
    pub name: String,
}

/// `buttplug.Device[<index>: <name>]`, the `__tostring` form of a device.
pub open spec fn describe_spec(index: u32, name: Seq<char>) -> Seq<char> {
    "buttplug.Device["@ + decimal(index as nat) + ": "@ + name + "]"@
}

/// The millisecond count a Lua integer `raw` stands for in `dev:Linear`:
/// negative values become 0, and the rest is cut to its low 32 bits, as an
/// `as u32` conversion does.
pub open spec fn duration_ms_spec(raw: isize) -> u32 {
    if raw <= 0 {
        0
    } else {
        (raw as int % 0x1_0000_0000) as u32
    }
}

impl DeviceHandle {
    /// A handle for the device at `index` named `name`.
    pub fn new(index: u32, name: &str) -> (h: DeviceHandle)
        ensures
            h.index == index,
            h.name@ == name@,
    {
        DeviceHandle { index, name: name.to_owned() }
    }

    /// The `tostring(dev)` text, `buttplug.Device[<index>: <name>]`.
    pub fn describe(&self) -> (s: String)
        ensures
            s@ == describe_spec(self.index, self.name@),
    {
        let mut s = String::from_str("buttplug.Device[");
        push_decimal(&mut s, self.index);
        s.append(": ");
        s.append(self.name.as_str());
        s.append("]");
        s
    }
}

/// The duration argument of `dev:Linear(pos, ms)`: `ms.max(0) as u32`.
pub fn linear_duration_ms(raw: isize) -> (ms: u32)
    ensures
        ms == duration_ms_spec(raw),
{
    if raw <= 0 {
        0
    } else {
        let ms = raw as u32;
        assert(ms == (raw as int % 0x1_0000_0000) as u32) by (bit_vector)
            requires
                raw > 0,
                ms == raw as u32,
        ;
        ms
    }
}

} // verus!
