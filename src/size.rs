use vstd::prelude::*;

verus! {

/// A byte count, shown with a binary unit.
#[derive(Clone, Copy, Debug, PartialEq, Eq, Structural)]
pub struct Size(pub u64);

/// The unit in which a [`Size`] is shown.
#[derive(Clone, Copy, Debug, PartialEq, Eq, Structural)]
pub enum SizeUnit {
    Bytes,
    KiloBytes,
    MegaBytes,
}

pub const KIB: u64 = 1024;

pub const MIB: u64 = 1048576;

impl SizeUnit {
    pub fn suffix(&self) -> (r: &'static str)
        ensures
            r@ == (match *self {
                SizeUnit::Bytes => "B"@,
                SizeUnit::KiloBytes => "KB"@,
                SizeUnit::MegaBytes => "MB"@,
            }),
    {
        match self {
            SizeUnit::Bytes => "B",
            SizeUnit::KiloBytes => "KB",
            SizeUnit::MegaBytes => "MB",
        }
    }
}

impl Size {
    /// The largest unit that the size reaches, up to megabytes.
    pub open spec fn spec_unit(self) -> SizeUnit {
        if self.0 < KIB {
            SizeUnit::Bytes
        } else if self.0 < MIB {
            SizeUnit::KiloBytes
        } else {
            SizeUnit::MegaBytes
        }
    }

    /// The size as a whole number of its unit (rounded down) and that unit.
    pub fn scaled(&self) -> (r: (u64, SizeUnit))
        ensures
            r.1 == self.spec_unit(),
            r.0 == (match r.1 {
                SizeUnit::Bytes => self.0,
                SizeUnit::KiloBytes => self.0 / KIB,
                SizeUnit::MegaBytes => self.0 / MIB,
            }),
    {
        if self.0 < KIB {
            (self.0, SizeUnit::Bytes)
        } else if self.0 < MIB {
            (self.0 / KIB, SizeUnit::KiloBytes)
        } else {
            (self.0 / KIB / KIB, SizeUnit::MegaBytes)
        }
    }
}

} // verus!
