//! Validated PCI addresses and their text form.
use vstd::prelude::*;

verus! {

/// Largest device number (5 bits).
pub const MASK_DEV: u8 = 0x1f;

/// Largest function number (3 bits).
pub const MASK_FUNC: u8 = 0x07;

/// Largest bus number (8 bits).
pub const MASK_BUS: u8 = 0xff;

/// An 8-bit bus number.
#[derive(Copy, Clone, PartialEq, Eq, Structural, Debug, PartialOrd, Ord)]
pub struct BusNum(u8);

impl BusNum {
    /// The number this value holds.
    pub closed spec fn v(self) -> u8 {
        self.0
    }

    /// Every `u8` is a bus number.
    pub fn new(n: u8) -> (r: Option<Self>)
        ensures
            r matches Some(b) && b.v() == n,
    {
        Some(BusNum(n))
    }

    pub fn get(&self) -> (r: u8)
        ensures
            r == self.v(),
    {
        self.0
    }
}

/// A 5-bit device number.
#[derive(Copy, Clone, PartialEq, Eq, Structural, Debug, PartialOrd, Ord)]
pub struct DevNum(u8);

impl DevNum {
    #[verifier::type_invariant]
    spec fn fits(self) -> bool {
        self.0 <= MASK_DEV
    }

    /// The number this value holds.
    pub closed spec fn v(self) -> u8 {
        self.0
    }

    /// Present exactly when `n` fits in five bits.
    pub fn new(n: u8) -> (r: Option<Self>)
        ensures
            n <= 31 ==> (r matches Some(d) && d.v() == n),
            n > 31 ==> r is None,
    {
        if n <= MASK_DEV {
            Some(DevNum(n))
        } else {
            None
        }
    }

    pub fn get(&self) -> (r: u8)
        ensures
            r == self.v(),
            r <= 31,
    {
        proof {
            use_type_invariant(self);
        }
        self.0
    }
}

/// A 3-bit function number.
#[derive(Copy, Clone, PartialEq, Eq, Structural, Debug, PartialOrd, Ord)]
pub struct FuncNum(u8);

impl FuncNum {
    #[verifier::type_invariant]
    spec fn fits(self) -> bool {
        self.0 <= MASK_FUNC
    }

    /// The number this value holds.
    pub closed spec fn v(self) -> u8 {
        self.0
    }

    /// Present exactly when `n` fits in three bits.
    pub fn new(n: u8) -> (r: Option<Self>)
        ensures
            n <= 7 ==> (r matches Some(f) && f.v() == n),
            n > 7 ==> r is None,
    {
        if n <= MASK_FUNC {
            Some(FuncNum(n))
        } else {
            None
        }
    }

    pub fn get(&self) -> (r: u8)
        ensures
            r == self.v(),
            r <= 7,
    {
        proof {
            use_type_invariant(self);
        }
        self.0
    }
}

/// A device/function located on a specific PCI bus.
#[derive(Copy, Clone, PartialEq, Eq, Structural, Debug, PartialOrd, Ord)]
pub struct BusLocation {
    pub dev: DevNum,
    pub func: FuncNum,
}

impl BusLocation {
    /// Present exactly when `dev` fits in five bits and `func` in three.
    pub fn new(dev: u8, func: u8) -> (r: Option<Self>)
        ensures
            (dev <= 31 && func <= 7) ==> (r matches Some(l) && l.dev.v() == dev && l.func.v()
                == func),
            !(dev <= 31 && func <= 7) ==> r is None,
    {
        let dnum = DevNum::new(dev);
        let fnum = FuncNum::new(func);
        match (dnum, fnum) {
            (Some(d), Some(f)) => Some(BusLocation { dev: d, func: f }),
            _ => None,
        }
    }
}

/// Bus, Device, Function: the address of a PCI function.
#[derive(Copy, Clone, PartialEq, Eq, Structural, Debug, PartialOrd, Ord)]
pub struct Bdf {
    pub bus: BusNum,
    pub location: BusLocation,
}

/// The widths that a (bus, device, function) triple must respect.
pub open spec fn fits_bdf(t: (u8, u8, u8)) -> bool {
    t.1 <= 31 && t.2 <= 7
}

impl View for Bdf {
    type V = (u8, u8, u8);

    open spec fn view(&self) -> (u8, u8, u8) {
        (self.bus.v(), self.location.dev.v(), self.location.func.v())
    }
}

impl Bdf {
    /// Attempts to make a new BDF: present exactly when the values fit.
    pub fn new(bus: u8, dev: u8, func: u8) -> (r: Option<Self>)
        ensures
            fits_bdf((bus, dev, func)) ==> (r matches Some(b) && b@ == (bus, dev, func)),
            !fits_bdf((bus, dev, func)) ==> r is None,
    {
        let bnum = BusNum::new(bus);
        let loc = BusLocation::new(dev, func);
        match (bnum, loc) {
            (Some(b), Some(l)) => Some(Bdf { bus: b, location: l }),
            _ => None,
        }
    }

    /// Two BDFs are equal exactly when their fields are.
    pub proof fn lemma_view_eq(a: Bdf, b: Bdf)
        ensures
            a == b <==> a@ == b@,
    {
    }

    /// The (bus, device, function) numbers of this address.
    pub fn triple(&self) -> (r: (u8, u8, u8))
        ensures
            r == self@,
            fits_bdf(r),
    {
        (self.bus.get(), self.location.dev.get(), self.location.func.get())
    }
}


/// One of the six Base Address Register slots.
#[derive(Copy, Clone, PartialEq, Eq, Structural, Debug, PartialOrd, Ord)]
pub enum BarN {
    BAR0,
    BAR1,
    BAR2,
    BAR3,
    BAR4,
    BAR5,
}

/// The slot numbered `n`, for `n` in 0 through 5.
pub open spec fn bar_at(n: u8) -> Option<BarN> {
    if n == 0 {
        Some(BarN::BAR0)
    } else if n == 1 {
        Some(BarN::BAR1)
    } else if n == 2 {
        Some(BarN::BAR2)
    } else if n == 3 {
        Some(BarN::BAR3)
    } else if n == 4 {
        Some(BarN::BAR4)
    } else if n == 5 {
        Some(BarN::BAR5)
    } else {
        None
    }
}

impl BarN {
    /// The slot numbered `n`; absent past 5.
    pub fn from_repr(n: u8) -> (r: Option<BarN>)
        ensures
            r == bar_at(n),
    {
        match n {
            0 => Some(BarN::BAR0),
            1 => Some(BarN::BAR1),
            2 => Some(BarN::BAR2),
            3 => Some(BarN::BAR3),
            4 => Some(BarN::BAR4),
            5 => Some(BarN::BAR5),
            _ => None,
        }
    }

    /// Walks the slots from 0 through 5.
    pub fn iter() -> (r: BarIter)
        ensures
            r.n == 0,
    {
        BarIter { n: 0 }
    }
}

/// Walks the BAR slots in order.
pub struct BarIter {
    pub n: u8,
}

impl BarIter {
    /// The next slot, or absent once all six have been handed out.
    pub fn next(&mut self) -> (r: Option<BarN>)
        ensures
            r == bar_at(old(self).n),
            r is Some ==> final(self).n == old(self).n + 1,
            r is None ==> final(self).n == old(self).n,
    {
        let res = BarN::from_repr(self.n);
        if res.is_some() {
            self.n = self.n + 1;
        }
        res
    }
}

/// The four legacy interrupt pins.
#[derive(Copy, Clone, PartialEq, Eq, Structural, Debug)]
pub enum INTxPinID {
    IntA,
    IntB,
    IntC,
    IntD,
}

impl INTxPinID {
    /// The pin's number: 1 for INTA through 4 for INTD.
    pub open spec fn spec_id(self) -> u8 {
        match self {
            INTxPinID::IntA => 1,
            INTxPinID::IntB => 2,
            INTxPinID::IntC => 3,
            INTxPinID::IntD => 4,
        }
    }

    /// The pin's number: 1 for INTA through 4 for INTD.
    pub fn id(&self) -> (r: u8)
        ensures
            r == self.spec_id(),
    {
        match self {
            INTxPinID::IntA => 1,
            INTxPinID::IntB => 2,
            INTxPinID::IntC => 3,
            INTxPinID::IntD => 4,
        }
    }
}

} // verus!
