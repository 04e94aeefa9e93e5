//! The bus registry: which endpoint answers at which BDF, and how a
//! function's INTx pin is routed to a platform interrupt line.
use vstd::prelude::*;
use crate::access::{RWOp, OpKind, all_bytes};
use crate::address::{Bdf, BarN, INTxPinID, fits_bdf};

verus! {

/// What the bus hands a device when it attaches it.
#[derive(Copy, Clone, Debug)]
pub struct Attachment {
    /// Where the device was attached.
    pub bdf: Bdf,
    /// The device's INTx pin and the number of the platform interrupt line
    /// it is routed to; the interrupt controller resolves that number to a
    /// pin the device can assert.
    pub lintr: Option<(INTxPinID, u8)>,
}

/// A device function that can be attached to a bus.
pub trait Endpoint: Send + Sync {
    /// The device has been handed `attachment`.
    spec fn attached_with(&self, attachment: Attachment) -> bool;

    /// The device served the configuration access `op0`, leaving it as `op1`.
    spec fn cfg_served(&self, op0: RWOp, op1: RWOp) -> bool;

    /// The device served the access `op0` to BAR `bar`, leaving it as `op1`.
    spec fn bar_served(&self, bar: BarN, op0: RWOp, op1: RWOp) -> bool;

    /// Called once, when the device is attached.
    fn attach(&self, attachment: Attachment)
        ensures
            self.attached_with(attachment),
    ;

    /// Serves an access to the device's configuration space. Reads of
    /// unimplemented bytes return 0xFF; writes to read-only bytes are dropped.
    fn cfg_rw(&self, op: &mut RWOp)
        ensures
            final(op).same_access(*old(op)),
            self.cfg_served(*old(op), *final(op)),
    ;

    /// Serves an access to the aperture of BAR `bar`.
    fn bar_rw(&self, bar: BarN, op: &mut RWOp)
        ensures
            final(op).same_access(*old(op)),
            self.bar_served(bar, *old(op), *final(op)),
    ;
}

/// Where a decoder sends the configuration accesses it has decoded.
pub trait CfgDispatch: Sized {
    /// Whether a device answers at the (bus, device, function) `t`.
    spec fn responds(&self, t: (u8, u8, u8)) -> bool;

    /// Forwarding `op0` to `t` took the target from `self` to `next` and
    /// left the access as `op1`.
    spec fn handled(&self, next: Self, t: (u8, u8, u8), op0: RWOp, op1: RWOp) -> bool;

    /// Forwards `op` to the device at `bdf`; the result says whether one
    /// answered.
    fn dispatch(&mut self, bdf: &Bdf, op: &mut RWOp) -> (hit: bool)
        ensures
            hit == old(self).responds(bdf@),
            final(op).same_access(*old(op)),
            old(self).handled(*final(self), bdf@, *old(op), *final(op)),
    ;
}

/// The INTx pin of function `func`: INTA for 0, INTB for 1, and so on
/// round the four pins.
pub open spec fn intx_pin_id(func: u8) -> u8 {
    ((func % 4) + 1) as u8
}

/// The INTx pin of function `func`.
pub open spec fn intx_pin(func: u8) -> INTxPinID {
    if func % 4 == 0 {
        INTxPinID::IntA
    } else if func % 4 == 1 {
        INTxPinID::IntB
    } else if func % 4 == 2 {
        INTxPinID::IntC
    } else {
        INTxPinID::IntD
    }
}

/// What the bus hands the device it attaches at `b`: the address, and the
/// function's INTx pin with the platform line it is routed to.
pub open spec fn routed_attachment(b: Bdf) -> Attachment {
    Attachment {
        bdf: b,
        lintr: Some((intx_pin(b@.2), intx_line(b@.1, intx_pin_id(b@.2)))),
    }
}

/// The platform interrupt line of pin `pin_id` of device `dev`.
pub open spec fn intx_line(dev: u8, pin_id: u8) -> u8 {
    (16 + ((4 + dev + pin_id) % 8)) as u8
}

/// The registry of the endpoints attached to one host bridge.
pub struct PciBus<E: Endpoint> {
    entries: Vec<(Bdf, E)>,
}

/// The registry under its shorter name.
pub type Bus<E> = PciBus<E>;

impl<E: Endpoint> PciBus<E> {
    /// The addresses attached so far, in the order of attachment.
    pub closed spec fn attached(&self) -> Seq<(u8, u8, u8)> {
        self.entries@.map_values(|e: (Bdf, E)| e.0@)
    }

    /// Whether an endpoint is attached at `t`.
    pub open spec fn has(&self, t: (u8, u8, u8)) -> bool {
        self.attached().contains(t)
    }

    /// Entry `i` is the first one at `t`.
    pub closed spec fn is_first(&self, t: (u8, u8, u8), i: int) -> bool {
        &&& 0 <= i < self.entries@.len()
        &&& self.entries@[i].0@ == t
        &&& forall|j: int| 0 <= j < i ==> (#[trigger] self.entries@[j]).0@ != t
    }

    /// The endpoint that answers at `t`, where one is attached.
    pub closed spec fn endpoint_at(&self, t: (u8, u8, u8)) -> E {
        self.entries@[choose|i: int| self.is_first(t, i)].1
    }

    proof fn lemma_first(&self, t: (u8, u8, u8), i: int)
        requires
            self.is_first(t, i),
        ensures
            self.endpoint_at(t) == self.entries@[i].1,
            self.has(t),
    {
        let k = choose|k: int| self.is_first(t, k);
        assert(self.is_first(t, k));
        if k < i {
            assert(self.entries@[k].0@ != t);
        } else if i < k {
            assert(self.entries@[i].0@ != t);
        }
        assert(self.attached()[i] == t);
    }

    proof fn lemma_first_exists(&self, t: (u8, u8, u8), k: int)
        requires
            0 <= k < self.entries@.len(),
            self.entries@[k].0@ == t,
        ensures
            exists|i: int| self.is_first(t, i),
        decreases k,
    {
        if exists|j: int| 0 <= j < k && (#[trigger] self.entries@[j]).0@ == t {
            let j = choose|j: int| 0 <= j < k && (#[trigger] self.entries@[j]).0@ == t;
            self.lemma_first_exists(t, j);
        } else {
            assert(self.is_first(t, k));
        }
    }

    /// At most one endpoint per address.
    pub open spec fn wf(&self) -> bool {
        self.attached().no_duplicates()
    }

    /// An empty bus.
    pub fn new() -> (r: Self)
        ensures
            r.wf(),
            r.attached() == Seq::<(u8, u8, u8)>::empty(),
    {
        let r = PciBus { entries: Vec::new() };
        assert(r.attached() =~= Seq::<(u8, u8, u8)>::empty());
        r
    }

    /// The index of the entry at `t`, if any.
    fn find(&self, bdf: &Bdf) -> (r: Option<usize>)
        ensures
            match r {
                Some(i) => i < self.entries@.len() && self.entries@[i as int].1 == self.endpoint_at(
                    bdf@,
                ) && self.has(bdf@),
                None => !self.has(bdf@),
            },
    {
        let mut i: usize = 0;
        while i < self.entries.len()
            invariant
                i <= self.entries@.len(),
                forall|j: int| 0 <= j < i ==> (#[trigger] self.entries@[j]).0@ != bdf@,
            decreases self.entries@.len() - i,
        {
            proof {
                Bdf::lemma_view_eq(self.entries@[i as int].0, *bdf);
            }
            if self.entries[i].0 == *bdf {
                proof {
                    self.lemma_first(bdf@, i as int);
                }
                return Some(i);
            }
            i = i + 1;
        }
        proof {
            if self.has(bdf@) {
                let k = self.attached().index_of(bdf@);
                assert(self.entries@[k].0@ == bdf@);
            }
        }
        None
    }

    /// Whether an endpoint is attached at `bdf`.
    pub fn contains(&self, bdf: &Bdf) -> (r: bool)
        ensures
            r == self.has(bdf@),
    {
        self.find(bdf).is_some()
    }

    /// The INTx pin of the function at `bdf` and the platform line it is
    /// routed to.
    pub fn route_lintr(&self, bdf: &Bdf) -> (r: (INTxPinID, u8))
        ensures
            r.0 == intx_pin(bdf@.2),
            r.0.spec_id() == intx_pin_id(bdf@.2),
            r.1 == intx_line(bdf@.1, intx_pin_id(bdf@.2)),
    {
        let (_, dev, func) = bdf.triple();
        let intx_pin = match func % 4 {
            0 => INTxPinID::IntA,
            1 => INTxPinID::IntB,
            2 => INTxPinID::IntC,
            _ => INTxPinID::IntD,
        };
        let line: u8 = 16 + ((4 + dev + intx_pin.id()) % 8);
        (intx_pin, line)
    }

    /// Attaches `dev` at `bdf`, then hands it its attachment with its routed
    /// INTx pin. An address takes one endpoint only.
    pub fn attach(&mut self, bdf: Bdf, dev: E)
        requires
            old(self).wf(),
            !old(self).has(bdf@),
        ensures
            final(self).wf(),
            final(self).attached() == old(self).attached().push(bdf@),
            dev.attached_with(routed_attachment(bdf)),
            final(self).endpoint_at(bdf@) == dev,
            forall|t: (u8, u8, u8)|
                t != bdf@ && old(self).has(t) ==> #[trigger] final(self).endpoint_at(t) == old(
                    self,
                ).endpoint_at(t),
    {
        let lintr = self.route_lintr(&bdf);
        let ghost dv = dev;
        dev.attach(Attachment { bdf, lintr: Some(lintr) });
        self.entries.push((bdf, dev));
        proof {
            let n = old(self).entries@.len() as int;
            assert(self.entries@[n].0@ == bdf@);
            assert forall|j: int| 0 <= j < n implies (#[trigger] self.entries@[j]).0@ != bdf@ by {
                assert(old(self).attached()[j] == old(self).entries@[j].0@);
            }
            self.lemma_first(bdf@, n);
            assert forall|t: (u8, u8, u8)|
                t != bdf@ && old(self).has(t) implies #[trigger] self.endpoint_at(t) == old(
                self,
            ).endpoint_at(t) by {
                let k = old(self).attached().index_of(t);
                assert(old(self).entries@[k].0@ == t);
                old(self).lemma_first_exists(t, k);
                let i = choose|i: int| old(self).is_first(t, i);
                old(self).lemma_first(t, i);
                assert(self.entries@[i] == old(self).entries@[i]);
                assert forall|j: int| 0 <= j < i implies (#[trigger] self.entries@[j]).0@ != t by {
                    assert(self.entries@[j] == old(self).entries@[j]);
                }
                self.lemma_first(t, i);
            }
            assert(self.attached() =~= old(self).attached().push(bdf@));
            assert forall|i: int, j: int|
                0 <= i < self.attached().len() && 0 <= j < self.attached().len() && i != j
                implies self.attached()[i] != self.attached()[j] by {
                if i < old(self).attached().len() && j < old(self).attached().len() {
                } else if i == old(self).attached().len() {
                    assert(old(self).attached().contains(self.attached()[j]));
                } else {
                    assert(old(self).attached().contains(self.attached()[i]));
                }
            }
        }
    }

    /// Forwards a configuration access to the endpoint at `bdf`. With none
    /// there, a read gives all-ones and a write is dropped.
    pub fn cfg_rw(&self, bdf: &Bdf, op: &mut RWOp) -> (hit: bool)
        ensures
            hit ==> self.endpoint_at(bdf@).cfg_served(*old(op), *final(op)),
            hit == self.has(bdf@),
            final(op).same_access(*old(op)),
            !hit && old(op).is_read() ==> all_bytes(final(op).buf@, 0xff),
    {
        match self.find(bdf) {
            Some(i) => {
                self.entries[i].1.cfg_rw(op);
                true
            },
            None => {
                if op.kind == OpKind::Read {
                    op.fill(0xff);
                }
                false
            },
        }
    }

    /// Forwards an access to BAR `bar` of the endpoint at `bdf`. With none
    /// there, a read gives all-ones and a write is dropped.
    pub fn bar_rw(&self, bdf: &Bdf, bar: BarN, op: &mut RWOp) -> (hit: bool)
        ensures
            hit ==> self.endpoint_at(bdf@).bar_served(bar, *old(op), *final(op)),
            hit == self.has(bdf@),
            final(op).same_access(*old(op)),
            !hit && old(op).is_read() ==> all_bytes(final(op).buf@, 0xff),
    {
        match self.find(bdf) {
            Some(i) => {
                self.entries[i].1.bar_rw(bar, op);
                true
            },
            None => {
                if op.kind == OpKind::Read {
                    op.fill(0xff);
                }
                false
            },
        }
    }
}

impl<E: Endpoint> CfgDispatch for PciBus<E> {
    open spec fn responds(&self, t: (u8, u8, u8)) -> bool {
        self.has(t)
    }

    open spec fn handled(&self, next: Self, t: (u8, u8, u8), op0: RWOp, op1: RWOp) -> bool {
        &&& next == *self
        &&& self.has(t) ==> self.endpoint_at(t).cfg_served(op0, op1)
        &&& !self.has(t) && op0.is_read() ==> all_bytes(op1.buf@, 0xff)
    }

    fn dispatch(&mut self, bdf: &Bdf, op: &mut RWOp) -> (hit: bool) {
        self.cfg_rw(bdf, op)
    }
}

} // verus!
