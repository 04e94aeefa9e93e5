//! The configuration decoders: the legacy address/data port pair and the
//! PCI Express ECAM window.
use vstd::prelude::*;
use vstd::arithmetic::power2::is_pow2;
use crate::access::{RWOp, OpKind, all_bytes, le_u32, le_bytes};
use crate::address::{Bdf, MASK_BUS, MASK_DEV, MASK_FUNC};
use crate::bus::CfgDispatch;

verus! {

/// Bit 31 of the latched address: configuration accesses are enabled.
pub const CFG_ENABLE: u32 = 0x8000_0000;

/// Configuration space per function in an ECAM window, less one.
pub const MASK_ECAM_CFG_OFFSET: usize = 0xfff;

/// Fewest buses an ECAM window may decode.
pub const PCIE_MIN_BUSES_PER_ECAM_REGION: u16 = 2;

/// Most buses an ECAM window may decode.
pub const PCIE_MAX_BUSES_PER_ECAM_REGION: u16 = 256;

/// The target of a latched address: the (bus, device, function) in bits
/// 23-16, 15-11 and 10-8, and the register offset in bits 7-0; absent when
/// the enable bit 31 is clear.
pub open spec fn pio_target(addr: u32) -> Option<((u8, u8, u8), u8)> {
    if addr & CFG_ENABLE == 0 {
        None
    } else {
        Some(
            (
                (
                    ((addr >> 16u32) as u8) & MASK_BUS,
                    ((addr >> 11u32) as u8) & MASK_DEV,
                    ((addr >> 8u32) as u8) & MASK_FUNC,
                ),
                (addr & 0xff) as u8,
            ),
        )
    }
}

/// Decodes a latched configuration address into the BDF and register
/// offset it selects; absent when the enable bit is clear.
pub fn cfg_addr_parse(addr: u32) -> (r: Option<(Bdf, u8)>)
    ensures
        match pio_target(addr) {
            None => r is None,
            Some((t, off)) => r matches Some((b, o)) && b@ == t && o == off,
        },
{
    if addr & CFG_ENABLE == 0 {
        None
    } else {
        let bus = ((addr >> 16) as u8) & MASK_BUS;
        let dev = ((addr >> 11) as u8) & MASK_DEV;
        let func = ((addr >> 8) as u8) & MASK_FUNC;
        assert(dev <= 31 && func <= 7) by (bit_vector)
            requires
                dev == ((addr >> 11u32) as u8) & 0x1f,
                func == ((addr >> 8u32) as u8) & 0x07,
        ;
        match Bdf::new(bus, dev, func) {
            Some(b) => Some((b, (addr & 0xff) as u8)),
            None => None,
        }
    }
}

/// The I/O port of the configuration address latch.
pub const PORT_PCI_CONFIG_ADDR: u16 = 0xcf8;

/// The I/O port of the configuration data window.
pub const PORT_PCI_CONFIG_DATA: u16 = 0xcfc;

/// How an address-port access leaves the decoder and the access: only a
/// 4-byte access at offset 0 is taken; a read returns the latch
/// little-endian, a write replaces it.
pub open spec fn serves_addr(d0: PioCfgDecoder, d1: PioCfgDecoder, op0: RWOp, op1: RWOp) -> bool {
    if op0.buf@.len() != 4 || op0.offset != 0 {
        op1 == op0 && d1.latched() == d0.latched()
    } else if op0.kind == OpKind::Read {
        &&& op1.kind == op0.kind
        &&& op1.offset == op0.offset
        &&& op1.buf@ == le_bytes(d0.latched())
        &&& d1.latched() == d0.latched()
    } else {
        op1 == op0 && d1.latched() == le_u32(op0.buf@)
    }
}

/// `op` moved to offset `off`, as the device sees it.
pub open spec fn at_offset(op: RWOp, off: int) -> RWOp {
    RWOp { kind: op.kind, offset: off as usize, buf: op.buf }
}

/// How forwarding `op0` to `t` at offset `off` leaves the access and the
/// target: the target handles the access there exactly once; on a hit the
/// access holds what the target left in it, and a read that no device
/// answers gives all-ones.
pub open spec fn forwarded<D: CfgDispatch>(
    t: (u8, u8, u8),
    off: int,
    op0: RWOp,
    op1: RWOp,
    t0: D,
    t1: D,
) -> bool {
    &&& op1.same_access(op0)
    &&& (t0.responds(t) ==> t0.handled(t1, t, at_offset(op0, off), at_offset(op1, off)))
    &&& (!t0.responds(t) ==> exists|mid: RWOp| #[trigger] t0.handled(t1, t, at_offset(op0, off), mid))
    &&& (!t0.responds(t) && op0.is_read() ==> all_bytes(op1.buf@, 0xff))
}

/// How a data-port access under latch `addr` leaves the access and the
/// target: with the enable bit clear both stay as they were; otherwise the
/// access is forwarded to the latched BDF at the latched register offset
/// plus the access's own offset.
pub open spec fn serves_data<D: CfgDispatch>(addr: u32, op0: RWOp, op1: RWOp, t0: D, t1: D) -> bool {
    match pio_target(addr) {
        None => op1 == op0 && t1 == t0,
        Some((t, reg)) => forwarded(t, reg + op0.offset, op0, op1, t0, t1),
    }
}

/// How an ECAM access leaves the access and the target: one whose first
/// and last bytes decode to different functions reaches no device, and a
/// read of it gives all-ones; otherwise it is forwarded to its function at
/// the decoded register offset.
pub open spec fn serves_ecam<D: CfgDispatch>(mask: u8, op0: RWOp, op1: RWOp, t0: D, t1: D) -> bool {
    let (t, reg) = ecam_target(mask, op0.offset);
    let end = ecam_target(mask, (op0.offset + op0.buf@.len() - 1) as usize).0;
    if t != end {
        &&& t1 == t0
        &&& op1.same_access(op0)
        &&& (op0.is_read() ==> all_bytes(op1.buf@, 0xff))
    } else {
        forwarded(t, reg as int, op0, op1, t0, t1)
    }
}

/// The legacy configuration mechanism: an address latch at port 0xCF8 and
/// a data window at port 0xCFC.
pub struct PioCfgDecoder {
    addr: u32,
}

impl PioCfgDecoder {
    /// The latched address.
    pub closed spec fn latched(&self) -> u32 {
        self.addr
    }

    /// A decoder whose latch holds zero.
    pub fn new() -> (r: Self)
        ensures
            r.latched() == 0,
    {
        PioCfgDecoder { addr: 0 }
    }

    /// Serves an access to the address port. Only a 4-byte access at offset
    /// 0 is taken: a read returns the latch, a write replaces it.
    pub fn service_addr(&mut self, op: &mut RWOp)
        ensures
            serves_addr(*old(self), *final(self), *old(op), *final(op)),
    {
        if op.len() != 4 || op.offset() != 0 {
            return;
        }
        match op.kind {
            OpKind::Read => {
                op.write_u32(self.addr);
                assert(op.buf@ =~= le_bytes(old(self).latched()));
            },
            OpKind::Write => {
                self.addr = op.read_u32();
            },
        }
    }

    /// Serves an access to the data port. With the enable bit clear nothing
    /// is dispatched; otherwise the access goes to the selected BDF, at the
    /// latched register offset plus the access's own offset, and a read
    /// that no device answers gives all-ones.
    pub fn service_data<D: CfgDispatch>(&self, op: &mut RWOp, target: &mut D)
        requires
            old(op).offset + 0xff <= usize::MAX,
        ensures
            serves_data(self.latched(), *old(op), *final(op), *old(target), *final(target)),
    {
        let addr = self.addr;
        match cfg_addr_parse(addr) {
            None => {},
            Some((bdf, cfg_off)) => {
                let orig = op.offset;
                op.offset = cfg_off as usize + orig;
                proof {
                    assert(*op == at_offset(*old(op), cfg_off + orig));
                }
                let hit = target.dispatch(&bdf, op);
                let ghost mid = *op;
                if !hit && op.kind == OpKind::Read {
                    op.fill(0xff);
                }
                op.offset = orig;
                proof {
                    if hit {
                        assert(at_offset(*op, cfg_off + orig) == mid);
                    }
                    assert(old(target).handled(*target, bdf@, at_offset(*old(op), cfg_off + orig), mid));
                }
            },
        }
    }

    /// Serves an access to one of the two configuration ports.
    pub fn service_port<D: CfgDispatch>(&mut self, port: u16, op: &mut RWOp, target: &mut D)
        requires
            port == PORT_PCI_CONFIG_ADDR || port == PORT_PCI_CONFIG_DATA,
            old(op).offset + 0xff <= usize::MAX,
        ensures
            port == PORT_PCI_CONFIG_ADDR ==> serves_addr(*old(self), *final(self), *old(op), *final(op))
                && *final(target) == *old(target),
            port == PORT_PCI_CONFIG_DATA ==> serves_data(
                old(self).latched(),
                *old(op),
                *final(op),
                *old(target),
                *final(target),
            ) && *final(self) == *old(self),
    {
        if port == PORT_PCI_CONFIG_ADDR {
            self.service_addr(op);
        } else {
            self.service_data(op, target);
        }
    }

    /// The latched address.
    pub fn addr(&self) -> (r: u32)
        ensures
            r == self.latched(),
    {
        self.addr
    }

    /// Replaces the latched address.
    pub fn set_addr(&mut self, addr: u32)
        ensures
            final(self).latched() == addr,
    {
        self.addr = addr;
    }
}

/// A bus count that an ECAM window accepts: a power of two within the
/// platform's bounds.
pub open spec fn valid_bus_count(n: u16) -> bool {
    &&& is_pow2(n as int)
    &&& PCIE_MIN_BUSES_PER_ECAM_REGION <= n <= PCIE_MAX_BUSES_PER_ECAM_REGION
}

/// Whether `n` is a power of two.
fn power_of_two(n: u16) -> (r: bool)
    ensures
        r == is_pow2(n as int),
{
    reveal(is_pow2);
    if n == 0 {
        return false;
    }
    let mut m: u16 = n;
    while m > 1 && m % 2 == 0
        invariant
            m > 0,
            is_pow2(n as int) == is_pow2(m as int),
        decreases m,
    {
        proof {
            reveal(is_pow2);
        }
        m = m / 2;
    }
    proof {
        reveal(is_pow2);
    }
    m == 1
}

/// The ECAM decoding of a region offset: bus from bit 20 up (masked),
/// device from bits 19-15, function from bits 14-12, register offset from
/// bits 11-0.
pub open spec fn ecam_target(bus_mask: u8, off: usize) -> ((u8, u8, u8), usize) {
    (
        (
            ((off >> 20usize) as u8) & bus_mask,
            ((off >> 15usize) as u8) & MASK_DEV,
            ((off >> 12usize) as u8) & MASK_FUNC,
        ),
        off & MASK_ECAM_CFG_OFFSET,
    )
}

/// The PCI Express memory-mapped configuration mechanism (ECAM).
pub struct PcieCfgDecoder {
    bus_mask: u8,
}

impl PcieCfgDecoder {
    /// The mask applied to the bus field: the bus count less one.
    pub closed spec fn mask(&self) -> u8 {
        self.bus_mask
    }

    /// A decoder for `bus_count` buses; absent unless the count is a power
    /// of two within the platform's bounds.
    pub fn new(bus_count: u16) -> (r: Option<Self>)
        ensures
            valid_bus_count(bus_count) ==> (r matches Some(d) && d.mask() == bus_count - 1),
            !valid_bus_count(bus_count) ==> r is None,
    {
        if !power_of_two(bus_count) || bus_count < PCIE_MIN_BUSES_PER_ECAM_REGION || bus_count
            > PCIE_MAX_BUSES_PER_ECAM_REGION {
            None
        } else {
            Some(PcieCfgDecoder { bus_mask: (bus_count - 1) as u8 })
        }
    }

    /// Decodes an offset into the window into a BDF and an offset into that
    /// function's configuration space.
    pub fn decode_enhanced_cfg_offset(&self, region_offset: usize) -> (r: (Bdf, usize))
        ensures
            (r.0@, r.1) == ecam_target(self.mask(), region_offset),
    {
        let bus = ((region_offset >> 20) as u8) & self.bus_mask;
        let dev = ((region_offset >> 15) as u8) & MASK_DEV;
        let func = ((region_offset >> 12) as u8) & MASK_FUNC;
        assert(dev <= 31 && func <= 7) by (bit_vector)
            requires
                dev == ((region_offset >> 15usize) as u8) & 0x1f,
                func == ((region_offset >> 12usize) as u8) & 0x07,
        ;
        let cfg_offset = region_offset & MASK_ECAM_CFG_OFFSET;
        match Bdf::new(bus, dev, func) {
            Some(b) => (b, cfg_offset),
            None => {
                assert(false);
                (Bdf::new(0, 0, 0).unwrap(), 0)
            },
        }
    }

    /// Serves an access to the ECAM window. An access whose first and last
    /// bytes fall on different functions is suppressed: a read gives
    /// all-ones and nothing is dispatched. Otherwise the access goes to its
    /// function at the decoded register offset, and a read that no device
    /// answers gives all-ones.
    pub fn service<D: CfgDispatch>(&self, op: &mut RWOp, target: &mut D)
        requires
            old(op).buf@.len() > 0,
            old(op).offset + old(op).buf@.len() - 1 <= usize::MAX,
        ensures
            final(op).same_access(*old(op)),
            serves_ecam(self.mask(), *old(op), *final(op), *old(target), *final(target)),
    {
        let (bdf, cfg_off) = self.decode_enhanced_cfg_offset(op.offset());
        let (end_bdf, _) = self.decode_enhanced_cfg_offset(op.offset() + (op.len() - 1));
        proof {
            Bdf::lemma_view_eq(bdf, end_bdf);
        }
        if bdf != end_bdf {
            if op.kind == OpKind::Read {
                op.fill(0xff);
            }
            return;
        }
        let orig = op.offset;
        op.offset = cfg_off;
        proof {
            assert(*op == at_offset(*old(op), cfg_off as int));
        }
        let hit = target.dispatch(&bdf, op);
        let ghost mid = *op;
        if !hit && op.kind == OpKind::Read {
            op.fill(0xff);
        }
        op.offset = orig;
        proof {
            if hit {
                assert(at_offset(*op, cfg_off as int) == mid);
            }
            assert(old(target).handled(*target, bdf@, at_offset(*old(op), cfg_off as int), mid));
        }
    }
}

/// A 4-byte value written to the address port reads back from it as the
/// same four bytes.
pub proof fn lemma_latch_round_trip(w: Seq<u8>)
    requires
        w.len() == 4,
    ensures
        le_bytes(le_u32(w)) == w,
{
    let b0 = w[0];
    let b1 = w[1];
    let b2 = w[2];
    let b3 = w[3];
    let n = le_u32(w);
    assert(((n & 0xff) as u8 == b0 && ((n >> 8u32) & 0xff) as u8 == b1 && ((n >> 16u32) & 0xff) as u8
        == b2 && ((n >> 24u32) & 0xff) as u8 == b3)) by (bit_vector)
        requires
            n == (b0 as u32) | ((b1 as u32) << 8u32) | ((b2 as u32) << 16u32) | ((b3 as u32) << 24u32),
    ;
    assert(le_bytes(n) =~= w);
}

} // verus!
