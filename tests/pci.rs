use std::sync::{Arc, Mutex};

use pci_cfg::access::{OpKind, RWOp};
use pci_cfg::address::{BarN, Bdf, BusLocation, BusNum, DevNum, FuncNum, INTxPinID};
use pci_cfg::bus::{Attachment, CfgDispatch, Endpoint, PciBus};
use pci_cfg::decoder::{
    cfg_addr_parse, PcieCfgDecoder, PioCfgDecoder, PORT_PCI_CONFIG_ADDR, PORT_PCI_CONFIG_DATA,
};
use pci_cfg::text::BdfError;

/// Answers 0x42 at configuration offset 0 and 0xFF elsewhere; records its
/// attachment.
struct Stub {
    attached: Arc<Mutex<Option<Attachment>>>,
}

impl Stub {
    fn new() -> Self {
        Stub { attached: Arc::new(Mutex::new(None)) }
    }
}

impl Endpoint for Stub {
    fn attached_with(&self, _attachment: Attachment) -> bool {
        true
    }
    fn cfg_served(&self, _op0: RWOp, _op1: RWOp) -> bool {
        true
    }
    fn bar_served(&self, _bar: BarN, _op0: RWOp, _op1: RWOp) -> bool {
        true
    }
    fn attach(&self, attachment: Attachment) {
        *self.attached.lock().unwrap() = Some(attachment);
    }
    fn cfg_rw(&self, op: &mut RWOp) {
        if op.kind == OpKind::Read {
            for (i, b) in op.buf.iter_mut().enumerate() {
                *b = if op.offset + i == 0 { 0x42 } else { 0xff };
            }
        }
    }
    fn bar_rw(&self, _bar: BarN, op: &mut RWOp) {
        if op.kind == OpKind::Read {
            for b in op.buf.iter_mut() {
                *b = 0x11;
            }
        }
    }
}

/// Records each dispatch and answers for no device.
struct Recorder {
    calls: Vec<((u8, u8, u8), usize, usize)>,
}

impl CfgDispatch for Recorder {
    fn responds(&self, _t: (u8, u8, u8)) -> bool {
        false
    }
    fn handled(&self, _next: Self, _t: (u8, u8, u8), _op0: RWOp, _op1: RWOp) -> bool {
        true
    }
    fn dispatch(&mut self, bdf: &Bdf, op: &mut RWOp) -> bool {
        self.calls.push((bdf.triple(), op.offset, op.buf.len()));
        false
    }
}

fn bdf(b: u8, d: u8, f: u8) -> Bdf {
    Bdf::new(b, d, f).unwrap()
}

fn write_latch(dec: &mut PioCfgDecoder, v: u32) {
    let mut op = RWOp::new_write(0, v.to_le_bytes().to_vec());
    dec.service_addr(&mut op);
}

#[test]
fn latch_round_trip() {
    let mut dec = PioCfgDecoder::new();
    write_latch(&mut dec, 0x8000_0000);
    assert_eq!(dec.addr(), 0x8000_0000);
    let mut op = RWOp::new_read(0, vec![0; 4]);
    dec.service_addr(&mut op);
    assert_eq!(op.buf, vec![0x00, 0x00, 0x00, 0x80]);
}

#[test]
fn latch_round_trip_any_value() {
    let mut dec = PioCfgDecoder::new();
    for v in [0u32, 1, 0x1234_5678, 0xdead_beef, u32::MAX] {
        write_latch(&mut dec, v);
        let mut op = RWOp::new_read(0, vec![0; 4]);
        dec.service_addr(&mut op);
        assert_eq!(u32::from_le_bytes([op.buf[0], op.buf[1], op.buf[2], op.buf[3]]), v);
    }
}

#[test]
fn latch_ignores_unaligned_or_short_access() {
    let mut dec = PioCfgDecoder::new();
    write_latch(&mut dec, 0x8000_0100);
    let mut w = RWOp::new_write(1, vec![1, 2, 3, 4]);
    dec.service_addr(&mut w);
    let mut w2 = RWOp::new_write(0, vec![1, 2]);
    dec.service_addr(&mut w2);
    assert_eq!(dec.addr(), 0x8000_0100);
    let mut r = RWOp::new_read(0, vec![7, 7]);
    dec.service_addr(&mut r);
    assert_eq!(r.buf, vec![7, 7]);
}

#[test]
fn pio_hit() {
    let mut bus = PciBus::new();
    bus.attach(bdf(0, 0, 0), Stub::new());
    let mut dec = PioCfgDecoder::new();
    write_latch(&mut dec, 0x8000_0000);
    let mut op = RWOp::new_read(0, vec![0; 1]);
    dec.service_data(&mut op, &mut bus);
    assert_eq!(op.buf, vec![0x42]);
    assert_eq!(op.offset, 0);
}

#[test]
fn pio_miss() {
    let mut bus: PciBus<Stub> = PciBus::new();
    let mut dec = PioCfgDecoder::new();
    write_latch(&mut dec, 0x8000_0800);
    let mut op = RWOp::new_read(0, vec![0; 4]);
    dec.service_data(&mut op, &mut bus);
    assert_eq!(op.buf, vec![0xff; 4]);
}

#[test]
fn enable_bit_clear() {
    let mut dec = PioCfgDecoder::new();
    write_latch(&mut dec, 0x0000_0000);
    let mut rec = Recorder { calls: Vec::new() };
    let mut op = RWOp::new_read(0, vec![0xaa; 4]);
    dec.service_data(&mut op, &mut rec);
    assert_eq!(op.buf, vec![0xaa; 4]);
    assert!(rec.calls.is_empty());
    let mut pre = RWOp::new_read(0, vec![0xff; 4]);
    dec.service_data(&mut pre, &mut rec);
    assert_eq!(pre.buf, vec![0xff; 4]);
    assert!(rec.calls.is_empty());
}

#[test]
fn pio_data_offset_is_forwarded() {
    let mut dec = PioCfgDecoder::new();
    write_latch(&mut dec, 0x8001_0a04);
    let mut rec = Recorder { calls: Vec::new() };
    let mut op = RWOp::new_read(2, vec![0; 1]);
    dec.service_data(&mut op, &mut rec);
    assert_eq!(rec.calls, vec![((1, 1, 2), 6, 1)]);
    assert_eq!(op.offset, 2);
    assert_eq!(op.buf, vec![0xff]);
}

#[test]
fn pio_write_miss_is_dropped() {
    let mut bus: PciBus<Stub> = PciBus::new();
    let mut dec = PioCfgDecoder::new();
    write_latch(&mut dec, 0x8000_0800);
    let mut op = RWOp::new_write(0, vec![1, 2, 3, 4]);
    dec.service_data(&mut op, &mut bus);
    assert_eq!(op.buf, vec![1, 2, 3, 4]);
}

#[test]
fn cfg_addr_parse_fields() {
    assert!(cfg_addr_parse(0x7fff_ffff).is_none());
    let (b, off) = cfg_addr_parse(0x80ff_fffc).unwrap();
    assert_eq!(b.triple(), (0xff, 31, 7));
    assert_eq!(off, 0xfc);
    let (b, off) = cfg_addr_parse(0x8000_0800).unwrap();
    assert_eq!(b.triple(), (0, 1, 0));
    assert_eq!(off, 0);
    let (b, _) = cfg_addr_parse(0xff12_3456).unwrap();
    assert_eq!(b.triple(), (0x12, 6, 4));
}

#[test]
fn ecam_decode() {
    let dec = PcieCfgDecoder::new(256).unwrap();
    let (b, off) = dec.decode_enhanced_cfg_offset(0x0012_3004);
    assert_eq!(b.triple(), (0x01, 0x04, 0x03));
    assert_eq!(off, 0x004);
    let mut rec = Recorder { calls: Vec::new() };
    let mut op = RWOp::new_read(0x0012_3004, vec![0; 4]);
    dec.service(&mut op, &mut rec);
    assert_eq!(rec.calls, vec![((1, 4, 3), 4, 4)]);
    assert_eq!(op.offset, 0x0012_3004);
    assert_eq!(op.buf, vec![0xff; 4]);
}

#[test]
fn ecam_bus_mask_applies() {
    let dec = PcieCfgDecoder::new(2).unwrap();
    let (b, off) = dec.decode_enhanced_cfg_offset(0x0030_0ffc);
    assert_eq!(b.triple(), (1, 0, 0));
    assert_eq!(off, 0xffc);
}

#[test]
fn ecam_straddle() {
    let dec = PcieCfgDecoder::new(256).unwrap();
    let mut rec = Recorder { calls: Vec::new() };
    let mut op = RWOp::new_read(0x0000_0ffe, vec![0; 4]);
    dec.service(&mut op, &mut rec);
    assert_eq!(op.buf, vec![0xff; 4]);
    assert!(rec.calls.is_empty());
    let mut w = RWOp::new_write(0x0000_0ffe, vec![1, 2, 3, 4]);
    dec.service(&mut w, &mut rec);
    assert_eq!(w.buf, vec![1, 2, 3, 4]);
    assert!(rec.calls.is_empty());
}

#[test]
fn ecam_hit() {
    let mut bus = PciBus::new();
    bus.attach(bdf(0, 2, 0), Stub::new());
    let dec = PcieCfgDecoder::new(256).unwrap();
    let mut op = RWOp::new_read(0x0001_0000, vec![0; 2]);
    dec.service(&mut op, &mut bus);
    assert_eq!(op.buf, vec![0x42, 0xff]);
}

#[test]
fn ecam_bus_count_validation() {
    for n in [0u16, 1, 3, 6, 257, 512, 1024, u16::MAX] {
        assert!(PcieCfgDecoder::new(n).is_none(), "{}", n);
    }
    for n in [2u16, 4, 8, 16, 32, 64, 128, 256] {
        assert!(PcieCfgDecoder::new(n).is_some(), "{}", n);
    }
}

#[test]
fn intx_routing() {
    let mut bus = PciBus::new();
    let stub = Stub::new();
    bus.attach(bdf(0, 31, 0), stub);
    let (pin, line) = bus.route_lintr(&bdf(0, 31, 0));
    assert_eq!(pin, INTxPinID::IntA);
    assert_eq!(line, 20);
}

#[test]
fn intx_attachment_carries_route() {
    let bus: PciBus<Stub> = PciBus::new();
    let stub = Stub::new();
    let mut bus = bus;
    bus.attach(bdf(0, 31, 0), stub);
    let mut op = RWOp::new_read(0, vec![0; 1]);
    assert!(bus.cfg_rw(&bdf(0, 31, 0), &mut op));
    assert_eq!(op.buf, vec![0x42]);
}

#[test]
fn intx_formula_all_functions() {
    let bus: PciBus<Stub> = PciBus::new();
    for d in 0u8..=31 {
        for f in 0u8..=7 {
            let (pin, line) = bus.route_lintr(&bdf(3, d, f));
            let id = (f % 4) + 1;
            assert_eq!(pin.id(), id);
            assert_eq!(line, 16 + ((4 + d + id) % 8));
        }
    }
    let (pin, line) = bus.route_lintr(&bdf(0, 1, 5));
    assert_eq!(pin, INTxPinID::IntB);
    assert_eq!(line, 16 + 7);
}

#[test]
fn absent_device_policy() {
    let bus: PciBus<Stub> = PciBus::new();
    let mut r = RWOp::new_read(0x10, vec![0; 4]);
    assert!(!bus.cfg_rw(&bdf(0, 3, 0), &mut r));
    assert_eq!(r.buf, vec![0xff; 4]);
    let mut w = RWOp::new_write(0x10, vec![9, 8]);
    assert!(!bus.cfg_rw(&bdf(0, 3, 0), &mut w));
    assert_eq!(w.buf, vec![9, 8]);
    let mut br = RWOp::new_read(0, vec![0; 2]);
    assert!(!bus.bar_rw(&bdf(0, 3, 0), BarN::BAR2, &mut br));
    assert_eq!(br.buf, vec![0xff; 2]);
}

#[test]
fn bar_rw_forwards() {
    let mut bus = PciBus::new();
    bus.attach(bdf(0, 3, 0), Stub::new());
    let mut br = RWOp::new_read(0, vec![0; 2]);
    assert!(bus.bar_rw(&bdf(0, 3, 0), BarN::BAR0, &mut br));
    assert_eq!(br.buf, vec![0x11; 2]);
}

#[test]
fn attach_registers_address() {
    let mut bus = PciBus::new();
    assert!(!bus.contains(&bdf(0, 4, 1)));
    bus.attach(bdf(0, 4, 1), Stub::new());
    assert!(bus.contains(&bdf(0, 4, 1)));
    assert!(!bus.contains(&bdf(0, 4, 2)));
}

#[test]
fn construction_widths() {
    assert!(Bdf::new(0, 32, 0).is_none());
    assert!(Bdf::new(0, 0, 8).is_none());
    assert!(Bdf::new(255, 255, 255).is_none());
    assert_eq!(Bdf::new(255, 31, 7).unwrap().triple(), (255, 31, 7));
    assert!(DevNum::new(32).is_none());
    assert_eq!(DevNum::new(31).unwrap().get(), 31);
    assert!(FuncNum::new(8).is_none());
    assert_eq!(FuncNum::new(7).unwrap().get(), 7);
    assert_eq!(BusNum::new(200).unwrap().get(), 200);
    assert!(BusLocation::new(31, 8).is_none());
    assert!(BusLocation::new(40, 0).is_none());
    let loc = BusLocation::new(5, 6).unwrap();
    assert_eq!((loc.dev.get(), loc.func.get()), (5, 6));
}

#[test]
fn bdf_order_is_lexicographic() {
    assert!(bdf(0, 31, 7) < bdf(1, 0, 0));
    assert!(bdf(1, 2, 7) < bdf(1, 3, 0));
    assert!(bdf(1, 2, 3) < bdf(1, 2, 4));
}

#[test]
fn text_round_trip() {
    for b in [0u8, 9, 10, 99, 100, 255] {
        for d in [0u8, 7, 10, 31] {
            for f in [0u8, 7] {
                let x = bdf(b, d, f);
                let s = x.to_string();
                assert_eq!(Bdf::parse(&s), Ok(x));
                assert_eq!(s.parse::<Bdf>(), Ok(x));
            }
        }
    }
    assert_eq!(bdf(1, 2, 3).to_string(), "1.2.3");
    assert_eq!(bdf(255, 31, 7).to_text(), b"255.31.7".to_vec());
}

#[test]
fn parse_rejects_malformed() {
    assert_eq!(Bdf::parse("0.0"), Err(BdfError::WrongFieldCount));
    assert_eq!(Bdf::parse("0.0.0.0"), Err(BdfError::WrongFieldCount));
    assert_eq!(Bdf::parse("0.32.0"), Err(BdfError::OutOfRange));
    assert_eq!(Bdf::parse("0.0.8"), Err(BdfError::OutOfRange));
    assert_eq!(Bdf::parse("-1.0.0"), Err(BdfError::InvalidField));
    assert_eq!(Bdf::parse("0.0.a"), Err(BdfError::InvalidField));
    assert_eq!(Bdf::parse(""), Err(BdfError::InvalidField));
    assert_eq!(Bdf::parse("256.0.0"), Err(BdfError::ValueTooLarge));
    assert_eq!(Bdf::parse("1.x.999"), Err(BdfError::InvalidField));
    assert_eq!(Bdf::parse("007.01.2"), Ok(bdf(7, 1, 2)));
}

#[test]
fn bar_iteration_order() {
    let mut it = BarN::iter();
    let mut got = Vec::new();
    while let Some(b) = it.next() {
        got.push(b);
    }
    assert_eq!(
        got,
        vec![BarN::BAR0, BarN::BAR1, BarN::BAR2, BarN::BAR3, BarN::BAR4, BarN::BAR5]
    );
    assert_eq!(BarN::from_repr(6), None);
    assert_eq!(BarN::from_repr(3), Some(BarN::BAR3));
}

#[test]
fn rwop_le_words() {
    let mut op = RWOp::new_read(0, vec![0; 6]);
    op.write_u32(0x0403_0201);
    assert_eq!(op.buf, vec![1, 2, 3, 4, 0, 0]);
    let w = RWOp::new_write(0, vec![0x78, 0x56, 0x34, 0x12]);
    assert_eq!(w.read_u32(), 0x1234_5678);
    assert_eq!(w.len(), 4);
    let mut f = RWOp::new_read(0, vec![0; 3]);
    f.fill(0xee);
    assert_eq!(f.buf, vec![0xee; 3]);
}

#[test]
fn port_pair_serves_both_ports() {
    let mut bus = PciBus::new();
    bus.attach(bdf(0, 0, 0), Stub::new());
    let mut dec = PioCfgDecoder::new();
    let mut w = RWOp::new_write(0, vec![0x00, 0x00, 0x00, 0x80]);
    dec.service_port(PORT_PCI_CONFIG_ADDR, &mut w, &mut bus);
    assert_eq!(dec.addr(), 0x8000_0000);
    let mut r = RWOp::new_read(0, vec![0; 2]);
    dec.service_port(PORT_PCI_CONFIG_DATA, &mut r, &mut bus);
    assert_eq!(r.buf, vec![0x42, 0xff]);
    dec.set_addr(0x8000_1000);
    let mut miss = RWOp::new_read(0, vec![0; 4]);
    dec.service_port(PORT_PCI_CONFIG_DATA, &mut miss, &mut bus);
    assert_eq!(miss.buf, vec![0xff; 4]);
}

#[test]
fn path_conversion() {
    assert_eq!(Bdf::try_from_path(1, 2, 3), Ok(bdf(1, 2, 3)));
    assert_eq!(Bdf::try_from_path(1, 32, 3), Err(BdfError::OutOfRange));
    assert_eq!(Bdf::try_from_path(1, 2, 9), Err(BdfError::OutOfRange));
}

#[test]
fn attach_hands_device_its_route() {
    let mut bus = PciBus::new();
    let stub = Stub::new();
    let record = Arc::clone(&stub.attached);
    bus.attach(bdf(0, 31, 0), stub);
    let got = record.lock().unwrap().unwrap();
    assert_eq!(got.bdf, bdf(0, 31, 0));
    assert_eq!(got.lintr, Some((INTxPinID::IntA, 20)));
    let other = Stub::new();
    let record2 = Arc::clone(&other.attached);
    bus.attach(bdf(2, 3, 6), other);
    let got2 = record2.lock().unwrap().unwrap();
    assert_eq!(got2.bdf, bdf(2, 3, 6));
    assert_eq!(got2.lintr, Some((INTxPinID::IntC, 16 + ((4 + 3 + 3) % 8))));
}
